use cozy_chess::{Board, GameStatus, Move};
use gleam::board_eval;
use gleam::search::{HashTable, best_move, choose_move, minmax, quiesce};

fn legal(board: &Board) -> Vec<Move> {
    let mut v = Vec::new();
    board.generate_moves(|set| {
        v.extend(set);
        false
    });
    v
}

/// Plain unpruned negamax over the same tree shape: full enumeration, no
/// window, no cache, static evaluation at the horizon.
fn ref_negamax(board: &Board, depth: usize) -> i32 {
    if depth == 0 {
        return board_eval(board);
    }
    match board.status() {
        GameStatus::Won => return -i32::MAX,
        GameStatus::Drawn => return 0,
        GameStatus::Ongoing => {}
    }
    let mut best = -i32::MAX;
    for mv in legal(board) {
        let mut next = board.clone();
        next.play(mv);
        let v = -ref_negamax(&next, depth - 1);
        if v > best {
            best = v;
        }
    }
    best
}

#[test]
fn chosen_move_is_legal_from_the_start_position() {
    let board = Board::default();
    let mut t = HashTable::new_n(1 << 16);
    let mv = best_move(&board, &mut t);
    assert!(legal(&board).contains(&mv));

    let mut t2 = HashTable::new_n(1 << 16);
    let mv2 = choose_move(&board, &mut t2).unwrap();
    assert!(legal(&board).contains(&mv2));
}

#[test]
fn choose_move_reports_a_position_without_moves() {
    // Black is mated: rook c8 checks along the back rank, rook h7 seals the
    // seventh.
    let board = Board::from_fen("k1R5/7R/8/8/8/8/8/K7 b - - 0 1", false).unwrap();
    assert!(legal(&board).is_empty());
    let mut t = HashTable::new_n(64);
    assert!(choose_move(&board, &mut t).is_none());
}

#[test]
fn quiesce_never_returns_less_than_standing_pat() {
    // The white pawn on e4 can win the black queen on d5.
    let board = Board::from_fen("k7/8/8/3q4/4P3/8/8/K7 w - - 0 1", false).unwrap();
    let stand = board_eval(&board);
    let mut t = HashTable::new_n(64);
    let q = quiesce(&board, None, None, &mut t);
    assert!(q >= stand, "quiesce gave {q}, below the standing pat {stand}");
    assert!(q > stand, "the winning capture was not found");
}

#[test]
fn quiesce_is_the_static_evaluation_when_no_capture_exists() {
    let board = Board::from_fen("8/8/8/8/7k/K1n5/8/8 b - - 0 81", false).unwrap();
    let mut t = HashTable::new_n(64);
    let q = quiesce(&board, None, None, &mut t);
    assert_eq!(q, board_eval(&board));
}

#[test]
fn alpha_beta_equals_plain_minimax() {
    // A capture-free, check-free position: the windowed, cached search must
    // report the same value as the plain enumeration.
    let board = Board::from_fen("8/8/8/8/1k6/8/8/K7 w - - 0 1", false).unwrap();
    let mut t = HashTable::new_n(1 << 12);
    let engine = minmax(&board, 2, None, None, &mut t);
    assert_eq!(engine, ref_negamax(&board, 2));
}

#[test]
fn search_results_are_reproducible() {
    let board = Board::default();
    let mut t1 = HashTable::new_n(1 << 12);
    let mut t2 = HashTable::new_n(1 << 12);
    assert_eq!(best_move(&board, &mut t1), best_move(&board, &mut t2));

    let tactical = Board::from_fen("k7/8/8/3q4/4P3/8/8/K7 w - - 0 1", false).unwrap();
    let mut f1 = HashTable::new_n(1 << 12);
    let mut f2 = HashTable::new_n(1 << 12);
    assert_eq!(
        minmax(&tactical, 2, None, None, &mut f1),
        minmax(&tactical, 2, None, None, &mut f2)
    );
}
