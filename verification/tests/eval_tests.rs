use cozy_chess::Board;
use gleam::{Eval, eval_position};

#[test]
fn test_eval() {
    let board1 = Board::from_fen("rnbq1b2/4kQ2/4B3/1N6/1N6/P5P1/P5PP/R1B1R1K1 b - - 2 29", false)
        .unwrap();
    let eval1 = board1.eval();
    let board2 = Board::from_fen("8/8/8/8/7k/K1n5/8/8 b - - 0 81", false).unwrap();
    let eval2 = board2.eval();

    assert!(eval1 < 0, "got eval {eval1}");
    assert!(eval2 > 0, "got eval {eval2}");
}

#[test]
fn empty_board_evaluates_to_zero() {
    let squares = vec![0u8; 64];
    assert_eq!(eval_position(&squares, false), 0);
    assert_eq!(eval_position(&squares, true), 0);
}

#[test]
fn color_swap_on_a_mirrored_board_negates_the_score() {
    // White: king e1, pawn e2, knight g1. Black: king e8, rook a8.
    let mut v = vec![0u8; 64];
    v[4] = 6;
    v[12] = 1;
    v[6] = 2;
    v[60] = 12;
    v[56] = 10;
    // Swap the colors and reflect every square (file and rank both).
    let mut m = vec![0u8; 64];
    for s in 0..64 {
        let c = v[63 - s];
        m[s] = if c == 0 {
            0
        } else if c <= 6 {
            c + 6
        } else {
            c - 6
        };
    }
    let e = eval_position(&v, false);
    assert!(e != 0);
    assert_eq!(eval_position(&m, false), -e);
    assert_eq!(eval_position(&m, true), e);
}

#[test]
fn material_alone_scores_a_lone_extra_pawn() {
    // White king a1 (square 0), black king a8 (56), white pawn e4 (28).
    // Three pieces: the endgame tables apply.
    // king a1: index 0*8+0 = 0 -> eg king -74; pawn e4: file 4 rank 3,
    // index 4*8+3 = 35 -> eg pawn -7; black king a8: mirrored index
    // (7-0)*8+(7-7) = 56 -> eg king -53.
    let mut v = vec![0u8; 64];
    v[0] = 6;
    v[56] = 12;
    v[28] = 1;
    let white_total = (20000 - 74) + (100 - 7);
    let black_total = 20000 - 53;
    assert_eq!(eval_position(&v, false), white_total - black_total);
    assert_eq!(eval_position(&v, true), black_total - white_total);
}
