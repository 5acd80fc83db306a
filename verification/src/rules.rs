//! The boundary to the external rules engine (cozy_chess).
//!
//! The engine's positions and moves are opaque values here. What the search
//! and the evaluator read of them is named by uninterpreted spec functions,
//! and a small set of trusted wrappers ties each name to the one engine call
//! that computes it. Everything the rules engine returns is a deterministic
//! function of the position value alone.
//!
//! Square contents are coded as a `u8`: 0 for an empty square, 1 through 6
//! for a white pawn, knight, bishop, rook, queen and king, and 7 through 12
//! for the same black pieces. Squares are numbered 0 through 63 in rank-major
//! order (a1, b1, ..., h8), the order the engine itself uses.

use vstd::prelude::*;
use cozy_chess::{Board, Move};

verus! {

#[verifier::external_type_specification]
#[verifier::external_body]
pub struct ExBoard(cozy_chess::Board);

#[verifier::external_type_specification]
#[verifier::external_body]
pub struct ExMove(cozy_chess::Move);

/// The outcome the rules engine reports for a position: play goes on, the
/// side to move has been mated, or the game is drawn.
pub enum Status {
    Ongoing,
    Won,
    Drawn,
}

/// The contents of the 64 squares of a position, coded as described above.
pub uninterp spec fn squares_of(b: Board) -> Seq<u8>;

/// Whether the side to move is black.
pub uninterp spec fn mover_of(b: Board) -> bool;

/// The position's 64-bit fingerprint.
pub uninterp spec fn hash_of(b: Board) -> u64;

/// The legal moves of a position, in the order the engine enumerates them.
pub uninterp spec fn moves_of(b: Board) -> Seq<Move>;

/// The legal moves whose destination square holds an opposing piece, in the
/// order the engine enumerates them.
pub uninterp spec fn captures_of(b: Board) -> Seq<Move>;

/// The position reached by playing a legal move.
pub uninterp spec fn succ_of(b: Board, mv: Move) -> Board;

/// The game outcome the engine reports for a position.
pub uninterp spec fn status_of(b: Board) -> Status;

/// Whether the side to move stands in check.
pub uninterp spec fn in_check_of(b: Board) -> bool;

/// Relies on cozy_chess::Board::color_on and Board::piece_on: the color and
/// kind of the piece on a square, read straight off the position's bitboards.
#[verifier::external_body]
pub fn read_square(b: &Board, sq: u8) -> (r: u8)
    requires
        sq < 64,
    ensures
        r == squares_of(*b)[sq as int],
        r <= 12,
{
    let s = cozy_chess::Square::index(sq as usize);
    match (b.color_on(s), b.piece_on(s)) {
        (Some(cozy_chess::Color::White), Some(p)) => 1 + p as u8,
        (Some(cozy_chess::Color::Black), Some(p)) => 7 + p as u8,
        _ => 0,
    }
}

/// Relies on cozy_chess::Board::side_to_move.
#[verifier::external_body]
pub fn black_to_move(b: &Board) -> (r: bool)
    ensures
        r == mover_of(*b),
{
    b.side_to_move() == cozy_chess::Color::Black
}

/// Relies on cozy_chess::Board::hash: a Zobrist fingerprint built from
/// compile-time constant tables, so a function of the position alone.
#[verifier::external_body]
pub fn position_hash(b: &Board) -> (r: u64)
    ensures
        r == hash_of(*b),
{
    b.hash()
}

/// Relies on cozy_chess::Board::generate_moves: every legal move of the
/// position, each exactly once, enumerated in a fixed order.
#[verifier::external_body]
pub fn legal_moves(b: &Board) -> (r: Vec<Move>)
    ensures
        r@ == moves_of(*b),
{
    let mut list = Vec::new();
    b.generate_moves(|set| {
        list.extend(set);
        false
    });
    list
}

/// Relies on cozy_chess::Board::generate_moves, with each destination set
/// masked by the opponent's pieces: the legal moves that land on an opposing
/// piece. Every move it yields is also yielded by the unmasked enumeration.
#[verifier::external_body]
pub fn capture_moves(b: &Board) -> (r: Vec<Move>)
    ensures
        r@ == captures_of(*b),
        forall|i: int| 0 <= i < r@.len() ==> moves_of(*b).contains(r@[i]),
{
    let enemy = b.colors(!b.side_to_move());
    let mut list = Vec::new();
    b.generate_moves(|set| {
        let mut masked = set;
        masked.to &= enemy;
        list.extend(masked);
        false
    });
    list
}

/// Relies on cozy_chess::Board::play, on a clone of the position: the
/// successor position of a legal move. Playing an illegal move panics, so a
/// caller must offer a move the engine enumerated.
#[verifier::external_body]
pub fn play_move(b: &Board, mv: Move) -> (r: Board)
    requires
        moves_of(*b).contains(mv),
    ensures
        r == succ_of(*b, mv),
{
    let mut next = b.clone();
    next.play(mv);
    next
}

/// Relies on cozy_chess::Board::status: `Won` when the side to move has no
/// legal move and stands in check (it is mated), `Drawn` on stalemate or once
/// the halfmove clock reaches a hundred, `Ongoing` otherwise.
#[verifier::external_body]
pub fn game_status(b: &Board) -> (r: Status)
    ensures
        r == status_of(*b),
{
    match b.status() {
        cozy_chess::GameStatus::Won => Status::Won,
        cozy_chess::GameStatus::Drawn => Status::Drawn,
        cozy_chess::GameStatus::Ongoing => Status::Ongoing,
    }
}

/// Relies on cozy_chess::Board::checkers: the pieces giving check to the side
/// to move; the side stands in check when that set is not empty.
#[verifier::external_body]
pub fn in_check(b: &Board) -> (r: bool)
    ensures
        r == in_check_of(*b),
{
    b.checkers() != cozy_chess::BitBoard::EMPTY
}

/// Relies on the derived cozy_chess::Move::clone, which copies the fields.
pub assume_specification[ <Move as Clone>::clone ](mv: &Move) -> (r: Move)
    ensures
        r == *mv,
;

} // verus!
