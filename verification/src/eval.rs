//! Static evaluation of a position.
//!
//! A position is scored as material plus a per-square positional bonus, from
//! the point of view of the side to move. The bonus tables are written from
//! White's side; Black reads the mirror square (file and rank both
//! reflected). The game is treated as an endgame, with its own tables, once
//! at most sixteen pieces remain.

use vstd::prelude::*;
use cozy_chess::Board;
use crate::rules;

verus! {

pub type EvalInt = i32;

pub const PAWN_PST: [i32; 64] = [
    0, 0, 0, 0, 0, 0, 0, 0,
    50, 50, 50, 50, 50, 50, 50, 50,
    10, 10, 20, 30, 30, 20, 10, 10,
    5, 5, 10, 25, 25, 10, 5, 5,
    0, 0, 0, 20, 20, 0, 0, 0,
    5, -5, -10, 0, 0, -10, -5, 5,
    5, 10, 10, -20, -20, 10, 10, 5,
    0, 0, 0, 0, 0, 0, 0, 0,
];

pub const EG_PAWN_PST: [i32; 64] = [
    0, 0, 0, 0, 0, 0, 0, 0,
    178, 173, 158, 134, 147, 132, 165, 187,
    94, 100, 85, 67, 56, 53, 82, 84,
    32, 24, 13, 5, -2, 4, 17, 17,
    13, 9, -3, -7, -7, -8, 3, -1,
    4, 7, -6, 1, 0, -5, -1, -8,
    13, 8, 8, 10, 13, 0, 2, -7,
    0, 0, 0, 0, 0, 0, 0, 0,
];

pub const KNIGHT_PST: [i32; 64] = [
    -50, -40, -30, -30, -30, -30, -40, -50,
    -40, -20, 0, 0, 0, 0, -20, -40,
    -30, 0, 10, 15, 15, 10, 0, -30,
    -30, 5, 15, 20, 20, 15, 5, -30,
    -30, 0, 15, 20, 20, 15, 0, -30,
    -30, 5, 10, 15, 15, 10, 5, -30,
    -40, -20, 0, 5, 5, 0, -20, -40,
    -50, -40, -30, -30, -30, -30, -40, -50,
];

pub const EG_KNIGHT_PST: [i32; 64] = [
    -58, -38, -13, -28, -31, -27, -63, -99,
    -25, -8, -25, -2, -9, -25, -24, -52,
    -24, -20, 10, 9, -1, -9, -19, -41,
    -17, 3, 22, 22, 22, 11, 8, -18,
    -18, -6, 16, 25, 16, 17, 4, -18,
    -23, -3, -1, 15, 10, -3, -20, -22,
    -42, -20, -10, -5, -2, -20, -23, -44,
    -29, -51, -23, -15, -22, -18, -50, -64,
];

pub const BISHOP_PST: [i32; 64] = [
    -20, -10, -10, -10, -10, -10, -10, -20,
    -10, 0, 0, 0, 0, 0, 0, -10,
    -10, 0, 5, 10, 10, 5, 0, -10,
    -10, 5, 5, 10, 10, 5, 5, -10,
    -10, 0, 10, 10, 10, 10, 0, -10,
    -10, 10, 10, 10, 10, 10, 10, -10,
    -10, 5, 0, 0, 0, 0, 5, -10,
    -20, -10, -10, -10, -10, -10, -10, -20,
];

pub const EG_BISHOP_PST: [i32; 64] = [
    -14, -21, -11, -8, -7, -9, -17, -24,
    -8, -4, 7, -12, -3, -13, -4, -14,
    2, -8, 0, -1, -2, 6, 0, 4,
    -3, 9, 12, 9, 14, 10, 3, 2,
    -6, 3, 13, 19, 7, 10, -3, -9,
    -12, -3, 8, 10, 13, 3, -7, -15,
    -14, -18, -7, -1, 4, -9, -15, -27,
    -23, -9, -23, -5, -9, -16, -5, -17,
];

pub const ROOK_PST: [i32; 64] = [
    0, 0, 0, 0, 0, 0, 0, 0,
    5, 10, 10, 10, 10, 10, 10, 5,
    -5, 0, 0, 0, 0, 0, 0, -5,
    -5, 0, 0, 0, 0, 0, 0, -5,
    -5, 0, 0, 0, 0, 0, 0, -5,
    -5, 0, 0, 0, 0, 0, 0, -5,
    -5, 0, 0, 0, 0, 0, 0, -5,
    0, 0, 0, 5, 5, 0, 0, 0,
];

pub const EG_ROOK_PST: [i32; 64] = [
    13, 10, 18, 15, 12, 12, 8, 5,
    11, 13, 13, 11, -3, 3, 8, 3,
    7, 7, 7, 5, 4, -3, -5, -3,
    4, 3, 13, 1, 2, 1, -1, 2,
    3, 5, 8, 4, -5, -6, -8, -11,
    -4, 0, -5, -1, -7, -12, -8, -16,
    -6, -6, 0, 2, -9, -9, -11, -3,
    -9, 2, 3, -1, -5, -13, 4, -20,
];

pub const QUEEN_PST: [i32; 64] = [
    -20, -10, -10, -5, -5, -10, -10, -20,
    -10, 0, 0, 0, 0, 0, 0, -10,
    -10, 0, 5, 5, 5, 5, 0, -10,
    -5, 0, 5, 5, 5, 5, 0, -5,
    0, 0, 5, 5, 5, 5, 0, -5,
    -10, 5, 5, 5, 5, 5, 0, -10,
    -10, 0, 5, 0, 0, 0, 0, -10,
    -20, -10, -10, -5, -5, -10, -10, -20,
];

pub const EG_QUEEN_PST: [i32; 64] = [
    -9, 22, 22, 27, 27, 19, 10, 20,
    -17, 20, 32, 41, 58, 25, 30, 0,
    -20, 6, 9, 49, 47, 35, 19, 9,
    3, 22, 24, 45, 57, 40, 57, 36,
    -18, 28, 19, 47, 31, 34, 39, 23,
    -16, -27, 15, 6, 9, 17, 10, 5,
    -22, -23, -30, -16, -16, -23, -36, -32,
    -33, -28, -22, -43, -5, -32, -20, -41,
];

pub const KING_PST: [i32; 64] = [
    -30, -40, -40, -50, -50, -40, -40, -30,
    -30, -40, -40, -50, -50, -40, -40, -30,
    -30, -40, -40, -50, -50, -40, -40, -30,
    -30, -40, -40, -50, -50, -40, -40, -30,
    -20, -30, -30, -40, -40, -30, -30, -20,
    -10, -20, -20, -20, -20, -20, -20, -10,
    20, 20, 0, 0, 0, 0, 20, 20,
    20, 30, 10, 0, 0, 10, 30, 20,
];

pub const EG_KING_PST: [i32; 64] = [
    -74, -35, -18, -18, -11, 15, 4, -17,
    -12, 17, 14, 17, 17, 38, 23, 11,
    10, 17, 23, 15, 20, 45, 44, 13,
    -8, 22, 24, 27, 26, 33, 26, 3,
    -18, -4, 21, 24, 27, 23, 9, -11,
    -19, -3, 11, 21, 23, 16, 7, -9,
    -27, -11, 4, 13, 14, 4, -5, -17,
    -53, -34, -21, -11, -28, -14, -24, -43,
];

/// A square holding is well coded: 0 empty, 1..=6 white, 7..=12 black.
pub open spec fn wf_squares(v: Seq<u8>) -> bool {
    &&& v.len() == 64
    &&& forall|i: int| 0 <= i < 64 ==> #[trigger] v[i] <= 12
}

/// The material value of a piece kind (0 pawn, 1 knight, 2 bishop, 3 rook,
/// 4 queen, 5 king).
pub open spec fn base_value(p: int) -> int {
    if p == 0 {
        100
    } else if p == 1 {
        250
    } else if p == 2 {
        300
    } else if p == 3 {
        500
    } else if p == 4 {
        900
    } else {
        20000
    }
}

/// The positional bonus of piece kind `p` on table index `idx`.
pub open spec fn table_at(p: int, idx: int, endgame: bool) -> int {
    if p == 0 {
        (if endgame { EG_PAWN_PST[idx] } else { PAWN_PST[idx] }) as int
    } else if p == 1 {
        (if endgame { EG_KNIGHT_PST[idx] } else { KNIGHT_PST[idx] }) as int
    } else if p == 2 {
        (if endgame { EG_BISHOP_PST[idx] } else { BISHOP_PST[idx] }) as int
    } else if p == 3 {
        (if endgame { EG_ROOK_PST[idx] } else { ROOK_PST[idx] }) as int
    } else if p == 4 {
        (if endgame { EG_QUEEN_PST[idx] } else { QUEEN_PST[idx] }) as int
    } else {
        (if endgame { EG_KING_PST[idx] } else { KING_PST[idx] }) as int
    }
}

/// The table index a white piece on square `s` reads: file times eight plus
/// rank, with squares numbered rank-major from a1.
pub open spec fn white_index(s: int) -> int {
    (s % 8) * 8 + s / 8
}

/// The table index a black piece on square `s` reads: the white index of the
/// square with file and rank both reflected.
pub open spec fn black_index(s: int) -> int {
    (7 - s % 8) * 8 + (7 - s / 8)
}

/// The sum of `f(0) + f(1) + ... + f(n - 1)`.
pub open spec fn sum_upto(f: spec_fn(int) -> int, n: int) -> int
    decreases n,
{
    if n <= 0 {
        0
    } else {
        sum_upto(f, n - 1) + f(n - 1)
    }
}

/// The sum of `f(lo) + f(lo + 1) + ... + f(63)`.
pub open spec fn sum_from(f: spec_fn(int) -> int, lo: int) -> int
    decreases 64 - lo,
{
    if lo >= 64 {
        0
    } else {
        f(lo) + sum_from(f, lo + 1)
    }
}

/// One where square `s` is occupied, zero where it is empty.
pub open spec fn occ_f(v: Seq<u8>) -> spec_fn(int) -> int {
    |s: int| if v[s] != 0 { 1int } else { 0int }
}

pub open spec fn occupied_count(v: Seq<u8>) -> int {
    sum_upto(occ_f(v), 64)
}

pub open spec fn is_endgame(v: Seq<u8>) -> bool {
    occupied_count(v) <= 16
}

/// White's score for square `s`: material plus bonus if a white piece stands
/// there, zero otherwise.
pub open spec fn white_f(v: Seq<u8>, endgame: bool) -> spec_fn(int) -> int {
    |s: int|
        if 1 <= v[s] <= 6 {
            base_value(v[s] - 1) + table_at(v[s] - 1, white_index(s), endgame)
        } else {
            0
        }
}

/// Black's score for square `s`, read from the mirror square's table entry.
pub open spec fn black_f(v: Seq<u8>, endgame: bool) -> spec_fn(int) -> int {
    |s: int|
        if 7 <= v[s] <= 12 {
            base_value(v[s] - 7) + table_at(v[s] - 7, black_index(s), endgame)
        } else {
            0
        }
}

pub open spec fn white_total(v: Seq<u8>, endgame: bool) -> int {
    sum_upto(white_f(v, endgame), 64)
}

pub open spec fn black_total(v: Seq<u8>, endgame: bool) -> int {
    sum_upto(black_f(v, endgame), 64)
}

/// The evaluation of a position: White's total minus Black's, negated when
/// Black is the side to move, so always from the mover's point of view.
pub open spec fn eval_spec(v: Seq<u8>, black_to_move: bool) -> int {
    let endgame = is_endgame(v);
    let score = white_total(v, endgame) - black_total(v, endgame);
    if black_to_move {
        -score
    } else {
        score
    }
}

/// Material value plus positional bonus of piece kind `piece` on table index
/// `index`.
pub fn get_val(piece: u8, index: usize, endgame: bool) -> (r: EvalInt)
    requires
        piece <= 5,
        index < 64,
    ensures
        r as int == base_value(piece as int) + table_at(piece as int, index as int, endgame),
        0 < r <= 21000,
{
    if piece == 0 {
        if endgame {
            100 + EG_PAWN_PST[index]
        } else {
            100 + PAWN_PST[index]
        }
    } else if piece == 1 {
        if endgame {
            250 + EG_KNIGHT_PST[index]
        } else {
            250 + KNIGHT_PST[index]
        }
    } else if piece == 2 {
        if endgame {
            300 + EG_BISHOP_PST[index]
        } else {
            300 + BISHOP_PST[index]
        }
    } else if piece == 3 {
        if endgame {
            500 + EG_ROOK_PST[index]
        } else {
            500 + ROOK_PST[index]
        }
    } else if piece == 4 {
        if endgame {
            900 + EG_QUEEN_PST[index]
        } else {
            900 + QUEEN_PST[index]
        }
    } else {
        if endgame {
            20000 + EG_KING_PST[index]
        } else {
            20000 + KING_PST[index]
        }
    }
}

/// Evaluate square contents directly. The whole evaluator, on plain data.
pub fn eval_position(squares: &Vec<u8>, black_to_move: bool) -> (r: EvalInt)
    requires
        wf_squares(squares@),
    ensures
        r as int == eval_spec(squares@, black_to_move),
        -1344000 <= r <= 1344000,
{
    let ghost v = squares@;
    let mut occ: u32 = 0;
    let mut i: usize = 0;
    while i < 64
        invariant
            i <= 64,
            squares@ == v,
            wf_squares(v),
            occ as int == sum_upto(occ_f(v), i as int),
            occ <= i,
        decreases 64 - i,
    {
        if squares[i] != 0 {
            occ = occ + 1;
        }
        i = i + 1;
    }
    let endgame: bool = occ <= 16;
    assert(endgame == is_endgame(v));

    let mut white: i32 = 0;
    let mut black: i32 = 0;
    let mut s: usize = 0;
    while s < 64
        invariant
            s <= 64,
            squares@ == v,
            wf_squares(v),
            endgame == is_endgame(v),
            white as int == sum_upto(white_f(v, endgame), s as int),
            black as int == sum_upto(black_f(v, endgame), s as int),
            0 <= white <= 21000 * s,
            0 <= black <= 21000 * s,
        decreases 64 - s,
    {
        let code = squares[s];
        if 1 <= code && code <= 6 {
            let index = (s % 8) * 8 + s / 8;
            white = white + get_val(code - 1, index, endgame);
        } else if code >= 7 {
            let index = (7 - s % 8) * 8 + (7 - s / 8);
            black = black + get_val(code - 7, index, endgame);
        }
        s = s + 1;
    }
    let score = white - black;
    if black_to_move {
        -score
    } else {
        score
    }
}

pub trait Eval {
    fn eval(&self) -> EvalInt;
}

impl Eval for Board {
    fn eval(&self) -> (r: EvalInt)
        ensures
            r as int == eval_spec(rules::squares_of(*self), rules::mover_of(*self)),
    {
        board_eval(self)
    }
}

/// The whole sum splits into the part below `n` and the part from `n` up.
proof fn lemma_sum_split(f: spec_fn(int) -> int, n: int)
    requires
        0 <= n <= 64,
    ensures
        sum_upto(f, 64) == sum_upto(f, n) + sum_from(f, n),
    decreases 64 - n,
{
    if n < 64 {
        lemma_sum_split(f, n + 1);
    }
}

/// Summing `g` up to `n` is summing `f` over the top `n` indices when `g`
/// reads `f` through the reflection `s -> 63 - s`.
proof fn lemma_sum_reflected_partial(f: spec_fn(int) -> int, g: spec_fn(int) -> int, n: int)
    requires
        0 <= n <= 64,
        forall|s: int| 0 <= s < 64 ==> #[trigger] g(s) == f(63 - s),
    ensures
        sum_upto(g, n) == sum_from(f, 64 - n),
    decreases n,
{
    if n > 0 {
        lemma_sum_reflected_partial(f, g, n - 1);
    }
}

/// A sum over all 64 squares is unchanged by reflecting the index.
pub proof fn lemma_sum_reflected(f: spec_fn(int) -> int, g: spec_fn(int) -> int)
    requires
        forall|s: int| 0 <= s < 64 ==> #[trigger] g(s) == f(63 - s),
    ensures
        sum_upto(g, 64) == sum_upto(f, 64),
{
    lemma_sum_reflected_partial(f, g, 64);
    lemma_sum_split(f, 0);
}

/// A sum of zero terms is zero.
proof fn lemma_sum_zero(f: spec_fn(int) -> int, n: int)
    requires
        forall|s: int| 0 <= s < n ==> #[trigger] f(s) == 0,
    ensures
        sum_upto(f, n) == 0,
    decreases n,
{
    if n > 0 {
        lemma_sum_zero(f, n - 1);
    }
}

/// Reflecting a square (file and rank both) swaps the table indices the two
/// colors read.
proof fn lemma_mirror_index(s: int)
    requires
        0 <= s < 64,
    ensures
        white_index(63 - s) == black_index(s),
        black_index(63 - s) == white_index(s),
{
    assert((63 - s) % 8 == 7 - s % 8 && (63 - s) / 8 == 7 - s / 8) by {
        assert(s == 8 * (s / 8) + s % 8);
        assert(0 <= s % 8 < 8);
        assert(63 - s == 8 * (7 - s / 8) + (7 - s % 8)) by (nonlinear_arith)
            requires
                s == 8 * (s / 8) + s % 8,
        ;
        assert((8 * (7 - s / 8) + (7 - s % 8)) % 8 == 7 - s % 8 && (8 * (7 - s / 8) + (7 - s % 8))
            / 8 == 7 - s / 8) by (nonlinear_arith)
            requires
                0 <= s % 8 < 8 && 0 <= s / 8 < 8,
        ;
    }
}

/// The code of the same piece kind in the other color; empty stays empty.
pub open spec fn color_swapped(c: u8) -> u8 {
    if 1 <= c <= 6 {
        (c + 6) as u8
    } else if 7 <= c <= 12 {
        (c - 6) as u8
    } else {
        0
    }
}

/// The position with the board reflected (square `s` goes to `63 - s`, file
/// and rank both) and every piece given to the other color.
pub open spec fn mirrored(v: Seq<u8>) -> Seq<u8> {
    Seq::new(64, |s: int| color_swapped(v[63 - s]))
}

/// Law: the evaluation is antisymmetric under swapping the colors on a
/// reflected board. With the same side named as mover the score negates;
/// handing the move to the other side as well, the mover's score is
/// unchanged, since each side's material and bonuses carry over exactly.
pub proof fn lemma_eval_color_swap(v: Seq<u8>, black_to_move: bool)
    requires
        wf_squares(v),
    ensures
        eval_spec(mirrored(v), black_to_move) == -eval_spec(v, black_to_move),
        eval_spec(mirrored(v), !black_to_move) == eval_spec(v, black_to_move),
{
    let m = mirrored(v);
    assert forall|s: int| 0 <= s < 64 implies #[trigger] occ_f(m)(s) == occ_f(v)(63 - s) by {}
    lemma_sum_reflected(occ_f(v), occ_f(m));
    assert(is_endgame(m) == is_endgame(v));
    let endgame = is_endgame(v);
    assert forall|s: int| 0 <= s < 64 implies #[trigger] white_f(m, endgame)(s) == black_f(
        v,
        endgame,
    )(63 - s) by {
        lemma_mirror_index(63 - s);
    }
    lemma_sum_reflected(black_f(v, endgame), white_f(m, endgame));
    assert forall|s: int| 0 <= s < 64 implies #[trigger] black_f(m, endgame)(s) == white_f(
        v,
        endgame,
    )(63 - s) by {
        lemma_mirror_index(63 - s);
    }
    lemma_sum_reflected(white_f(v, endgame), black_f(m, endgame));
}

/// Law: an empty board evaluates to zero, for either side to move.
pub proof fn lemma_eval_empty(v: Seq<u8>, black_to_move: bool)
    requires
        v.len() == 64,
        forall|i: int| 0 <= i < 64 ==> #[trigger] v[i] == 0,
    ensures
        eval_spec(v, black_to_move) == 0,
{
    let endgame = is_endgame(v);
    lemma_sum_zero(white_f(v, endgame), 64);
    lemma_sum_zero(black_f(v, endgame), 64);
}

/// The sums of two term functions agree where the terms do.
pub proof fn lemma_sum_ext(f: spec_fn(int) -> int, g: spec_fn(int) -> int, n: int)
    requires
        forall|s: int| 0 <= s < n ==> #[trigger] f(s) == g(s),
    ensures
        sum_upto(f, n) == sum_upto(g, n),
    decreases n,
{
    if n > 0 {
        lemma_sum_ext(f, g, n - 1);
    }
}

/// Evaluation reads only the 64 square codes: two sequences that agree on
/// them evaluate alike.
pub proof fn lemma_eval_only_squares(v: Seq<u8>, w: Seq<u8>, black_to_move: bool)
    requires
        forall|j: int| 0 <= j < 64 ==> #[trigger] v[j] == w[j],
    ensures
        eval_spec(v, black_to_move) == eval_spec(w, black_to_move),
{
    assert forall|s: int| 0 <= s < 64 implies #[trigger] occ_f(v)(s) == occ_f(w)(s) by {}
    lemma_sum_ext(occ_f(v), occ_f(w), 64);
    let endgame = is_endgame(v);
    assert forall|s: int| 0 <= s < 64 implies #[trigger] white_f(v, endgame)(s) == white_f(
        w,
        endgame,
    )(s) by {}
    lemma_sum_ext(white_f(v, endgame), white_f(w, endgame), 64);
    assert forall|s: int| 0 <= s < 64 implies #[trigger] black_f(v, endgame)(s) == black_f(
        w,
        endgame,
    )(s) by {}
    lemma_sum_ext(black_f(v, endgame), black_f(w, endgame), 64);
}

/// Read the squares of a position out of the rules engine as plain codes.
pub fn board_squares(b: &Board) -> (r: Vec<u8>)
    ensures
        wf_squares(r@),
        forall|j: int| 0 <= j < 64 ==> #[trigger] r@[j] == rules::squares_of(*b)[j],
{
    let mut squares: Vec<u8> = Vec::new();
    let mut i: u8 = 0;
    while i < 64
        invariant
            i <= 64,
            squares@.len() == i as int,
            forall|j: int| 0 <= j < i as int ==> #[trigger] squares@[j] == rules::squares_of(
                *b,
            )[j],
            forall|j: int| 0 <= j < i as int ==> #[trigger] squares@[j] <= 12,
        decreases 64 - i,
    {
        let code = rules::read_square(b, i);
        squares.push(code);
        i = i + 1;
    }
    squares
}

/// Evaluate a position of the rules engine, from the mover's point of view.
pub fn board_eval(b: &Board) -> (r: EvalInt)
    ensures
        r as int == eval_spec(rules::squares_of(*b), rules::mover_of(*b)),
        -1344000 <= r <= 1344000,
{
    let squares = board_squares(b);
    let black = rules::black_to_move(b);
    proof {
        lemma_eval_only_squares(squares@, rules::squares_of(*b), black);
    }
    eval_position(&squares, black)
}

/// How many squares of a position are occupied.
pub fn count_pieces(b: &Board) -> (r: u32)
    ensures
        r as int == occupied_count(rules::squares_of(*b)),
        r <= 64,
{
    let squares = board_squares(b);
    let ghost v = squares@;
    let mut occ: u32 = 0;
    let mut i: usize = 0;
    while i < 64
        invariant
            i <= 64,
            squares@ == v,
            wf_squares(v),
            occ as int == sum_upto(occ_f(v), i as int),
            occ <= i,
        decreases 64 - i,
    {
        if squares[i] != 0 {
            occ = occ + 1;
        }
        i = i + 1;
    }
    proof {
        assert forall|s: int| 0 <= s < 64 implies #[trigger] occ_f(v)(s) == occ_f(
            rules::squares_of(*b),
        )(s) by {}
        lemma_sum_ext(occ_f(v), occ_f(rules::squares_of(*b)), 64);
    }
    occ
}

} // verus!
