//! Game-tree search: negamax with alpha-beta pruning, a capture-only
//! quiescence extension, and a fixed-capacity transposition cache.
//!
//! Scores are always from the point of view of the side to move at the node
//! being scored, so a child's score is negated before it is compared at the
//! parent. Every score the search produces or stores lies strictly above
//! `i32::MIN`, so negating one can never overflow.

use vstd::prelude::*;
use vstd::arithmetic::div_mod::lemma_mod_bound;
use cozy_chess::{Board, Move};
use crate::rules;
use crate::eval::{EvalInt, board_eval, count_pieces, eval_spec, occupied_count};

verus! {

/// The worst score a search can report: a mated side scores this.
pub const EVAL_WORST: EvalInt = -i32::MAX;

/// The best score a search can report.
pub const EVAL_BEST: EvalInt = i32::MAX;

/// The fixed depth of a root search.
pub const SEARCH_DEPTH: usize = 2;

/// How many consecutive check extensions a line may take before a checking
/// reply consumes depth like any other move; the searched value is unchanged
/// unless a line of this many checks in a row arises.
pub const CHECK_EXT: u32 = 64;

/// What one search of a position learned: the move that scored best, its
/// score, and the remaining depth it was searched with.
#[derive(Clone, Copy)]
pub struct TranspositionEntry {
    pub best_move: Move,
    pub eval: EvalInt,
    pub depth: u8,
}

/// A direct-mapped fingerprint-to-entry store. A fingerprint lives in slot
/// `fingerprint mod capacity`; a newer write to the same slot overwrites
/// unconditionally, and a probe re-checks the stored fingerprint so that a
/// slot collision can only cost a recomputation, never return a wrong entry.
pub struct HashTable {
    data: Vec<Option<(u64, TranspositionEntry)>>,
    size: usize,
}

/// A stored score can always be negated.
pub open spec fn slot_ok(s: Option<(u64, TranspositionEntry)>) -> bool {
    match s {
        Some(p) => p.1.eval != i32::MIN,
        None => true,
    }
}

/// The slot a fingerprint maps to.
pub open spec fn spec_slot(cap: int, h: u64) -> int {
    (h as usize) as int % cap
}

/// What a probe of `h` returns from the given slots: the stored entry only
/// when the slot holds exactly this fingerprint.
pub open spec fn spec_probe(
    slots: Seq<Option<(u64, TranspositionEntry)>>,
    cap: int,
    h: u64,
) -> Option<TranspositionEntry> {
    if 1 <= cap && slots.len() == cap {
        match slots[spec_slot(cap, h)] {
            Some(p) => if p.0 == h {
                Some(p.1)
            } else {
                None
            },
            None => None,
        }
    } else {
        None
    }
}

/// The slots after a store of `(h, e)`.
pub open spec fn spec_store(
    slots: Seq<Option<(u64, TranspositionEntry)>>,
    cap: int,
    h: u64,
    e: TranspositionEntry,
) -> Seq<Option<(u64, TranspositionEntry)>> {
    slots.update(spec_slot(cap, h), Some((h, e)))
}

/// A probe result that also satisfies a wanted depth.
pub open spec fn deep_probe(
    slots: Seq<Option<(u64, TranspositionEntry)>>,
    cap: int,
    h: u64,
    depth: int,
) -> Option<TranspositionEntry> {
    match spec_probe(slots, cap, h) {
        Some(e) => if e.depth as int >= depth {
            Some(e)
        } else {
            None
        },
        None => None,
    }
}

/// What quiescence promises of its result: a cached entry's score on a
/// fingerprint hit, and otherwise never less than the static evaluation (the
/// side to move may always stand pat).
pub open spec fn quiesce_result_ok(
    old_slots: Seq<Option<(u64, TranspositionEntry)>>,
    cap: int,
    b: Board,
    r: EvalInt,
) -> bool {
    &&& (spec_probe(old_slots, cap, rules::hash_of(b)) matches Some(e) ==> r == e.eval)
    &&& (spec_probe(old_slots, cap, rules::hash_of(b)) is None ==> r as int >= eval_spec(
        rules::squares_of(b),
        rules::mover_of(b),
    ))
}

/// The table contents, as every model below carries them.
pub type Slots = Seq<Option<(u64, TranspositionEntry)>>;

/// The lower window bound a search starts from: the given alpha, or the
/// worst score when none is given.
pub open spec fn window_lo(alpha: Option<EvalInt>) -> int {
    match alpha {
        Some(a) => a as int,
        None => EVAL_WORST as int,
    }
}

/// The upper window bound: the given beta, or the best score.
pub open spec fn window_hi(beta: Option<EvalInt>) -> int {
    match beta {
        Some(b) => b as int,
        None => EVAL_BEST as int,
    }
}

/// The quiescence budget a position grants: its piece count.
pub open spec fn piece_fuel(b: Board) -> nat {
    if occupied_count(rules::squares_of(b)) >= 0 {
        occupied_count(rules::squares_of(b)) as nat
    } else {
        0
    }
}

/// The table after the best move of a finished node is stored under the
/// position's fingerprint, or unchanged when the node had no move.
pub open spec fn store_best(
    slots: Slots,
    cap: int,
    h: u64,
    bm: Option<Move>,
    score: int,
    d: u8,
) -> Slots {
    match bm {
        Some(m) => spec_store(
            slots,
            cap,
            h,
            (TranspositionEntry { best_move: m, eval: score as i32, depth: d }),
        ),
        None => slots,
    }
}

/// The capture loop of quiescence, from capture `i` on: best score so far,
/// best move so far, the table as the recursion leaves it, and whether a
/// fail-high cutoff ended the loop (in which case nothing is stored). `fuel`
/// is the budget the children get.
pub open spec fn spec_quiesce_loop(
    b: Board,
    caps: Seq<Move>,
    i: int,
    best: int,
    bm: Option<Move>,
    alpha: int,
    beta: int,
    slots: Slots,
    cap: int,
    fuel: nat,
) -> (int, Option<Move>, Slots, bool)
    decreases fuel, caps.len() - i, 1int,
{
    if 0 <= i < caps.len() {
        let child = spec_quiesce(rules::succ_of(b, caps[i]), -beta, -alpha, slots, cap, fuel);
        let cur = -child.0;
        if cur >= beta {
            (cur, bm, child.1, true)
        } else {
            let best2 = if cur > best {
                cur
            } else {
                best
            };
            let bm2 = if cur > best {
                Some(caps[i])
            } else {
                bm
            };
            let alpha2 = if cur > alpha {
                cur
            } else {
                alpha
            };
            spec_quiesce_loop(b, caps, i + 1, best2, bm2, alpha2, beta, child.1, cap, fuel)
        }
    } else {
        (best, bm, slots, false)
    }
}

/// The value the quiescence search computes from a position, a window and a
/// budget, with the table it leaves behind: the cached score on a
/// fingerprint hit (table untouched); otherwise the standing pat when it
/// already fails high (untouched again); and else the capture loop's result,
/// stored under the position's fingerprint at depth zero beside the best
/// move — the first legal move until a capture beats the standing pat —
/// unless a fail-high cutoff ended the loop.
pub open spec fn spec_quiesce(
    b: Board,
    alpha: int,
    beta: int,
    slots: Slots,
    cap: int,
    fuel: nat,
) -> (int, Slots)
    decreases fuel, 0int, 0int,
{
    let stand = eval_spec(rules::squares_of(b), rules::mover_of(b));
    let bm0 = if rules::moves_of(b).len() > 0 {
        Some(rules::moves_of(b)[0])
    } else {
        None::<Move>
    };
    match spec_probe(slots, cap, rules::hash_of(b)) {
        Some(e) => (e.eval as int, slots),
        None => if stand >= beta {
            (stand, slots)
        } else {
            let alpha1 = if stand > alpha {
                stand
            } else {
                alpha
            };
            let outcome = if fuel > 0 {
                spec_quiesce_loop(
                    b,
                    rules::captures_of(b),
                    0,
                    stand,
                    bm0,
                    alpha1,
                    beta,
                    slots,
                    cap,
                    (fuel - 1) as nat,
                )
            } else {
                (stand, bm0, slots, false)
            };
            if outcome.3 {
                (outcome.0, outcome.2)
            } else {
                (outcome.0, store_best(outcome.2, cap, rules::hash_of(b), outcome.1, outcome.0, 0))
            }
        },
    }
}

/// The move loop of negamax, from move `i` on. A move is examined only while
/// the window is open — after any move, a raised alpha meeting beta cuts the
/// remaining siblings off — and the first move is always examined, as the
/// search does. A checking reply is searched at the same depth while the
/// extension budget lasts.
pub open spec fn spec_minmax_loop(
    b: Board,
    moves: Seq<Move>,
    i: int,
    best: int,
    bm: Option<Move>,
    alpha: int,
    beta: int,
    slots: Slots,
    cap: int,
    depth: nat,
    ext: nat,
) -> (int, Option<Move>, Slots)
    decreases depth, ext, moves.len() - i, 1int,
{
    if 0 <= i < moves.len() && depth > 0 && (i == 0 || alpha < beta) {
        let nb = rules::succ_of(b, moves[i]);
        let child = if !rules::in_check_of(nb) {
            spec_minmax(nb, (depth - 1) as nat, -beta, -alpha, slots, cap, CHECK_EXT as nat)
        } else if ext > 0 {
            spec_minmax(nb, depth, -beta, -alpha, slots, cap, (ext - 1) as nat)
        } else {
            spec_minmax(nb, (depth - 1) as nat, -beta, -alpha, slots, cap, CHECK_EXT as nat)
        };
        let score = -child.0;
        let best2 = if score > best {
            score
        } else {
            best
        };
        let bm2 = if score > best {
            Some(moves[i])
        } else {
            bm
        };
        let alpha2 = if alpha < best2 {
            best2
        } else {
            alpha
        };
        spec_minmax_loop(b, moves, i + 1, best2, bm2, alpha2, beta, child.1, cap, depth, ext)
    } else {
        (best, bm, slots)
    }
}

/// The value bounded-depth negamax computes, with the table it leaves:
/// quiescence at depth zero; the cached score on a sufficiently deep hit
/// (table untouched); the worst score on a mate and zero on a draw
/// (untouched again); otherwise the alpha-beta move loop over the legal
/// moves, its best score stored at this depth beside the best move.
pub open spec fn spec_minmax(
    b: Board,
    depth: nat,
    alpha: int,
    beta: int,
    slots: Slots,
    cap: int,
    ext: nat,
) -> (int, Slots)
    decreases depth, ext, rules::moves_of(b).len() + 1, 0int,
{
    if depth == 0 {
        spec_quiesce(b, alpha, beta, slots, cap, piece_fuel(b))
    } else {
        match deep_probe(slots, cap, rules::hash_of(b), depth as int) {
            Some(e) => (e.eval as int, slots),
            None => {
                let moves = rules::moves_of(b);
                let bm0 = if moves.len() > 0 {
                    Some(moves[0])
                } else {
                    None::<Move>
                };
                match rules::status_of(b) {
                    rules::Status::Won => (EVAL_WORST as int, slots),
                    rules::Status::Drawn => (0, slots),
                    rules::Status::Ongoing => {
                        let outcome = spec_minmax_loop(
                            b,
                            moves,
                            0,
                            EVAL_WORST as int,
                            bm0,
                            alpha,
                            beta,
                            slots,
                            cap,
                            depth,
                            ext,
                        );
                        (
                            outcome.0,
                            store_best(
                                outcome.2,
                                cap,
                                rules::hash_of(b),
                                outcome.1,
                                outcome.0,
                                depth as u8,
                            ),
                        )
                    },
                }
            },
        }
    }
}

/// The root loop: every legal move searched at the fixed depth with the full
/// window, the strictly greatest negated score kept, so the earliest
/// maximizer wins a tie.
pub open spec fn spec_search_loop(
    b: Board,
    moves: Seq<Move>,
    i: int,
    best: int,
    bm: Option<Move>,
    slots: Slots,
    cap: int,
) -> (int, Option<Move>, Slots)
    decreases moves.len() - i,
{
    if 0 <= i < moves.len() {
        let child = spec_minmax(
            rules::succ_of(b, moves[i]),
            SEARCH_DEPTH as nat,
            EVAL_WORST as int,
            EVAL_BEST as int,
            slots,
            cap,
            CHECK_EXT as nat,
        );
        let score = -child.0;
        let best2 = if score > best {
            score
        } else {
            best
        };
        let bm2 = if score > best {
            Some(moves[i])
        } else {
            bm
        };
        spec_search_loop(b, moves, i + 1, best2, bm2, child.1, cap)
    } else {
        (best, bm, slots)
    }
}

/// What root selection computes: on a sufficiently deep cached hit, the
/// stored score and move with the table untouched; otherwise the root loop's
/// best score and earliest best move, stored at the fixed depth — or no move
/// and an untouched table when the position has none.
pub open spec fn spec_search(b: Board, slots: Slots, cap: int) -> (int, Option<Move>, Slots) {
    match deep_probe(slots, cap, rules::hash_of(b), SEARCH_DEPTH as int) {
        Some(e) => (e.eval as int, Some(e.best_move), slots),
        None => {
            let moves = rules::moves_of(b);
            let bm0 = if moves.len() > 0 {
                Some(moves[0])
            } else {
                None::<Move>
            };
            let outcome = spec_search_loop(b, moves, 0, EVAL_WORST as int, bm0, slots, cap);
            (
                outcome.0,
                outcome.1,
                store_best(
                    outcome.2,
                    cap,
                    rules::hash_of(b),
                    outcome.1,
                    outcome.0,
                    SEARCH_DEPTH as u8,
                ),
            )
        },
    }
}

pub proof fn lemma_slot_in_range(cap: int, h: u64)
    requires
        cap >= 1,
    ensures
        0 <= spec_slot(cap, h) < cap,
{
    lemma_mod_bound((h as usize) as int, cap);
}

/// Law: after a store of fingerprint `f`, a probe of `f` returns exactly the
/// stored entry; it still does after a later store whose fingerprint maps to
/// a different slot, and a later store of a different fingerprint onto the
/// same slot evicts the entry.
pub proof fn lemma_cache_correctness(
    slots: Seq<Option<(u64, TranspositionEntry)>>,
    cap: int,
    f: u64,
    e: TranspositionEntry,
    g: u64,
    e2: TranspositionEntry,
)
    requires
        cap >= 1,
        slots.len() == cap,
    ensures
        spec_probe(spec_store(slots, cap, f, e), cap, f) == Some(e),
        spec_slot(cap, g) != spec_slot(cap, f) ==> spec_probe(
            spec_store(spec_store(slots, cap, f, e), cap, g, e2),
            cap,
            f,
        ) == Some(e),
        g != f && spec_slot(cap, g) == spec_slot(cap, f) ==> spec_probe(
            spec_store(spec_store(slots, cap, f, e), cap, g, e2),
            cap,
            f,
        ) is None,
{
    lemma_slot_in_range(cap, f);
    lemma_slot_in_range(cap, g);
}

/// Relies on core::mem::size_of: the byte size of a cache slot, a tuple
/// holding a u64 fingerprint beside an optional entry. The u64 field alone
/// takes 8 bytes, and the entry — a move of two one-byte squares and an
/// optional piece, an i32 score and a u8 depth, with alignment padding and an
/// Option discriminant — leaves the whole tuple nowhere near 512 bytes.
#[verifier::external_body]
fn slot_bytes() -> (r: usize)
    ensures
        8 <= r <= 512,
{
    core::mem::size_of::<(u64, Option<TranspositionEntry>)>()
}

/// How many cache slots fit in a memory budget of `mib` mebibytes: the
/// budget in bytes divided by the byte size of one slot.
pub fn mib_to_n(mib: usize) -> (r: usize)
    requires
        mib * 0x100000 <= usize::MAX,
    ensures
        8 * r <= mib * 0x100000,
        exists|slot: int| 8 <= slot <= 512 && r == #[trigger] ((mib * 0x100000) as int / slot),
        mib >= 1 ==> r >= 2048,
{
    let bytes = mib * 0x100000;
    let entry_size = slot_bytes();
    let r = bytes / entry_size;
    proof {
        assert(r == bytes as int / entry_size as int);
        assert(r * entry_size <= bytes && 8 * r <= r * entry_size) by (nonlinear_arith)
            requires
                entry_size >= 8,
                r >= 0,
                bytes >= 0,
                r == bytes as int / entry_size as int,
        ;
        if mib >= 1 {
            vstd::arithmetic::div_mod::lemma_fundamental_div_mod(
                bytes as int,
                entry_size as int,
            );
            lemma_mod_bound(bytes as int, entry_size as int);
            assert(r >= 2048) by (nonlinear_arith)
                requires
                    8 <= entry_size <= 512,
                    bytes >= 0x100000,
                    r >= 0,
                    bytes as int == entry_size as int * (r as int) + bytes as int % (
                    entry_size as int),
                    0 <= bytes as int % (entry_size as int) < entry_size as int,
            ;
        }
    }
    r
}

impl HashTable {
    pub closed spec fn slots(self) -> Seq<Option<(u64, TranspositionEntry)>> {
        self.data@
    }

    pub closed spec fn capacity(self) -> int {
        self.size as int
    }

    pub open spec fn wf(self) -> bool {
        &&& self.capacity() >= 1
        &&& self.slots().len() == self.capacity()
        &&& forall|i: int| 0 <= i < self.slots().len() ==> slot_ok(#[trigger] self.slots()[i])
    }

    /// A table sized from a memory budget in mebibytes, always usable: a
    /// degenerate budget still gives one slot.
    pub fn new(size_mib: usize) -> (r: Self)
        requires
            size_mib * 0x100000 <= usize::MAX,
        ensures
            r.wf(),
            forall|i: int| 0 <= i < r.slots().len() ==> #[trigger] r.slots()[i] is None,
            size_mib >= 1 ==> 8 * r.capacity() <= size_mib * 0x100000,
    {
        let n = mib_to_n(size_mib);
        let size = if n == 0 {
            1
        } else {
            n
        };
        Self::new_n(size)
    }

    /// A table of exactly `size` empty slots.
    pub fn new_n(size: usize) -> (r: Self)
        ensures
            r.capacity() == size,
            r.slots().len() == size,
            forall|i: int| 0 <= i < r.slots().len() ==> #[trigger] r.slots()[i] is None,
            size >= 1 ==> r.wf(),
    {
        let mut data: Vec<Option<(u64, TranspositionEntry)>> = Vec::new();
        let mut i: usize = 0;
        while i < size
            invariant
                i <= size,
                data@.len() == i as int,
                forall|j: int| 0 <= j < i as int ==> #[trigger] data@[j] is None,
            decreases size - i,
        {
            data.push(None);
            i = i + 1;
        }
        HashTable { data, size }
    }

    /// The slot a fingerprint maps to.
    pub fn trunc_hash(&self, hash: u64) -> (r: usize)
        requires
            self.capacity() >= 1,
        ensures
            r as int == spec_slot(self.capacity(), hash),
            r < self.capacity(),
    {
        (hash as usize) % self.size
    }

    /// Look the position's fingerprint up; an entry comes back only if the
    /// slot holds exactly this fingerprint.
    pub fn probe(&self, board: &Board) -> (r: Option<TranspositionEntry>)
        requires
            self.wf(),
        ensures
            r == spec_probe(self.slots(), self.capacity(), rules::hash_of(*board)),
            r matches Some(e) ==> e.eval != i32::MIN,
    {
        let hash = rules::position_hash(board);
        let idx = self.trunc_hash(hash);
        match &self.data[idx] {
            Some(p) => {
                if p.0 == hash {
                    Some(p.1)
                } else {
                    None
                }
            },
            None => None,
        }
    }

    /// Overwrite the slot of the position's fingerprint unconditionally.
    pub fn set(&mut self, board: &Board, entry: TranspositionEntry)
        requires
            old(self).wf(),
            entry.eval != i32::MIN,
        ensures
            final(self).wf(),
            final(self).capacity() == old(self).capacity(),
            final(self).slots() == spec_store(
                old(self).slots(),
                old(self).capacity(),
                rules::hash_of(*board),
                entry,
            ),
    {
        let hash = rules::position_hash(board);
        let idx = self.trunc_hash(hash);
        self.data[idx] = Some((hash, entry));
    }
}

impl Default for HashTable {
    /// A table sized from a budget of eight mebibytes.
    fn default() -> (r: Self)
        ensures
            r.wf(),
            forall|i: int| 0 <= i < r.slots().len() ==> #[trigger] r.slots()[i] is None,
    {
        Self::new(8)
    }
}

/// Quiescence search: keep searching capturing moves only, with the static
/// evaluation as the standing-pat floor, so a side is never scored in the
/// middle of an unresolved exchange. `fuel` bounds the recursion; each
/// capture removes a piece, so the piece count of the root position suffices.
fn quiesce_inner(
    board: &Board,
    alpha: Option<EvalInt>,
    beta: Option<EvalInt>,
    table: &mut HashTable,
    fuel: u32,
) -> (r: EvalInt)
    requires
        old(table).wf(),
        alpha matches Some(a) ==> a != i32::MIN,
        beta matches Some(b) ==> b != i32::MIN,
    ensures
        final(table).wf(),
        final(table).capacity() == old(table).capacity(),
        r != i32::MIN,
        quiesce_result_ok(old(table).slots(), old(table).capacity(), *board, r),
        spec_probe(old(table).slots(), old(table).capacity(), rules::hash_of(*board)) is Some
            ==> final(table).slots() == old(table).slots(),
        r as int == spec_quiesce(
            *board,
            window_lo(alpha),
            window_hi(beta),
            old(table).slots(),
            old(table).capacity(),
            fuel as nat,
        ).0,
        final(table).slots() == spec_quiesce(
            *board,
            window_lo(alpha),
            window_hi(beta),
            old(table).slots(),
            old(table).capacity(),
            fuel as nat,
        ).1,
        spec_probe(old(table).slots(), old(table).capacity(), rules::hash_of(*board)) is None
            && rules::captures_of(*board).len() == 0 ==> r as int == eval_spec(
            rules::squares_of(*board),
            rules::mover_of(*board),
        ),
        spec_probe(old(table).slots(), old(table).capacity(), rules::hash_of(*board)) is None
            && eval_spec(rules::squares_of(*board), rules::mover_of(*board)) >= window_hi(beta)
            ==> r as int == eval_spec(rules::squares_of(*board), rules::mover_of(*board))
            && final(table).slots() == old(table).slots(),
    decreases fuel,
{
    let ghost cap: int = old(table).capacity();
    let ghost h: u64 = rules::hash_of(*board);
    let ghost m0: (int, Slots) = spec_quiesce(
        *board,
        window_lo(alpha),
        window_hi(beta),
        old(table).slots(),
        cap,
        fuel as nat,
    );

    let static_eval = board_eval(board);
    let mut best_value = static_eval;
    let move_list = rules::legal_moves(board);
    let mut best_mv: Option<Move> = if move_list.len() > 0 {
        Some(move_list[0].clone())
    } else {
        None
    };

    let mut alpha_v = match alpha {
        Some(a) => a,
        None => EVAL_WORST,
    };
    let beta_v = match beta {
        Some(b) => b,
        None => EVAL_BEST,
    };

    // Any cached entry answers a quiescence query: quiescence asks for no
    // remaining depth, and every entry was searched with at least that.
    if let Some(entry) = table.probe(board) {
        return entry.eval;
    }

    if best_value >= beta_v {
        return best_value;
    }
    if best_value > alpha_v {
        alpha_v = best_value;
    }

    let captures = rules::capture_moves(board);
    let ghost outcome: (int, Option<Move>, Slots, bool) = if fuel > 0 {
        spec_quiesce_loop(
            *board,
            captures@,
            0,
            static_eval as int,
            best_mv,
            alpha_v as int,
            beta_v as int,
            old(table).slots(),
            cap,
            (fuel - 1) as nat,
        )
    } else {
        (static_eval as int, best_mv, old(table).slots(), false)
    };
    proof {
        if outcome.3 {
            assert(m0 == (outcome.0, outcome.2));
        } else {
            assert(m0 == (outcome.0, store_best(outcome.2, cap, h, outcome.1, outcome.0, 0)));
        }
    }
    if fuel > 0 {
        let mut i: usize = 0;
        while i < captures.len()
            invariant
                table.wf(),
                table.capacity() == old(table).capacity(),
                cap == old(table).capacity(),
                h == rules::hash_of(*board),
                i <= captures@.len(),
                captures@ == rules::captures_of(*board),
                forall|k: int| 0 <= k < captures@.len() ==> rules::moves_of(*board).contains(
                    #[trigger] captures@[k],
                ),
                fuel > 0,
                best_value != i32::MIN,
                alpha_v != i32::MIN,
                beta_v != i32::MIN,
                static_eval as int == eval_spec(rules::squares_of(*board), rules::mover_of(*board)),
                best_value >= static_eval,
                static_eval < beta_v,
                spec_probe(old(table).slots(), old(table).capacity(), rules::hash_of(*board))
                    is None,
                m0 == spec_quiesce(
                    *board,
                    window_lo(alpha),
                    window_hi(beta),
                    old(table).slots(),
                    cap,
                    fuel as nat,
                ),
                outcome.3 ==> m0 == (outcome.0, outcome.2),
                !outcome.3 ==> m0 == (
                    outcome.0,
                    store_best(outcome.2, cap, h, outcome.1, outcome.0, 0),
                ),
                spec_quiesce_loop(
                    *board,
                    captures@,
                    i as int,
                    best_value as int,
                    best_mv,
                    alpha_v as int,
                    beta_v as int,
                    table.slots(),
                    cap,
                    (fuel - 1) as nat,
                ) == outcome,
            decreases captures@.len() - i,
        {
            let ghost b0: int = best_value as int;
            let ghost bm_s: Option<Move> = best_mv;
            let ghost a0: int = alpha_v as int;
            let ghost s_i: Slots = table.slots();

            let mv = captures[i].clone();
            let next = rules::play_move(board, mv.clone());
            let child = quiesce_inner(&next, Some(-beta_v), Some(-alpha_v), table, fuel - 1);
            let cur_score = -child;
            proof {
                assert(spec_quiesce(
                    rules::succ_of(*board, captures@[i as int]),
                    -(beta_v as int),
                    -a0,
                    s_i,
                    cap,
                    (fuel - 1) as nat,
                ) == (child as int, table.slots()));
            }

            if cur_score >= beta_v {
                proof {
                    assert(spec_quiesce_loop(
                        *board,
                        captures@,
                        i as int,
                        b0,
                        bm_s,
                        a0,
                        beta_v as int,
                        s_i,
                        cap,
                        (fuel - 1) as nat,
                    ) == (cur_score as int, bm_s, table.slots(), true));
                }
                return cur_score;
            }
            if cur_score > best_value {
                best_mv = Some(mv);
                best_value = cur_score;
            }
            if cur_score > alpha_v {
                alpha_v = cur_score;
            }
            proof {
                assert(spec_quiesce_loop(
                    *board,
                    captures@,
                    i as int,
                    b0,
                    bm_s,
                    a0,
                    beta_v as int,
                    s_i,
                    cap,
                    (fuel - 1) as nat,
                ) == spec_quiesce_loop(
                    *board,
                    captures@,
                    i as int + 1,
                    best_value as int,
                    best_mv,
                    alpha_v as int,
                    beta_v as int,
                    table.slots(),
                    cap,
                    (fuel - 1) as nat,
                ));
            }
            i = i + 1;
        }
    }
    proof {
        assert(outcome == (best_value as int, best_mv, table.slots(), false));
    }
    if let Some(m) = best_mv {
        table.set(
            board,
            TranspositionEntry { best_move: m, eval: best_value, depth: 0 },
        );
        proof {
            lemma_slot_in_range(table.capacity(), h);
        }
    }
    best_value
}

/// Quiescence search from a position, with the recursion budgeted by the
/// position's piece count.
pub fn quiesce(
    board: &Board,
    alpha: Option<EvalInt>,
    beta: Option<EvalInt>,
    table: &mut HashTable,
) -> (r: EvalInt)
    requires
        old(table).wf(),
        alpha matches Some(a) ==> a != i32::MIN,
        beta matches Some(b) ==> b != i32::MIN,
    ensures
        final(table).wf(),
        final(table).capacity() == old(table).capacity(),
        r != i32::MIN,
        quiesce_result_ok(old(table).slots(), old(table).capacity(), *board, r),
        spec_probe(old(table).slots(), old(table).capacity(), rules::hash_of(*board)) is Some
            ==> final(table).slots() == old(table).slots(),
        r as int == spec_quiesce(
            *board,
            window_lo(alpha),
            window_hi(beta),
            old(table).slots(),
            old(table).capacity(),
            piece_fuel(*board),
        ).0,
        final(table).slots() == spec_quiesce(
            *board,
            window_lo(alpha),
            window_hi(beta),
            old(table).slots(),
            old(table).capacity(),
            piece_fuel(*board),
        ).1,
        spec_probe(old(table).slots(), old(table).capacity(), rules::hash_of(*board)) is None
            && rules::captures_of(*board).len() == 0 ==> r as int == eval_spec(
            rules::squares_of(*board),
            rules::mover_of(*board),
        ),
        spec_probe(old(table).slots(), old(table).capacity(), rules::hash_of(*board)) is None
            && eval_spec(rules::squares_of(*board), rules::mover_of(*board)) >= window_hi(beta)
            ==> r as int == eval_spec(rules::squares_of(*board), rules::mover_of(*board))
            && final(table).slots() == old(table).slots(),
{
    let fuel = count_pieces(board);
    proof {
        assert(fuel as nat == piece_fuel(*board));
    }
    quiesce_inner(board, alpha, beta, table, fuel)
}

/// Bounded-depth negamax with alpha-beta pruning. A cached entry answers the
/// query when it was searched at least this deep; a mate scores `EVAL_WORST`
/// and a draw zero; at depth zero the position is handed to quiescence. A
/// reply that gives check is searched without consuming depth, up to `ext`
/// consecutive extensions.
fn minmax_inner(
    board: &Board,
    depth: usize,
    alpha: Option<EvalInt>,
    beta: Option<EvalInt>,
    table: &mut HashTable,
    ext: u32,
) -> (r: EvalInt)
    requires
        old(table).wf(),
        depth <= 255,
        alpha matches Some(a) ==> a != i32::MIN,
        beta matches Some(b) ==> b != i32::MIN,
    ensures
        final(table).wf(),
        final(table).capacity() == old(table).capacity(),
        r != i32::MIN,
        depth == 0 ==> quiesce_result_ok(old(table).slots(), old(table).capacity(), *board, r),
        depth >= 1 ==> (deep_probe(
            old(table).slots(),
            old(table).capacity(),
            rules::hash_of(*board),
            depth as int,
        ) matches Some(e) ==> r == e.eval && final(table).slots() == old(table).slots()),
        depth >= 1 && deep_probe(
            old(table).slots(),
            old(table).capacity(),
            rules::hash_of(*board),
            depth as int,
        ) is None && rules::status_of(*board) == rules::Status::Won ==> r == EVAL_WORST
            && final(table).slots() == old(table).slots(),
        depth >= 1 && deep_probe(
            old(table).slots(),
            old(table).capacity(),
            rules::hash_of(*board),
            depth as int,
        ) is None && rules::status_of(*board) == rules::Status::Drawn ==> r == 0
            && final(table).slots() == old(table).slots(),
        depth >= 1 && deep_probe(
            old(table).slots(),
            old(table).capacity(),
            rules::hash_of(*board),
            depth as int,
        ) is None && rules::status_of(*board) == rules::Status::Ongoing && rules::moves_of(
            *board,
        ).len() > 0 ==> (spec_probe(
            final(table).slots(),
            final(table).capacity(),
            rules::hash_of(*board),
        ) matches Some(e2) && e2.eval == r && e2.depth as int == depth && rules::moves_of(
            *board,
        ).contains(e2.best_move)),
        r as int == spec_minmax(
            *board,
            depth as nat,
            window_lo(alpha),
            window_hi(beta),
            old(table).slots(),
            old(table).capacity(),
            ext as nat,
        ).0,
        final(table).slots() == spec_minmax(
            *board,
            depth as nat,
            window_lo(alpha),
            window_hi(beta),
            old(table).slots(),
            old(table).capacity(),
            ext as nat,
        ).1,
    decreases depth, ext,
{
    let ghost cap: int = old(table).capacity();
    let ghost h: u64 = rules::hash_of(*board);
    let ghost m0: (int, Slots) = spec_minmax(
        *board,
        depth as nat,
        window_lo(alpha),
        window_hi(beta),
        old(table).slots(),
        cap,
        ext as nat,
    );

    if depth == 0 {
        return quiesce(board, alpha, beta, table);
    }

    if let Some(entry) = table.probe(board) {
        if entry.depth as usize >= depth {
            return entry.eval;
        }
    }

    let mut alpha_v = match alpha {
        Some(a) => a,
        None => EVAL_WORST,
    };
    let beta_v = match beta {
        Some(b) => b,
        None => EVAL_BEST,
    };

    let move_list = rules::legal_moves(board);
    let mut abs_best = EVAL_WORST;
    let mut best_mv: Option<Move> = if move_list.len() > 0 {
        Some(move_list[0].clone())
    } else {
        None
    };

    match rules::game_status(board) {
        rules::Status::Won => {
            return EVAL_WORST;
        },
        rules::Status::Drawn => {
            return 0;
        },
        rules::Status::Ongoing => {},
    }

    let ghost outcome: (int, Option<Move>, Slots) = spec_minmax_loop(
        *board,
        move_list@,
        0,
        EVAL_WORST as int,
        best_mv,
        alpha_v as int,
        beta_v as int,
        old(table).slots(),
        cap,
        depth as nat,
        ext as nat,
    );
    proof {
        assert(m0 == (outcome.0, store_best(outcome.2, cap, h, outcome.1, outcome.0, depth as u8)));
    }

    let mut i: usize = 0;
    let mut cut: bool = false;
    while i < move_list.len() && !cut
        invariant
            table.wf(),
            table.capacity() == old(table).capacity(),
            i <= move_list@.len(),
            move_list@ == rules::moves_of(*board),
            1 <= depth <= 255,
            abs_best != i32::MIN,
            alpha_v != i32::MIN,
            beta_v != i32::MIN,
            deep_probe(
                old(table).slots(),
                old(table).capacity(),
                rules::hash_of(*board),
                depth as int,
            ) is None,
            rules::status_of(*board) == rules::Status::Ongoing,
            best_mv is Some <==> move_list@.len() > 0,
            best_mv matches Some(m) ==> rules::moves_of(*board).contains(m),
            cap == old(table).capacity(),
            h == rules::hash_of(*board),
            m0 == spec_minmax(
                *board,
                depth as nat,
                window_lo(alpha),
                window_hi(beta),
                old(table).slots(),
                cap,
                ext as nat,
            ),
            m0 == (outcome.0, store_best(outcome.2, cap, h, outcome.1, outcome.0, depth as u8)),
            !cut ==> (i == 0 || alpha_v < beta_v),
            !cut ==> spec_minmax_loop(
                *board,
                move_list@,
                i as int,
                abs_best as int,
                best_mv,
                alpha_v as int,
                beta_v as int,
                table.slots(),
                cap,
                depth as nat,
                ext as nat,
            ) == outcome,
            cut ==> outcome == (abs_best as int, best_mv, table.slots()),
        decreases move_list@.len() - i,
    {
        let ghost b0: int = abs_best as int;
        let ghost bm_s: Option<Move> = best_mv;
        let ghost a0: int = alpha_v as int;
        let ghost s_i: Slots = table.slots();

        let mv = move_list[i].clone();
        proof {
            assert(rules::moves_of(*board)[i as int] == move_list@[i as int]);
        }
        let next = rules::play_move(board, mv.clone());
        let child = if !rules::in_check(&next) {
            minmax_inner(&next, depth - 1, Some(-beta_v), Some(-alpha_v), table, CHECK_EXT)
        } else if ext > 0 {
            minmax_inner(&next, depth, Some(-beta_v), Some(-alpha_v), table, ext - 1)
        } else {
            minmax_inner(&next, depth - 1, Some(-beta_v), Some(-alpha_v), table, CHECK_EXT)
        };
        let abs_score = -child;
        if abs_score > abs_best {
            abs_best = abs_score;
            best_mv = Some(mv);
        }
        if alpha_v < abs_best {
            alpha_v = abs_best;
        }
        proof {
            assert(spec_minmax_loop(
                *board,
                move_list@,
                i as int,
                b0,
                bm_s,
                a0,
                beta_v as int,
                s_i,
                cap,
                depth as nat,
                ext as nat,
            ) == spec_minmax_loop(
                *board,
                move_list@,
                i as int + 1,
                abs_best as int,
                best_mv,
                alpha_v as int,
                beta_v as int,
                table.slots(),
                cap,
                depth as nat,
                ext as nat,
            ));
        }
        i = i + 1;
        if alpha_v >= beta_v {
            cut = true;
            proof {
                assert(spec_minmax_loop(
                    *board,
                    move_list@,
                    i as int,
                    abs_best as int,
                    best_mv,
                    alpha_v as int,
                    beta_v as int,
                    table.slots(),
                    cap,
                    depth as nat,
                    ext as nat,
                ) == (abs_best as int, best_mv, table.slots()));
            }
        }
    }

    proof {
        if !cut {
            assert(spec_minmax_loop(
                *board,
                move_list@,
                i as int,
                abs_best as int,
                best_mv,
                alpha_v as int,
                beta_v as int,
                table.slots(),
                cap,
                depth as nat,
                ext as nat,
            ) == (abs_best as int, best_mv, table.slots()));
        }
        assert(outcome == (abs_best as int, best_mv, table.slots()));
    }
    if let Some(m) = best_mv {
        table.set(
            board,
            TranspositionEntry { best_move: m, eval: abs_best, depth: depth as u8 },
        );
        proof {
            lemma_slot_in_range(table.capacity(), rules::hash_of(*board));
        }
    }
    abs_best
}

/// Bounded-depth negamax search of a position.
pub fn minmax(
    board: &Board,
    depth: usize,
    alpha: Option<EvalInt>,
    beta: Option<EvalInt>,
    table: &mut HashTable,
) -> (r: EvalInt)
    requires
        old(table).wf(),
        depth <= 255,
        alpha matches Some(a) ==> a != i32::MIN,
        beta matches Some(b) ==> b != i32::MIN,
    ensures
        final(table).wf(),
        final(table).capacity() == old(table).capacity(),
        r != i32::MIN,
        depth == 0 ==> quiesce_result_ok(old(table).slots(), old(table).capacity(), *board, r),
        depth >= 1 ==> (deep_probe(
            old(table).slots(),
            old(table).capacity(),
            rules::hash_of(*board),
            depth as int,
        ) matches Some(e) ==> r == e.eval && final(table).slots() == old(table).slots()),
        depth >= 1 && deep_probe(
            old(table).slots(),
            old(table).capacity(),
            rules::hash_of(*board),
            depth as int,
        ) is None && rules::status_of(*board) == rules::Status::Won ==> r == EVAL_WORST
            && final(table).slots() == old(table).slots(),
        depth >= 1 && deep_probe(
            old(table).slots(),
            old(table).capacity(),
            rules::hash_of(*board),
            depth as int,
        ) is None && rules::status_of(*board) == rules::Status::Drawn ==> r == 0
            && final(table).slots() == old(table).slots(),
        depth >= 1 && deep_probe(
            old(table).slots(),
            old(table).capacity(),
            rules::hash_of(*board),
            depth as int,
        ) is None && rules::status_of(*board) == rules::Status::Ongoing && rules::moves_of(
            *board,
        ).len() > 0 ==> (spec_probe(
            final(table).slots(),
            final(table).capacity(),
            rules::hash_of(*board),
        ) matches Some(e2) && e2.eval == r && e2.depth as int == depth && rules::moves_of(
            *board,
        ).contains(e2.best_move)),
        r as int == spec_minmax(
            *board,
            depth as nat,
            window_lo(alpha),
            window_hi(beta),
            old(table).slots(),
            old(table).capacity(),
            CHECK_EXT as nat,
        ).0,
        final(table).slots() == spec_minmax(
            *board,
            depth as nat,
            window_lo(alpha),
            window_hi(beta),
            old(table).slots(),
            old(table).capacity(),
            CHECK_EXT as nat,
        ).1,
{
    minmax_inner(board, depth, alpha, beta, table, CHECK_EXT)
}

/// Root selection: search every legal move at the fixed depth and keep the
/// one whose negated child score is strictly greatest, so ties keep the
/// earliest move the rules engine enumerated. A sufficiently deep cached
/// entry answers at once. `None` exactly when the position has no legal move
/// (and no such entry).
fn search(board: &Board, table: &mut HashTable) -> (r: Option<Move>)
    requires
        old(table).wf(),
    ensures
        final(table).wf(),
        final(table).capacity() == old(table).capacity(),
        deep_probe(
            old(table).slots(),
            old(table).capacity(),
            rules::hash_of(*board),
            SEARCH_DEPTH as int,
        ) matches Some(e) ==> r == Some(e.best_move) && final(table).slots() == old(
            table,
        ).slots(),
        deep_probe(
            old(table).slots(),
            old(table).capacity(),
            rules::hash_of(*board),
            SEARCH_DEPTH as int,
        ) is None ==> (r is Some <==> rules::moves_of(*board).len() > 0),
        r == spec_search(*board, old(table).slots(), old(table).capacity()).1,
        final(table).slots() == spec_search(*board, old(table).slots(), old(table).capacity()).2,
        r matches Some(m) ==> (deep_probe(
            old(table).slots(),
            old(table).capacity(),
            rules::hash_of(*board),
            SEARCH_DEPTH as int,
        ) is None ==> rules::moves_of(*board).contains(m)),
        deep_probe(
            old(table).slots(),
            old(table).capacity(),
            rules::hash_of(*board),
            SEARCH_DEPTH as int,
        ) is None && rules::moves_of(*board).len() == 0 ==> final(table).slots() == old(
            table,
        ).slots(),
        r matches Some(m) ==> (deep_probe(
            old(table).slots(),
            old(table).capacity(),
            rules::hash_of(*board),
            SEARCH_DEPTH as int,
        ) is None ==> (spec_probe(
            final(table).slots(),
            final(table).capacity(),
            rules::hash_of(*board),
        ) matches Some(e2) && e2.best_move == m && e2.depth as int == SEARCH_DEPTH
            && e2.eval as int == spec_search(*board, old(table).slots(), old(table).capacity()).0)),
{
    let ghost cap: int = old(table).capacity();
    let ghost h: u64 = rules::hash_of(*board);
    let ghost m0: (int, Option<Move>, Slots) = spec_search(*board, old(table).slots(), cap);

    let move_list = rules::legal_moves(board);
    let mut best_eval = EVAL_WORST;
    let mut best_mv: Option<Move> = if move_list.len() > 0 {
        proof {
            assert(rules::moves_of(*board)[0] == move_list@[0]);
        }
        Some(move_list[0].clone())
    } else {
        None
    };

    if let Some(entry) = table.probe(board) {
        if entry.depth as usize >= SEARCH_DEPTH {
            return Some(entry.best_move);
        }
    }

    let ghost outcome: (int, Option<Move>, Slots) = spec_search_loop(
        *board,
        move_list@,
        0,
        EVAL_WORST as int,
        best_mv,
        old(table).slots(),
        cap,
    );
    proof {
        assert(m0 == (
            outcome.0,
            outcome.1,
            store_best(outcome.2, cap, h, outcome.1, outcome.0, SEARCH_DEPTH as u8),
        ));
    }

    let mut i: usize = 0;
    while i < move_list.len()
        invariant
            table.wf(),
            table.capacity() == old(table).capacity(),
            cap == old(table).capacity(),
            h == rules::hash_of(*board),
            i <= move_list@.len(),
            move_list@ == rules::moves_of(*board),
            best_eval != i32::MIN,
            best_mv is Some <==> move_list@.len() > 0,
            best_mv matches Some(m) ==> rules::moves_of(*board).contains(m),
            deep_probe(
                old(table).slots(),
                old(table).capacity(),
                rules::hash_of(*board),
                SEARCH_DEPTH as int,
            ) is None,
            move_list@.len() == 0 ==> table.slots() == old(table).slots(),
            m0 == spec_search(*board, old(table).slots(), cap),
            m0 == (
                outcome.0,
                outcome.1,
                store_best(outcome.2, cap, h, outcome.1, outcome.0, SEARCH_DEPTH as u8),
            ),
            spec_search_loop(
                *board,
                move_list@,
                i as int,
                best_eval as int,
                best_mv,
                table.slots(),
                cap,
            ) == outcome,
        decreases move_list@.len() - i,
    {
        let ghost b0: int = best_eval as int;
        let ghost bm_s: Option<Move> = best_mv;
        let ghost s_i: Slots = table.slots();

        let mv = move_list[i].clone();
        proof {
            assert(rules::moves_of(*board)[i as int] == move_list@[i as int]);
        }
        let next = rules::play_move(board, mv.clone());
        let val = minmax_inner(&next, SEARCH_DEPTH, None, None, table, CHECK_EXT);
        proof {
            assert(spec_minmax(
                rules::succ_of(*board, move_list@[i as int]),
                SEARCH_DEPTH as nat,
                EVAL_WORST as int,
                EVAL_BEST as int,
                s_i,
                cap,
                CHECK_EXT as nat,
            ) == (val as int, table.slots()));
        }
        let abs_eval = -val;
        if abs_eval > best_eval {
            best_eval = abs_eval;
            best_mv = Some(mv);
        }
        proof {
            assert(spec_search_loop(*board, move_list@, i as int, b0, bm_s, s_i, cap)
                == spec_search_loop(
                *board,
                move_list@,
                i as int + 1,
                best_eval as int,
                best_mv,
                table.slots(),
                cap,
            ));
        }
        i = i + 1;
    }

    proof {
        assert(outcome == (best_eval as int, best_mv, table.slots()));
    }
    match best_mv {
        Some(m) => {
            table.set(
                board,
                TranspositionEntry {
                    best_move: m.clone(),
                    eval: best_eval,
                    depth: SEARCH_DEPTH as u8,
                },
            );
            proof {
                lemma_slot_in_range(table.capacity(), rules::hash_of(*board));
            }
            Some(m)
        },
        None => None,
    }
}

/// Find the best move of a position that has a legal move.
pub fn best_move(board: &Board, table: &mut HashTable) -> (r: Move)
    requires
        old(table).wf(),
        rules::moves_of(*board).len() > 0,
    ensures
        final(table).wf(),
        final(table).capacity() == old(table).capacity(),
        deep_probe(
            old(table).slots(),
            old(table).capacity(),
            rules::hash_of(*board),
            SEARCH_DEPTH as int,
        ) matches Some(e) ==> r == e.best_move && final(table).slots() == old(table).slots(),
        deep_probe(
            old(table).slots(),
            old(table).capacity(),
            rules::hash_of(*board),
            SEARCH_DEPTH as int,
        ) is None ==> rules::moves_of(*board).contains(r),
        deep_probe(
            old(table).slots(),
            old(table).capacity(),
            rules::hash_of(*board),
            SEARCH_DEPTH as int,
        ) is None ==> (spec_probe(
            final(table).slots(),
            final(table).capacity(),
            rules::hash_of(*board),
        ) matches Some(e2) && e2.best_move == r && e2.depth as int == SEARCH_DEPTH
            && e2.eval as int == spec_search(*board, old(table).slots(), old(table).capacity()).0),
        Some(r) == spec_search(*board, old(table).slots(), old(table).capacity()).1,
        final(table).slots() == spec_search(*board, old(table).slots(), old(table).capacity()).2,
{
    match search(board, table) {
        Some(m) => m,
        None => vstd::pervasive::unreached(),
    }
}

/// Root selection with the terminal case signalled explicitly: `None`
/// exactly when the position has no legal move, so a caller need not know
/// beforehand whether the game is over.
pub fn choose_move(board: &Board, table: &mut HashTable) -> (r: Option<Move>)
    requires
        old(table).wf(),
    ensures
        final(table).wf(),
        final(table).capacity() == old(table).capacity(),
        r is None <==> rules::moves_of(*board).len() == 0,
        r matches Some(m) ==> (deep_probe(
            old(table).slots(),
            old(table).capacity(),
            rules::hash_of(*board),
            SEARCH_DEPTH as int,
        ) is None ==> rules::moves_of(*board).contains(m)),
        r is None ==> final(table).slots() == old(table).slots(),
        r matches Some(m) ==> (deep_probe(
            old(table).slots(),
            old(table).capacity(),
            rules::hash_of(*board),
            SEARCH_DEPTH as int,
        ) is None ==> (spec_probe(
            final(table).slots(),
            final(table).capacity(),
            rules::hash_of(*board),
        ) matches Some(e2) && e2.best_move == m && e2.depth as int == SEARCH_DEPTH
            && e2.eval as int == spec_search(*board, old(table).slots(), old(table).capacity()).0)),
        rules::moves_of(*board).len() > 0 ==> r == spec_search(
            *board,
            old(table).slots(),
            old(table).capacity(),
        ).1 && final(table).slots() == spec_search(
            *board,
            old(table).slots(),
            old(table).capacity(),
        ).2,
{
    let move_list = rules::legal_moves(board);
    if move_list.len() == 0 {
        return None;
    }
    Some(best_move(board, table))
}

} // verus!
