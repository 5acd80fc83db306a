use cozy_chess::Board;
use gleam::search::{HashTable, TranspositionEntry, mib_to_n};
use gleam::rules::position_hash;

#[test]
fn probe_returns_exactly_what_was_stored() {
    let b = Board::default();
    let mut t = HashTable::new_n(64);
    assert!(t.probe(&b).is_none());
    let e = TranspositionEntry { best_move: "e2e4".parse().unwrap(), eval: 42, depth: 3 };
    t.set(&b, e);
    let got = t.probe(&b).unwrap();
    assert_eq!(got.best_move, e.best_move);
    assert_eq!(got.eval, 42);
    assert_eq!(got.depth, 3);
}

#[test]
fn a_colliding_store_evicts_and_a_disjoint_store_does_not() {
    let b1 = Board::default();
    let mut b2 = Board::default();
    b2.play("e2e4".parse().unwrap());
    let e1 = TranspositionEntry { best_move: "e2e4".parse().unwrap(), eval: 1, depth: 1 };
    let e2 = TranspositionEntry { best_move: "e7e5".parse().unwrap(), eval: -2, depth: 2 };

    // One slot: the later store evicts the earlier entry.
    let mut small = HashTable::new_n(1);
    small.set(&b1, e1);
    assert_eq!(small.probe(&b1).unwrap().eval, 1);
    small.set(&b2, e2);
    assert!(small.probe(&b1).is_none());
    assert_eq!(small.probe(&b2).unwrap().eval, -2);

    // Distinct slots: both entries survive.
    let mut big = HashTable::new_n(4096);
    let i1 = big.trunc_hash(position_hash(&b1));
    let i2 = big.trunc_hash(position_hash(&b2));
    big.set(&b1, e1);
    big.set(&b2, e2);
    if i1 != i2 {
        assert_eq!(big.probe(&b1).unwrap().eval, 1);
    } else {
        assert!(big.probe(&b1).is_none());
    }
    assert_eq!(big.probe(&b2).unwrap().eval, -2);
}

#[test]
fn a_mebibyte_budget_gives_many_slots() {
    // A slot is at least 8 bytes, so 8 MiB give at most 0x100000 slots, and
    // a slot is clearly no larger than 512 bytes, so at least 16384 of them.
    let n = mib_to_n(8);
    assert!(n >= 16384);
    assert!(8 * n <= 8 * 0x100000);

    let t = HashTable::new(8);
    let d = HashTable::default();
    let b = Board::default();
    assert!(t.probe(&b).is_none());
    assert!(d.probe(&b).is_none());
}
