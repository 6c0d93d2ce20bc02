use gomoku::board::Cell;
use gomoku::zobrist::{TTFlag, TranspositionTable, ZobristKeys};

#[test]
fn test_zobrist_keys_deterministic() {
    let keys1 = ZobristKeys::new();
    let keys2 = ZobristKeys::new();

    assert_eq!(
        keys1.stone_key(0, Cell::MyStone),
        keys2.stone_key(0, Cell::MyStone)
    );
    assert_eq!(
        keys1.stone_key(399, Cell::OpStone),
        keys2.stone_key(399, Cell::OpStone)
    );
    assert_eq!(keys1.turn_key(), keys2.turn_key());
}

#[test]
fn test_zobrist_keys_unique() {
    let keys = ZobristKeys::new();

    assert_ne!(
        keys.stone_key(0, Cell::MyStone),
        keys.stone_key(0, Cell::OpStone)
    );
    assert_ne!(
        keys.stone_key(0, Cell::MyStone),
        keys.stone_key(1, Cell::MyStone)
    );
    assert_ne!(keys.stone_key(0, Cell::MyStone), keys.turn_key());
}

#[test]
fn test_tt_store_and_probe() {
    let mut tt = TranspositionTable::new();
    let hash = 0x123456789abcdef0u64;

    tt.store(hash, 5, 100, TTFlag::Exact, Some((10, 10)));

    let entry = tt.probe(hash).expect("Entry should exist");
    assert_eq!(entry.key, hash);
    assert_eq!(entry.depth, 5);
    assert_eq!(entry.score, 100);
    assert_eq!(entry.flag, TTFlag::Exact);
    assert_eq!(entry.best_move, Some((10, 10)));
}

#[test]
fn test_tt_probe_miss() {
    let tt = TranspositionTable::new();
    assert!(tt.probe(0x123456789abcdef0u64).is_none());
}

#[test]
fn test_tt_depth_replacement() {
    let mut tt = TranspositionTable::new();
    let hash = 0x123456789abcdef0u64;

    tt.store(hash, 3, 50, TTFlag::LowerBound, None);
    tt.store(hash, 5, 100, TTFlag::Exact, Some((5, 5)));

    let entry = tt.probe(hash).unwrap();
    assert_eq!(entry.depth, 5);
    assert_eq!(entry.score, 100);
}

#[test]
fn test_tt_shallower_does_not_evict() {
    let mut tt = TranspositionTable::new();
    let hash = 0xfedcba9876543210u64;

    tt.store(hash, 6, 77, TTFlag::Exact, Some((3, 4)));
    tt.store(hash, 2, -5, TTFlag::UpperBound, None);

    let entry = tt.probe(hash).unwrap();
    assert_eq!(entry.depth, 6);
    assert_eq!(entry.score, 77);
    assert_eq!(entry.flag, TTFlag::Exact);
    assert_eq!(entry.best_move, Some((3, 4)));
}

#[test]
fn test_tt_equal_depth_overwrites() {
    let mut tt = TranspositionTable::new();
    let hash = 0x0f0f0f0f0f0f0f0fu64;

    tt.store(hash, 4, 10, TTFlag::LowerBound, None);
    tt.store(hash, 4, 20, TTFlag::Exact, Some((1, 2)));

    let entry = tt.probe(hash).unwrap();
    assert_eq!(entry.score, 20);
    assert_eq!(entry.best_move, Some((1, 2)));
}
