use gomoku::ai::evaluate;
use gomoku::board::{Board, Cell};
use gomoku::incremental::IncrementalScores;

/// The incremental value must match a from-scratch rebuild on the same
/// position.
fn assert_matches_rescan(inc: &IncrementalScores, board: &Board) {
    let fresh = IncrementalScores::new(board);
    assert_eq!(
        inc.evaluate_position(board),
        fresh.evaluate_position(board)
    );
}

#[test]
fn incremental_matches_full_scan_through_interleavings() {
    let mut board = Board::default();
    let mut inc = IncrementalScores::new(&board);
    assert_eq!(inc.evaluate_position(&board), 0);

    inc.on_stone_placed(&mut board, 9, 9, Cell::MyStone);
    assert_matches_rescan(&inc, &board);
    inc.on_stone_placed(&mut board, 10, 9, Cell::MyStone);
    assert_matches_rescan(&inc, &board);
    // Two adjacent stones: one open two seen from each stone.
    assert_eq!(inc.evaluate_position(&board), 200);

    inc.on_stone_placed(&mut board, 11, 9, Cell::OpStone);
    assert_matches_rescan(&inc, &board);
    inc.on_stone_removed(&mut board, 10, 9);
    assert_matches_rescan(&inc, &board);
    // Place, remove and place again on the same cell.
    inc.on_stone_placed(&mut board, 10, 9, Cell::OpStone);
    assert_matches_rescan(&inc, &board);
    inc.on_stone_removed(&mut board, 10, 9);
    inc.on_stone_placed(&mut board, 10, 9, Cell::MyStone);
    assert_matches_rescan(&inc, &board);

    // Far-apart activity exercises the untouched-cells path.
    inc.on_stone_placed(&mut board, 0, 0, Cell::OpStone);
    assert_matches_rescan(&inc, &board);
    inc.on_stone_placed(&mut board, 19, 19, Cell::MyStone);
    assert_matches_rescan(&inc, &board);
}

#[test]
fn incremental_agrees_with_static_evaluation() {
    // Without a completed five, the full-scan evaluation is exactly the
    // pattern-score total that the cache maintains.
    let mut board = Board::default();
    let mut inc = IncrementalScores::new(&board);
    let stones = [
        (5, 5, Cell::MyStone),
        (6, 5, Cell::MyStone),
        (7, 5, Cell::MyStone),
        (5, 8, Cell::OpStone),
        (6, 8, Cell::OpStone),
        (13, 2, Cell::OpStone),
    ];
    for &(x, y, c) in stones.iter() {
        inc.on_stone_placed(&mut board, x, y, c);
        assert_eq!(inc.evaluate_position(&board), evaluate(&board, Cell::MyStone));
    }
}

#[test]
fn rebuild_recovers_after_bulk_edits() {
    let mut board = Board::default();
    for x in 3..8 {
        board.set_cell(x, 12, Cell::OpStone).unwrap();
    }
    board.set_cell(10, 10, Cell::MyStone).unwrap();
    let mut inc = IncrementalScores::new(&Board::default());
    inc.rebuild_from_board(&board);
    assert_matches_rescan(&inc, &board);
    inc.on_stone_placed(&mut board, 10, 11, Cell::MyStone);
    assert_matches_rescan(&inc, &board);
}
