use gomoku::board::{Board, Cell};

#[test]
fn test_new_board() {
    assert!(Board::new(20).is_some());
    assert!(Board::new(19).is_none());
}

#[test]
fn test_indexing() {
    let board = Board::default();
    assert_eq!(board.get_index(0, 0), Some(0));
    assert_eq!(board.get_index(19, 0), Some(19));
    assert_eq!(board.get_index(0, 1), Some(20));
    assert_eq!(board.get_index(19, 19), Some(399));
    assert_eq!(board.get_index(20, 0), None);
    assert_eq!(board.get_index(0, 20), None);
}

#[test]
fn test_cell_operations() {
    let mut board = Board::default();
    assert_eq!(board.get_cell(10, 10), Some(Cell::Empty));

    assert!(board.set_cell(10, 10, Cell::MyStone).is_ok());
    assert_eq!(board.get_cell(10, 10), Some(Cell::MyStone));

    assert!(board.set_cell(20, 20, Cell::MyStone).is_err());
}

#[test]
fn test_iter_empty() {
    let mut board = Board::default();
    board.set_cell(0, 0, Cell::MyStone).unwrap();

    let empty_cells: Vec<_> = board.iter_empty();
    assert_eq!(empty_cells.len(), 399);
    assert!(!empty_cells.contains(&(0, 0)));
}

#[test]
fn test_check_five_in_a_row_horizontal() {
    let mut board = Board::default();
    for x in 0..5 {
        board.set_cell(x, 0, Cell::MyStone).unwrap();
    }
    assert!(board.check_five_in_a_row(Cell::MyStone));
    assert!(!board.check_five_in_a_row(Cell::OpStone));
}

#[test]
fn test_check_five_in_a_row_vertical() {
    let mut board = Board::default();
    for y in 0..5 {
        board.set_cell(0, y, Cell::OpStone).unwrap();
    }
    assert!(board.check_five_in_a_row(Cell::OpStone));
    assert!(!board.check_five_in_a_row(Cell::MyStone));
}

#[test]
fn test_check_five_in_a_row_diagonal() {
    let mut board = Board::default();
    for i in 0..5 {
        board.set_cell(i, i, Cell::MyStone).unwrap();
    }
    assert!(board.check_five_in_a_row(Cell::MyStone));
}

#[test]
fn test_check_five_in_a_row_anti_diagonal() {
    let mut board = Board::default();
    for i in 0..5 {
        board.set_cell(i, 4 - i, Cell::MyStone).unwrap();
    }
    assert!(board.check_five_in_a_row(Cell::MyStone));
}

#[test]
fn test_check_five_in_a_row_interrupted() {
    let mut board = Board::default();
    for x in 0..4 {
        board.set_cell(x, 0, Cell::MyStone).unwrap();
    }
    board.set_cell(5, 0, Cell::MyStone).unwrap();
    assert!(!board.check_five_in_a_row(Cell::MyStone));
}

#[test]
fn test_is_full() {
    let board = Board::default();
    assert!(!board.is_full());
}

#[test]
fn test_check_five_in_a_row_overline() {
    let mut board = Board::default();
    for x in 3..9 {
        board.set_cell(x, 7, Cell::OpStone).unwrap();
    }
    assert!(board.check_five_in_a_row(Cell::OpStone));
}

#[test]
fn test_iter_indices_raster_order() {
    let board = Board::default();
    let all = board.iter_indices();
    assert_eq!(all.len(), 400);
    assert_eq!(all[0], (0, 0));
    assert_eq!(all[19], (19, 0));
    assert_eq!(all[20], (0, 1));
    assert_eq!(all[399], (19, 19));
}
