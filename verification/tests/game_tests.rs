use gomoku::board::Cell;
use gomoku::game::GameState;

#[test]
fn test_initialization() {
    let mut game = GameState::new();
    assert_eq!(game.handle_start(10), "ERROR unsupported size 10");
    assert_eq!(game.handle_start(20), "OK");
    assert!(game.initialized());
}

#[test]
fn test_validate_move() {
    let mut game = GameState::new();
    game.handle_start(20);

    assert!(game.validate_move(10, 10).is_ok());

    assert!(game.validate_move(20, 10).is_err());
    assert!(game.validate_move(10, 20).is_err());

    game.handle_board_move(10, 10, 1);
    assert!(game.validate_move(10, 10).is_err());
    assert_eq!(
        game.validate_move(10, 10),
        Err("ERROR cell already occupied")
    );

    game.handle_board_move(11, 11, 3);
    assert!(game.validate_move(11, 11).is_err());
    assert_eq!(game.validate_move(11, 11), Err("ERROR move forbidden"));
}

#[test]
fn test_turn_handling() {
    let mut game = GameState::new();
    game.handle_start(20);

    assert_eq!(game.handle_turn(20, 20), "ERROR coordinates out of range");

    let response = game.handle_turn(0, 0);
    assert!(!response.contains("ERROR"));
    assert_eq!(game.board().get_cell(0, 0), Some(Cell::OpStone));

    let parts: Vec<&str> = response.split(',').collect();
    let bot_x: usize = parts[0].parse().unwrap();
    let bot_y: usize = parts[1].parse().unwrap();
    assert_eq!(game.board().get_cell(bot_x, bot_y), Some(Cell::MyStone));

    assert_eq!(
        game.handle_turn(bot_x, bot_y),
        "ERROR cell already occupied"
    );
}

#[test]
fn test_board_command() {
    let mut game = GameState::new();
    game.handle_start(20);

    game.handle_board_start();
    game.handle_board_move(10, 10, 1);
    game.handle_board_move(10, 11, 2);

    assert_eq!(game.board().get_cell(10, 10), Some(Cell::MyStone));
    assert_eq!(game.board().get_cell(10, 11), Some(Cell::OpStone));

    let response = game.handle_board_done();
    assert!(!response.contains("ERROR"));
    assert_ne!(response, "10,10");
    assert_ne!(response, "10,11");
}

#[test]
fn test_restart() {
    let mut game = GameState::new();
    game.handle_start(20);

    game.handle_turn(0, 0);
    assert!(game.board().get_cell(0, 0).is_some());
    assert_ne!(game.board().get_cell(0, 0), Some(Cell::Empty));

    game.handle_restart();
    assert_eq!(game.board().get_cell(0, 0), Some(Cell::Empty));
    assert!(!game.in_progress());
}
