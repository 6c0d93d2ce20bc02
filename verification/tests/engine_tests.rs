use gomoku::ai::{evaluate, evaluate_sequence, find_winning_move, generate_moves};
use gomoku::board::{Board, Cell};
use gomoku::game::GameState;
use gomoku::threat::{threat_info, ThreatInfo};

fn parse_coords(s: &str) -> Option<(usize, usize)> {
    let parts: Vec<&str> = s.split(',').collect();
    if parts.len() != 2 {
        return None;
    }
    let x = parts[0].parse().ok()?;
    let y = parts[1].parse().ok()?;
    Some((x, y))
}

#[test]
fn candidates_on_empty_board() {
    let board = Board::default();
    let moves = generate_moves(&board, Cell::MyStone);
    assert_eq!(moves, vec![(10, 10), (9, 9), (10, 9), (9, 10)]);
}

#[test]
fn candidates_are_legal() {
    let mut board = Board::default();
    board.set_cell(4, 4, Cell::MyStone).unwrap();
    board.set_cell(5, 4, Cell::OpStone).unwrap();
    board.set_cell(12, 12, Cell::MyStone).unwrap();
    let moves = generate_moves(&board, Cell::MyStone);
    assert!(!moves.is_empty());
    assert!(moves.len() <= 80);
    for &(x, y) in moves.iter() {
        assert!(x < 20 && y < 20);
        assert!(board.is_empty(x, y));
    }
    for i in 0..moves.len() {
        for j in (i + 1)..moves.len() {
            assert_ne!(moves[i], moves[j]);
        }
    }
}

#[test]
fn hash_tracks_every_mutation() {
    let mut game = GameState::new();
    assert_eq!(game.hash(), game.recompute_hash());
    game.handle_start(20);
    assert_eq!(game.hash(), game.recompute_hash());

    game.handle_board_start();
    game.handle_board_move(3, 3, 1);
    assert_eq!(game.hash(), game.recompute_hash());
    game.handle_board_move(4, 3, 2);
    assert_eq!(game.hash(), game.recompute_hash());

    // Removing the stone again restores the fingerprint: XOR is its own
    // inverse.
    let before = game.hash();
    game.handle_board_move(9, 9, 1);
    assert_ne!(game.hash(), before);
    game.handle_board_move(9, 9, 0);
    assert_eq!(game.hash(), before);
    assert_eq!(game.hash(), game.recompute_hash());

    game.set_time_budget(0);
    let response = game.handle_board_done();
    assert!(parse_coords(&response).is_some());
    assert_eq!(game.hash(), game.recompute_hash());
}

#[test]
fn hash_with_turn_flips_one_key() {
    let game = GameState::new();
    let plain = game.hash_with_turn(false);
    let with_turn = game.hash_with_turn(true);
    assert_eq!(plain, game.hash());
    assert_ne!(plain, with_turn);
}

#[test]
fn evaluate_exact_values() {
    let board = Board::default();
    assert_eq!(evaluate(&board, Cell::MyStone), 0);

    let mut board = Board::default();
    board.set_cell(9, 9, Cell::MyStone).unwrap();
    board.set_cell(10, 9, Cell::MyStone).unwrap();
    // Each of the two stones sees one open two horizontally.
    assert_eq!(evaluate(&board, Cell::MyStone), 200);
    assert_eq!(evaluate(&board, Cell::OpStone), -200);
}

#[test]
fn evaluate_sequence_exact_values() {
    let mut board = Board::default();
    board.set_cell(5, 5, Cell::MyStone).unwrap();
    board.set_cell(6, 5, Cell::MyStone).unwrap();
    board.set_cell(7, 5, Cell::MyStone).unwrap();
    // An open three seen from its first stone.
    assert_eq!(evaluate_sequence(&board, 5, 5, 1, 0, Cell::MyStone), 1_000);
    // Blocked on one side it is worth a tenth.
    board.set_cell(4, 5, Cell::OpStone).unwrap();
    assert_eq!(evaluate_sequence(&board, 5, 5, 1, 0, Cell::MyStone), 100);
}

#[test]
fn evaluate_detects_win() {
    let mut board = Board::default();
    for x in 2..7 {
        board.set_cell(x, 2, Cell::MyStone).unwrap();
    }
    assert_eq!(evaluate(&board, Cell::MyStone), 100_000);
    assert_eq!(evaluate(&board, Cell::OpStone), -100_000);
}

#[test]
fn threat_counts_open_four() {
    let mut board = Board::default();
    for x in 5..8 {
        board.set_cell(x, 5, Cell::MyStone).unwrap();
    }
    // A stone at (8,5) would make an open four 5..=8 with (4,5) and
    // (9,5) empty.
    let t = threat_info(&board, Cell::MyStone, 8, 5);
    assert_eq!(t.open_fours, 1);
    assert!(t.is_winning());
    // A stone far away threatens nothing.
    let t2 = threat_info(&board, Cell::MyStone, 0, 19);
    assert_eq!(t2.open_fours, 0);
    assert_eq!(t2.closed_fours, 0);
    assert_eq!(t2.open_threes, 0);
    assert!(!t2.is_winning());
}

#[test]
fn double_threat_rule() {
    let none = ThreatInfo { open_fours: 0, closed_fours: 0, open_threes: 1 };
    assert!(!none.is_winning());
    let two_threes = ThreatInfo { open_fours: 0, closed_fours: 0, open_threes: 2 };
    assert!(two_threes.is_winning());
    let four_three = ThreatInfo { open_fours: 0, closed_fours: 1, open_threes: 1 };
    assert!(four_three.is_winning());
    let two_fours = ThreatInfo { open_fours: 0, closed_fours: 2, open_threes: 0 };
    assert!(two_fours.is_winning());
}

#[test]
fn finds_first_winning_move() {
    let mut board = Board::default();
    for x in 1..5 {
        board.set_cell(x, 10, Cell::MyStone).unwrap();
    }
    // Both (0,10) and (5,10) complete five; the raster-first one wins.
    assert_eq!(find_winning_move(&board, Cell::MyStone), Some((0, 10)));
}

#[test]
fn scenario_open_four_is_completed() {
    let mut game = GameState::new();
    game.handle_start(20);
    game.handle_board_start();
    for x in 1..5 {
        game.handle_board_move(x, 10, 1);
    }
    game.handle_board_move(1, 1, 2);
    game.handle_board_move(2, 1, 2);
    game.handle_board_move(3, 1, 2);
    let response = game.handle_board_done();
    let m = parse_coords(&response).expect("expected a coordinate");
    assert!(m == (0, 10) || m == (5, 10), "got {:?}", m);
    assert!(game.board().check_five_in_a_row(Cell::MyStone));
}

#[test]
fn scenario_open_three_is_blocked() {
    let mut game = GameState::new();
    game.handle_start(20);
    // A generous budget: the answer must not depend on the clock.
    game.set_time_budget(8_000);
    game.handle_board_start();
    game.handle_board_move(5, 5, 2);
    game.handle_board_move(6, 5, 2);
    game.handle_board_move(7, 5, 2);
    game.handle_board_move(0, 0, 1);
    game.handle_board_move(0, 1, 1);
    let response = game.handle_board_done();
    let m = parse_coords(&response).expect("expected a coordinate");
    assert!(m == (4, 5) || m == (8, 5), "got {:?}", m);
}

#[test]
fn scenario_full_board_reports_no_move() {
    let mut game = GameState::new();
    game.handle_start(20);
    game.handle_board_start();
    for y in 0..20 {
        for x in 0..20 {
            // A striped filling with no five in a row anywhere.
            let field = if (x / 2 + y) % 2 == 0 { 1 } else { 2 };
            game.handle_board_move(x, y, field);
        }
    }
    assert!(game.board().is_full());
    let response = game.handle_board_done();
    assert_eq!(response, "ERROR board full");
}

#[test]
fn scenario_zero_budget_still_moves() {
    let mut game = GameState::new();
    game.handle_start(20);
    game.set_time_budget(0);
    game.handle_board_start();
    game.handle_board_move(8, 8, 1);
    game.handle_board_move(9, 8, 2);
    game.handle_board_move(12, 3, 2);
    let response = game.handle_board_done();
    let (x, y) = parse_coords(&response).expect("expected a coordinate");
    assert_eq!(game.board().get_cell(x, y), Some(Cell::MyStone));
}

#[test]
fn determinism_under_fixed_budget() {
    let script: &[(usize, usize)] = &[(0, 0), (1, 1), (2, 2), (3, 1)];
    let mut responses1: Vec<String> = Vec::new();
    let mut responses2: Vec<String> = Vec::new();
    for responses in [&mut responses1, &mut responses2] {
        let mut game = GameState::new();
        game.set_time_budget(0);
        responses.push(game.handle_start(20));
        for &(x, y) in script {
            responses.push(game.handle_turn(x, y));
        }
        responses.push(game.handle_restart());
    }
    assert_eq!(responses1, responses2);
}

#[test]
fn emergency_move_prefers_center() {
    let mut game = GameState::new();
    game.handle_start(20);
    assert_eq!(game.emergency_move(), Some((10, 10)));
    game.handle_board_move(10, 10, 1);
    assert_eq!(game.emergency_move(), Some((9, 9)));
}

#[test]
fn position_score_tracks_play() {
    let mut game = GameState::new();
    game.handle_start(20);
    assert_eq!(game.position_score(), 0);
    // Upload a position and read the rebuilt score: the engine's two
    // adjacent stones are one open two seen from each of them.
    game.handle_board_start();
    game.handle_board_move(9, 9, 1);
    game.handle_board_move(10, 9, 1);
    assert_eq!(game.position_score(), 200);
    // The mirrored position for the opponent scores negatively.
    game.handle_board_move(9, 12, 2);
    game.handle_board_move(10, 12, 2);
    assert_eq!(game.position_score(), 0);
}

#[test]
fn unsupported_size_is_echoed() {
    let mut game = GameState::new();
    assert_eq!(game.handle_start(12345), "ERROR unsupported size 12345");
    assert_eq!(game.handle_start(0), "ERROR unsupported size 0");
}
