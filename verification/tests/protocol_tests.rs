use gomoku::protocol::{parse_line, Command};

#[test]
fn test_parse_start() {
    assert_eq!(parse_line("START 20"), Command::Start(20));
    match parse_line("START invalid") {
        Command::Error(_) => assert!(true),
        _ => assert!(false, "Should be Error"),
    }
}

#[test]
fn test_parse_turn() {
    assert_eq!(parse_line("TURN 10,11"), Command::Turn(10, 11));
    match parse_line("TURN 10,invalid") {
        Command::Error(_) => assert!(true),
        _ => assert!(false, "Should be Error"),
    }
}

#[test]
fn test_parse_simple_commands() {
    assert_eq!(parse_line("BEGIN"), Command::Begin);
    assert_eq!(parse_line("BOARD"), Command::Board);
    assert_eq!(parse_line("END"), Command::End);
    assert_eq!(parse_line("ABOUT"), Command::About);
    assert_eq!(parse_line("RESTART"), Command::Restart);
}

#[test]
fn test_parse_info() {
    assert_eq!(
        parse_line("INFO timeout_turn 1000"),
        Command::Info("timeout_turn".to_string(), "1000".to_string())
    );
}

#[test]
fn test_parse_unknown() {
    match parse_line("INVALID") {
        Command::Unknown(_) => assert!(true),
        _ => assert!(false, "Should be Unknown"),
    }
}

#[test]
fn test_parse_surrounding_whitespace() {
    assert_eq!(parse_line("  TURN \t 3,4  "), Command::Turn(3, 4));
    assert_eq!(parse_line("   "), Command::Unknown("".to_string()));
}

#[test]
fn test_parse_bad_coordinates() {
    assert!(matches!(parse_line("TURN 3,4,5"), Command::Error(_)));
    assert!(matches!(parse_line("TURN ,4"), Command::Error(_)));
    assert!(matches!(parse_line("TURN 34"), Command::Error(_)));
    assert!(matches!(parse_line("TURN"), Command::Error(_)));
}

#[test]
fn test_parse_overflowing_number() {
    assert!(matches!(
        parse_line("START 99999999999999999999999999"),
        Command::Error(_)
    ));
}

#[test]
fn test_parse_error_messages() {
    match parse_line("START five") {
        Command::Error(m) => assert_eq!(m, "Invalid size for START: five"),
        _ => panic!("Should be Error"),
    }
    match parse_line("UNHEARD-OF") {
        Command::Unknown(m) => assert_eq!(m, "Unknown command: UNHEARD-OF"),
        _ => panic!("Should be Unknown"),
    }
}
