use peerchat::command::{parse_command, Command};

#[test]
fn quit_and_users_commands() {
    assert!(matches!(parse_command(&b"/quit".to_vec()), Command::Quit));
    assert!(matches!(parse_command(&b"  /quit \n".to_vec()), Command::Quit));
    assert!(matches!(parse_command(&b"/users\n".to_vec()), Command::ListUsers));
}

#[test]
fn connect_with_one_nickname() {
    match parse_command(&b"/connect alice\n".to_vec()) {
        Command::Connect { nickname } => assert_eq!(nickname, b"alice".to_vec()),
        _ => panic!("expected a connect"),
    }
    match parse_command(&b"/connect    bob".to_vec()) {
        Command::Connect { nickname } => assert_eq!(nickname, b"bob".to_vec()),
        _ => panic!("expected a connect"),
    }
}

#[test]
fn connect_with_wrong_arity_is_usage() {
    assert!(matches!(parse_command(&b"/connect a b\n".to_vec()), Command::ConnectUsage));
}

#[test]
fn bare_connect_word_is_broadcast() {
    // Without a space-then-nickname the trimmed line no longer starts
    // with the connect prefix, so it is ordinary chat text.
    match parse_command(&b"/connect".to_vec()) {
        Command::Broadcast { payload } => assert_eq!(payload, b"/connect".to_vec()),
        _ => panic!("expected a broadcast"),
    }
    match parse_command(&b"/connect \n".to_vec()) {
        Command::Broadcast { payload } => assert_eq!(payload, b"/connect".to_vec()),
        _ => panic!("expected a broadcast"),
    }
}

#[test]
fn anything_else_is_broadcast_trimmed() {
    match parse_command(&b"  hello group \n".to_vec()) {
        Command::Broadcast { payload } => assert_eq!(payload, b"hello group".to_vec()),
        _ => panic!("expected a broadcast"),
    }
    match parse_command(&b"\n".to_vec()) {
        Command::Broadcast { payload } => assert!(payload.is_empty()),
        _ => panic!("expected a broadcast"),
    }
}
