use wayclicker::command::Command;
use wayclicker::command::CommandParseError;
use wayclicker::hotkey::HotKey;
use wayclicker::hotkey::ModifierExpression;
use wayclicker::server::ServerState;

#[test]
fn parses_is_enabled() {
    let cmd = Command::from_packet("is_enabled".to_string()).unwrap();
    assert!(matches!(cmd, Command::IsEnabled));
}

#[test]
fn parses_set_enabled_true_and_false() {
    let cmd = Command::from_packet("set_enabled true".to_string()).unwrap();
    assert!(matches!(cmd, Command::SetEnabled { value: true }));
    let cmd = Command::from_packet("set_enabled false".to_string()).unwrap();
    assert!(matches!(cmd, Command::SetEnabled { value: false }));
}

#[test]
fn surrounding_whitespace_and_extra_tokens_are_ignored() {
    let cmd = Command::from_packet("  \t is_enabled now please\n".to_string()).unwrap();
    assert!(matches!(cmd, Command::IsEnabled));
    let cmd = Command::from_packet("\nset_enabled\ttrue extra".to_string()).unwrap();
    assert!(matches!(cmd, Command::SetEnabled { value: true }));
}

#[test]
fn empty_packet_is_reported() {
    let err = Command::from_packet(String::new()).unwrap_err();
    assert!(matches!(err, CommandParseError::EmptyPacket));
    let err = Command::from_packet("   \n\t ".to_string()).unwrap_err();
    assert!(matches!(err, CommandParseError::EmptyPacket));
}

#[test]
fn unknown_command_carries_the_token() {
    let err = Command::from_packet("frobnicate now".to_string()).unwrap_err();
    match err {
        CommandParseError::UnknownCommand(cmd) => assert_eq!(cmd, "frobnicate"),
        other => panic!("unexpected error: {:?}", other),
    }
}

#[test]
fn missing_argument_is_reported() {
    let err = Command::from_packet("set_enabled".to_string()).unwrap_err();
    match err {
        CommandParseError::MissingArgument { command, argument } => {
            assert_eq!(command, "set_enabled");
            assert_eq!(argument, "value");
        },
        other => panic!("unexpected error: {:?}", other),
    }
}

#[test]
fn invalid_argument_is_reported() {
    let err = Command::from_packet("set_enabled maybe".to_string()).unwrap_err();
    match err {
        CommandParseError::InvalidArgument { command, argument, error } => {
            assert_eq!(command, "set_enabled");
            assert_eq!(argument, "value");
            assert_eq!(error, "provided string was not `true` or `false`");
        },
        other => panic!("unexpected error: {:?}", other),
    }
}

#[test]
fn error_messages_are_exact() {
    assert_eq!(
        Command::from_packet(String::new()).unwrap_err().message(),
        "received empty packet"
    );
    assert_eq!(
        Command::from_packet("frobnicate".to_string()).unwrap_err().message(),
        "unknown command: 'frobnicate'"
    );
    assert_eq!(
        Command::from_packet("set_enabled".to_string()).unwrap_err().message(),
        "command 'set_enabled' missing required argument: value"
    );
    assert_eq!(
        Command::from_packet("set_enabled maybe".to_string()).unwrap_err().message(),
        "command 'set_enabled' has invalid value: provided string was not `true` or `false`"
    );
}

#[test]
fn commands_drive_the_enabled_flag() {
    let hk = HotKey::new(66, ModifierExpression::empty());
    let mut state = ServerState::new(hk);
    let query = Command::from_packet("is_enabled".to_string()).unwrap();
    assert_eq!(state.apply_command(&query), Some(true));
    let disable = Command::from_packet("set_enabled false".to_string()).unwrap();
    assert_eq!(state.apply_command(&disable), None);
    assert_eq!(state.apply_command(&query), Some(false));
    assert_eq!(state.read_snapshot().enabled, false);
}
