use rolebot::command::{
    command_guild, parse_argument, require_permission, try_handle_command, Command,
    CommandError, MANAGE_ROLES,
};

fn words(text: &str) -> Vec<String> {
    text.split_ascii_whitespace().map(|w| w.to_string()).collect()
}

#[test]
fn add_selector_command() {
    match try_handle_command(&words("add role selector 123"), MANAGE_ROLES) {
        Ok(Command::AddSelector(id)) => assert_eq!(id, 123),
        other => panic!("unexpected {:?}", other),
    }
}

#[test]
fn persist_commands_keep_their_references() {
    match try_handle_command(&words("add role persist 1 2 x"), MANAGE_ROLES | 1) {
        Ok(Command::AddPersist(refs)) => assert_eq!(refs, vec!["1", "2", "x"]),
        other => panic!("unexpected {:?}", other),
    }
    match try_handle_command(&words("remove role persist"), MANAGE_ROLES) {
        Ok(Command::RemovePersist(refs)) => assert!(refs.is_empty()),
        other => panic!("unexpected {:?}", other),
    }
}

#[test]
fn command_errors() {
    assert!(matches!(
        try_handle_command(&words("add role selector 123"), 0),
        Err(CommandError::NoPermission(p)) if p == MANAGE_ROLES
    ));
    assert!(matches!(
        try_handle_command(&words("add role selector abc"), MANAGE_ROLES),
        Err(CommandError::MalformedArgument(a)) if a == "abc"
    ));
    assert!(matches!(
        try_handle_command(&words("add role selector 1 2"), MANAGE_ROLES),
        Err(CommandError::InvalidCommand)
    ));
    assert!(matches!(try_handle_command(&words("hello"), MANAGE_ROLES), Err(CommandError::InvalidCommand)));
    assert!(matches!(try_handle_command(&vec![], MANAGE_ROLES), Err(CommandError::InvalidCommand)));
    assert!(matches!(
        try_handle_command(&words("remove role selector 1"), MANAGE_ROLES),
        Err(CommandError::InvalidCommand)
    ));
}

#[test]
fn arguments_and_permissions() {
    assert!(matches!(parse_argument("42"), Ok(42)));
    assert!(matches!(parse_argument("+42"), Ok(42)));
    assert!(matches!(parse_argument("18446744073709551615"), Ok(u64::MAX)));
    assert!(matches!(parse_argument("18446744073709551616"), Err(CommandError::MalformedArgument(_))));
    assert!(matches!(parse_argument(""), Err(CommandError::MalformedArgument(_))));
    assert!(matches!(parse_argument("-1"), Err(CommandError::MalformedArgument(_))));
    assert!(require_permission(MANAGE_ROLES | 8, MANAGE_ROLES).is_ok());
    assert!(matches!(require_permission(8, MANAGE_ROLES), Err(CommandError::NoPermission(p)) if p == MANAGE_ROLES));
    assert!(matches!(command_guild(Some(4)), Ok(4)));
    assert!(matches!(command_guild(None), Err(CommandError::NotAllowed)));
}
