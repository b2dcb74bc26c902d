use initx::{
    check_destination, check_exit, is_metadata_name, plan_entry, Action, ApplyError, Args, Command,
    CommandOutcome, EntryAction, UsageError,
};

#[test]
fn metadata_entries_are_skipped() {
    assert!(is_metadata_name(".meta.toml"));
    assert!(is_metadata_name(".meta"));
    assert!(!is_metadata_name(".met"));
    assert!(!is_metadata_name("x.meta.toml"));
    assert_eq!(plan_entry(".meta.toml", false), EntryAction::Skip);
    assert_eq!(plan_entry("src", true), EntryAction::CreateDir);
    assert_eq!(plan_entry("greeting.txt", false), EntryAction::WriteFile);
}

#[test]
fn non_empty_destination_is_refused() {
    assert!(matches!(check_destination(true, false), Err(ApplyError::DestinationNotEmpty)));
    assert!(check_destination(true, true).is_ok());
    assert!(check_destination(false, false).is_ok());
}

#[test]
fn failing_command_is_reported() {
    assert!(check_exit("git init".to_string(), CommandOutcome::Exited(0)).is_ok());
    match check_exit("false".to_string(), CommandOutcome::Exited(1)) {
        Err(ApplyError::CommandFailure { command, outcome: CommandOutcome::Exited(1) }) => {
            assert_eq!(command, "false")
        }
        _ => panic!("expected a command failure"),
    }
    assert!(matches!(
        check_exit("nope".to_string(), CommandOutcome::SpawnFailed("not found".to_string())),
        Err(ApplyError::CommandFailure { .. })
    ));
    assert!(check_exit("sleep".to_string(), CommandOutcome::Killed).is_err());
}

fn args(command: Option<Command>, template: Option<&str>) -> Args {
    Args { command, name: None, force: false, template: template.map(|t| t.to_string()) }
}

#[test]
fn action_needs_exactly_one_request() {
    assert!(matches!(args(None, None).action(), Err(UsageError::NothingToDo)));
    assert!(matches!(args(Some(Command::List), Some("rust")).action(), Err(UsageError::Conflicting)));
    match args(None, Some("rust")).action() {
        Ok(Action::Install(t)) => assert_eq!(t, "rust"),
        _ => panic!("expected an install"),
    }
    assert!(matches!(args(Some(Command::Create), None).action(), Ok(Action::Run(Command::Create))));
    assert_eq!(UsageError::NothingToDo.message(), "You need to give me something to do");
}
