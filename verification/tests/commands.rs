use lager::application::ports::Mutation;
use lager::application::warehouse::{BatchOutcome, ListRow, OperationStatus, ProviderError, RemovalStatus, RepositoryOutcome};
use lager::commands::{
    add_registration, batch_status, displayed_reference, ensure_summary, flag_choice, list_line, mutation_line, named_references,
    removal_line, removal_registration, Command, EnsureArgs, HookArgs,
};
use lager::domain::state::LocalState;

fn outcome(reference: &str, status: OperationStatus) -> RepositoryOutcome {
    RepositoryOutcome { reference: reference.to_owned(), status }
}

#[test]
fn flags_pick_a_choice_or_leave_it_open() {
    assert_eq!(flag_choice(true, false), Some(true));
    assert_eq!(flag_choice(false, true), Some(false));
    assert_eq!(flag_choice(false, false), None);
}

#[test]
fn only_commands_with_repositories_name_references() {
    let hook = Command::Hook(HookArgs { repositories: vec!["org/repo".to_owned()] });
    assert_eq!(named_references(&hook), Some(&vec!["org/repo".to_owned()]));
    assert_eq!(named_references(&Command::Ensure(EnsureArgs { include_archived: false })), None);
}

#[test]
fn add_requires_a_registration_choice_outside_a_terminal() {
    assert_eq!(
        add_registration(false, false, false, false),
        Err(("add requires exactly one of --register or --no-register outside a TTY".to_owned(), 2))
    );
    assert_eq!(add_registration(true, false, true, true), Err(("--post-clone conflicts with --no-register".to_owned(), 2)));
    assert_eq!(add_registration(true, false, false, false), Ok((true, false)));
    assert_eq!(add_registration(false, false, false, true), Ok((false, true)));
}

#[test]
fn remove_requires_explicit_choices_outside_a_terminal() {
    assert!(removal_registration(false, true, false, false).is_err());
    assert_eq!(removal_registration(false, false, true, true), Ok(Some(false)));
    assert_eq!(removal_registration(true, false, false, false), Ok(None));
}

#[test]
fn exit_statuses_follow_the_outcome() {
    assert_eq!(batch_status(true, true), 130);
    assert_eq!(batch_status(false, true), 1);
    assert_eq!(batch_status(false, false), 0);
}

#[test]
fn lines_printed_for_each_result() {
    assert_eq!(mutation_line(Mutation::Changed, true), "added");
    assert_eq!(mutation_line(Mutation::Noop, false), "already unmanaged");
    assert_eq!(removal_line("org/repo", &RemovalStatus::Absent), Some("org/repo: absent".to_owned()));
    assert_eq!(removal_line("org/repo", &RemovalStatus::Failed("x".to_owned())), None);
    assert_eq!(displayed_reference("not a reference"), "invalid repository reference");
    assert_eq!(displayed_reference("org/re\npo"), "org/re\\npo");
    assert_eq!(displayed_reference("org/repo"), "org/repo");
}

#[test]
fn the_ensure_summary_counts_outcomes() {
    let batch = BatchOutcome {
        outcomes: vec![
            outcome("a", OperationStatus::Cloned),
            outcome("b", OperationStatus::Noop),
            outcome("c", OperationStatus::Cloned),
            outcome("d", OperationStatus::Failed("x".to_owned())),
        ],
        provider_errors: vec![ProviderError { provider: "github.com".to_owned(), error: "offline".to_owned() }],
        cancelled: false,
    };
    assert_eq!(ensure_summary(&batch), "2 cloned, 1 already present, 2 failed");
    let empty = BatchOutcome { outcomes: vec![], provider_errors: vec![], cancelled: false };
    assert_eq!(ensure_summary(&empty), "Nothing to ensure");
}

#[test]
fn list_lines_show_state_and_destination() {
    let row = ListRow {
        identity: "github.com/org/repo".to_owned(),
        clone_url: "git@github.com:org/repo.git".to_owned(),
        source: "explicit".to_owned(),
        destination: Some("/home/me/repos/org/repo".to_owned()),
        hook: false,
        archived: true,
        state: Some(LocalState::Cloned),
        pattern: None,
        exclusions: vec![],
    };
    assert_eq!(list_line(&row), "github.com/org/repo\tcloned\t/home/me/repos/org/repo [archived]");
    let wildcard = ListRow { state: None, destination: None, archived: false, ..row };
    assert_eq!(list_line(&wildcard), "github.com/org/repo\twildcard\t-");
}

#[test]
fn the_configuration_is_the_flag_then_the_environment_then_below_home() {
    assert_eq!(lager::commands::config_location(Some("/etc/lager.toml"), Some("/env.toml"), "/home/u"), "/etc/lager.toml");
    assert_eq!(lager::commands::config_location(None, Some("/env.toml"), "/home/u"), "/env.toml");
    assert_eq!(lager::commands::config_location(None, None, "/home/u"), "/home/u/.config/lager/config.toml");
    assert_eq!(lager::commands::config_location(None, None, "/home/u/"), "/home/u/.config/lager/config.toml");
}
