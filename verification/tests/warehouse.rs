use std::cell::RefCell;
use std::collections::VecDeque;

use lager::application::ports::{
    ConfigStore, EnsureEvent, EnsureReporter, GitClient, GitRemoval, GitState, HookRunner, Interaction, InteractionError, Mutation,
    ProviderCatalog, RemovalFilesystem,
};
use lager::application::warehouse::{
    clone_many, clone_many_with_interaction, clone_references, clone_references_with_interaction, ensure, hook, hook_config, list,
    list_config, picker_config, remove_many, validate_removal_path, OperationStatus, PickerContext, RemovalStatus,
};
use lager::application::warehouse::{
    AddAnswer, AddNext, AddStage, CloneAnswer, CloneNext, CloneStage, RemovalAnswer, RemovalNext, RemovalStage, add_step, clone_step, removal_placement, removal_step,
};
use lager::domain::config::{Config, RepositoryDeclaration};
use lager::domain::repository::{RepositoryRef, RepositorySummary};
use lager::domain::state::LocalState;

fn config() -> Config {
    Config { root: "repos".to_owned(), providers: Vec::new(), repositories: vec![] }
}

fn declaration(url: &str, post_clone: Option<&str>, exclude: &[&str]) -> RepositoryDeclaration {
    RepositoryDeclaration {
        url: url.to_owned(),
        post_clone: post_clone.map(str::to_owned),
        exclude: exclude.iter().map(|value| value.to_string()).collect(),
    }
}

fn copy_config(config: &Config) -> Config {
    Config {
        root: config.root.clone(),
        providers: Vec::new(),
        repositories: config
            .repositories
            .iter()
            .map(|declaration| RepositoryDeclaration {
                url: declaration.url.clone(),
                post_clone: declaration.post_clone.clone(),
                exclude: declaration.exclude.clone(),
            })
            .collect(),
    }
}

struct FakeStore {
    config: Config,
}

impl ConfigStore for FakeStore {
    fn exists_at(&self, _path: &str) -> bool {
        true
    }

    fn load(&self, _path: &str) -> Result<Config, String> {
        Ok(copy_config(&self.config))
    }

    fn init(&self, _path: &str, _root: &str, _github: bool) -> Result<(), String> {
        Ok(())
    }

    fn register(&self, _path: &str, _references: &Vec<String>, _post_clone: Option<&str>) -> Result<Vec<Mutation>, String> {
        Ok(vec![Mutation::Changed])
    }

    fn remove(&self, _path: &str, _references: &Vec<String>) -> Result<Vec<Mutation>, String> {
        Ok(vec![])
    }
}

struct RecordingStore {
    config: Config,
    registered: RefCell<Vec<(String, Option<String>)>>,
    removed: RefCell<Vec<String>>,
}

impl RecordingStore {
    fn new() -> Self {
        RecordingStore { config: config(), registered: RefCell::new(Vec::new()), removed: RefCell::new(Vec::new()) }
    }
}

impl ConfigStore for RecordingStore {
    fn exists_at(&self, _path: &str) -> bool {
        true
    }

    fn load(&self, _path: &str) -> Result<Config, String> {
        Ok(copy_config(&self.config))
    }

    fn init(&self, _path: &str, _root: &str, _github: bool) -> Result<(), String> {
        unreachable!()
    }

    fn register(&self, _path: &str, references: &Vec<String>, post_clone: Option<&str>) -> Result<Vec<Mutation>, String> {
        self.registered
            .borrow_mut()
            .extend(references.iter().cloned().map(|reference| (reference, post_clone.map(str::to_owned))));
        Ok(vec![Mutation::Changed; references.len()])
    }

    fn remove(&self, _path: &str, references: &Vec<String>) -> Result<Vec<Mutation>, String> {
        self.removed.borrow_mut().extend_from_slice(references);
        Ok(vec![Mutation::Changed; references.len()])
    }
}

struct FakeGit {
    cloned: RefCell<Vec<String>>,
}

impl FakeGit {
    fn new() -> Self {
        FakeGit { cloned: RefCell::new(vec![]) }
    }
}

impl GitClient for FakeGit {
    fn clone_repository(&self, url: &str, _home: &str, _root: &str, _destination: &str) -> Result<(), String> {
        if url.contains("bad") {
            return Err("clone failed".to_owned());
        }
        self.cloned.borrow_mut().push(url.to_owned());
        Ok(())
    }

    fn is_cancelled(&self, _error: &String) -> bool {
        false
    }
}

impl GitState for FakeGit {
    fn classify_destination(&self, _destination: &str, _expected_url: &str) -> LocalState {
        LocalState::Missing
    }
}

impl GitRemoval for FakeGit {
    fn inspect_removal(&self, _destination: &str, _expected_url: &str) -> Result<Vec<String>, String> {
        Ok(vec!["stashes".to_owned()])
    }

    fn origin_identity(&self, _destination: &str) -> Result<String, String> {
        Ok("github.com/org/repo".to_owned())
    }
}

struct EventGit<'a> {
    events: &'a RefCell<Vec<String>>,
}

impl GitClient for EventGit<'_> {
    fn clone_repository(&self, url: &str, _home: &str, _root: &str, _destination: &str) -> Result<(), String> {
        self.events.borrow_mut().push(format!("git:{url}"));
        Ok(())
    }

    fn is_cancelled(&self, _error: &String) -> bool {
        false
    }
}

impl GitState for EventGit<'_> {
    fn classify_destination(&self, _destination: &str, _expected_url: &str) -> LocalState {
        LocalState::Missing
    }
}

struct RecordingEnsureReporter<'a> {
    events: &'a RefCell<Vec<String>>,
}

impl EnsureReporter for RecordingEnsureReporter<'_> {
    fn report(&mut self, event: EnsureEvent<'_>) {
        let event = match event {
            EnsureEvent::CloneStarted { reference, destination } => format!("start:{reference}:{destination}"),
            EnsureEvent::CloneSucceeded { reference } => format!("success:{reference}"),
            EnsureEvent::CloneFailed { reference, error } => format!("failure:{reference}:{error}"),
        };
        self.events.borrow_mut().push(event);
    }
}

struct FakeInteraction {
    answer: Result<bool, InteractionError>,
    prompts: RefCell<Vec<String>>,
}

impl Interaction for FakeInteraction {
    fn confirm(&mut self, message: &str, _default: bool) -> Result<bool, InteractionError> {
        self.prompts.borrow_mut().push(message.to_owned());
        match &self.answer {
            Ok(value) => Ok(*value),
            Err(InteractionError::Cancelled) => Err(InteractionError::Cancelled),
            Err(InteractionError::Failed(message)) => Err(InteractionError::Failed(message.clone())),
        }
    }

    fn input(&mut self, _message: &str, _placeholder: &str, _default: Option<&str>) -> Result<String, InteractionError> {
        unreachable!()
    }
}

struct QueueInteraction {
    answers: VecDeque<Result<bool, InteractionError>>,
    inputs: VecDeque<Result<String, InteractionError>>,
    prompts: Vec<(String, bool)>,
}

impl QueueInteraction {
    fn new(answers: Vec<Result<bool, InteractionError>>, inputs: Vec<Result<String, InteractionError>>) -> Self {
        QueueInteraction { answers: answers.into(), inputs: inputs.into(), prompts: Vec::new() }
    }
}

impl Interaction for QueueInteraction {
    fn confirm(&mut self, message: &str, default: bool) -> Result<bool, InteractionError> {
        self.prompts.push((message.to_owned(), default));
        self.answers.pop_front().expect("confirmation answer")
    }

    fn input(&mut self, message: &str, _placeholder: &str, _default: Option<&str>) -> Result<String, InteractionError> {
        self.prompts.push((message.to_owned(), false));
        self.inputs.pop_front().expect("input answer")
    }
}

/// A filesystem on which nothing exists yet.
struct AbsentFilesystem;

impl RemovalFilesystem for AbsentFilesystem {
    fn canonicalize(&self, _path: &str) -> Result<String, String> {
        Err("No such file or directory (os error 2)".to_owned())
    }

    fn is_symlink(&self, _path: &str) -> Result<bool, String> {
        Err("No such file or directory (os error 2)".to_owned())
    }

    fn exists_at(&self, _path: &str) -> bool {
        false
    }

    fn metadata_exists(&self, _path: &str) -> Result<bool, String> {
        Ok(false)
    }

    fn contains_symlink(&self, _path: &str) -> Result<bool, String> {
        Ok(false)
    }

    fn remove_dir_all(&self, _path: &str) -> Result<(), String> {
        panic!("nothing to remove")
    }

    fn discover_directories(&self, _root: &str) -> Result<Vec<String>, String> {
        Ok(Vec::new())
    }
}

struct PermissionDeniedRemovalFilesystem;

impl RemovalFilesystem for PermissionDeniedRemovalFilesystem {
    fn canonicalize(&self, _path: &str) -> Result<String, String> {
        Err("No such file or directory (os error 2)".to_owned())
    }

    fn is_symlink(&self, _path: &str) -> Result<bool, String> {
        Ok(false)
    }

    fn exists_at(&self, _path: &str) -> bool {
        false
    }

    fn metadata_exists(&self, _path: &str) -> Result<bool, String> {
        Err("permission denied".to_owned())
    }

    fn contains_symlink(&self, _path: &str) -> Result<bool, String> {
        Ok(false)
    }

    fn remove_dir_all(&self, _path: &str) -> Result<(), String> {
        panic!("unreadable paths must not be removed")
    }

    fn discover_directories(&self, _root: &str) -> Result<Vec<String>, String> {
        Ok(Vec::new())
    }
}

/// A filesystem holding exactly the listed directories, each its own canonical path.
struct PresentFilesystem {
    directories: Vec<String>,
    removed: RefCell<Vec<String>>,
    fail_removal: bool,
}

impl PresentFilesystem {
    fn new(directories: &[&str], fail_removal: bool) -> Self {
        PresentFilesystem {
            directories: directories.iter().map(|value| value.to_string()).collect(),
            removed: RefCell::new(Vec::new()),
            fail_removal,
        }
    }

    fn holds(&self, path: &str) -> bool {
        self.directories.iter().any(|directory| directory == path) && !self.removed.borrow().iter().any(|gone| gone == path)
    }
}

impl RemovalFilesystem for PresentFilesystem {
    fn canonicalize(&self, path: &str) -> Result<String, String> {
        if self.holds(path) {
            Ok(path.to_owned())
        } else {
            Err("No such file or directory (os error 2)".to_owned())
        }
    }

    fn is_symlink(&self, _path: &str) -> Result<bool, String> {
        Ok(false)
    }

    fn exists_at(&self, path: &str) -> bool {
        self.holds(path)
    }

    fn metadata_exists(&self, path: &str) -> Result<bool, String> {
        Ok(self.holds(path))
    }

    fn contains_symlink(&self, _path: &str) -> Result<bool, String> {
        Ok(false)
    }

    fn remove_dir_all(&self, path: &str) -> Result<(), String> {
        if self.fail_removal {
            return Err("simulated partial removal".to_owned());
        }
        self.removed.borrow_mut().push(path.to_owned());
        Ok(())
    }

    fn discover_directories(&self, _root: &str) -> Result<Vec<String>, String> {
        Ok(self.directories.clone())
    }
}

#[derive(Default)]
struct FakeHooks {
    commands: RefCell<Vec<String>>,
}

impl HookRunner for FakeHooks {
    fn run_hook(&self, command: &str, _directory: &str) -> Result<(), String> {
        self.commands.borrow_mut().push(command.to_owned());
        Ok(())
    }

    fn is_cancelled(&self, _error: &String) -> bool {
        false
    }
}

struct NoProviders;

impl ProviderCatalog for NoProviders {
    fn catalog(&self, _include_archived: bool) -> Result<Vec<RepositorySummary>, String> {
        Ok(vec![])
    }

    fn expand(&self, _reference: &RepositoryRef, _include_archived: bool) -> Result<Vec<RepositorySummary>, String> {
        Ok(vec![])
    }
}

struct FakeCatalog {
    expansion: Result<Vec<RepositorySummary>, String>,
}

impl ProviderCatalog for FakeCatalog {
    fn catalog(&self, _include_archived: bool) -> Result<Vec<RepositorySummary>, String> {
        Ok(vec![])
    }

    fn expand(&self, _reference: &RepositoryRef, _include_archived: bool) -> Result<Vec<RepositorySummary>, String> {
        self.expansion.clone()
    }
}

fn summary(reference: &str, archived: bool) -> RepositorySummary {
    RepositorySummary { reference: RepositoryRef::parse(reference).unwrap(), archived }
}

const HOME: &str = "/tmp/lager-test-home";

#[test]
fn tty_remove_asks_to_unregister_after_absent_disk_handling_with_yes_default() {
    let store = RecordingStore::new();
    let mut interaction = QueueInteraction::new(vec![Ok(true)], vec![]);
    let result = remove_many(
        &store,
        &FakeGit::new(),
        &AbsentFilesystem,
        &mut interaction,
        "config",
        &vec!["github.com/org/repo".to_owned()],
        None,
        false,
        true,
        true,
        "/tmp/lager-test/home",
    )
    .unwrap();
    assert_eq!(result.outcomes[0].status, RemovalStatus::Absent);
    assert_eq!(store.removed.borrow().as_slice(), ["github.com/org/repo"]);
    assert_eq!(interaction.prompts, [("Unregister github.com/org/repo?".to_owned(), true)]);
}

#[test]
fn remove_cancellation_stops_the_batch_before_later_mutation() {
    let store = RecordingStore::new();
    let mut interaction = QueueInteraction::new(vec![Err(InteractionError::Cancelled), Ok(true)], vec![]);
    let result = remove_many(
        &store,
        &FakeGit::new(),
        &AbsentFilesystem,
        &mut interaction,
        "config",
        &vec!["github.com/org/one".to_owned(), "github.com/org/two".to_owned()],
        None,
        false,
        true,
        true,
        "/tmp/lager-test/home",
    )
    .unwrap();
    assert!(result.cancelled);
    assert_eq!(result.outcomes.len(), 1);
    assert!(store.removed.borrow().is_empty());
    assert_eq!(interaction.answers.len(), 1);
}

#[test]
fn unreadable_destination_is_a_failure_not_an_absent_unregister() {
    let mut interaction = FakeInteraction { answer: Ok(true), prompts: RefCell::new(Vec::new()) };
    let result = remove_many(
        &FakeStore { config: config() },
        &FakeGit::new(),
        &PermissionDeniedRemovalFilesystem,
        &mut interaction,
        "config",
        &vec!["github.com/org/repo".to_owned()],
        Some(true),
        true,
        true,
        false,
        "/tmp/lager-test/home",
    )
    .unwrap();
    assert!(matches!(result.outcomes[0].status, RemovalStatus::Failed(_)));
    assert!(interaction.prompts.borrow().is_empty());
}

#[test]
fn removal_warning_can_be_declined_without_touching_the_checkout() {
    let filesystem = PresentFilesystem::new(&["/home/me/repos", "/home/me/repos/org/repo"], false);
    let mut interaction = FakeInteraction { answer: Ok(false), prompts: RefCell::new(Vec::new()) };
    let result = remove_many(
        &FakeStore { config: config() },
        &FakeGit::new(),
        &filesystem,
        &mut interaction,
        "config",
        &vec!["github.com/org/repo".to_owned()],
        Some(false),
        false,
        false,
        true,
        "/home/me",
    )
    .unwrap();
    assert_eq!(result.outcomes[0].status, RemovalStatus::Skipped);
    assert!(filesystem.removed.borrow().is_empty());
    assert_eq!(
        interaction.prompts.borrow().as_slice(),
        ["Unsafe local state at /home/me/repos/org/repo (stashes). Force removal?"]
    );
}

#[test]
fn forced_removal_deletes_and_unregisters() {
    let filesystem = PresentFilesystem::new(&["/home/me/repos", "/home/me/repos/org/repo"], false);
    let store = RecordingStore::new();
    let mut interaction = QueueInteraction::new(vec![], vec![]);
    let result = remove_many(
        &store,
        &FakeGit::new(),
        &filesystem,
        &mut interaction,
        "config",
        &vec!["github.com/org/repo".to_owned()],
        Some(true),
        true,
        true,
        false,
        "/home/me",
    )
    .unwrap();
    assert_eq!(result.outcomes[0].status, RemovalStatus::Removed);
    assert!(!result.failed());
    assert_eq!(filesystem.removed.borrow().as_slice(), ["/home/me/repos/org/repo"]);
    assert_eq!(store.removed.borrow().as_slice(), ["github.com/org/repo"]);
}

#[test]
fn failed_disk_removal_keeps_the_registration() {
    let filesystem = PresentFilesystem::new(&["/home/me/repos", "/home/me/repos/org/repo"], true);
    let store = RecordingStore::new();
    let mut interaction = FakeInteraction { answer: Ok(true), prompts: RefCell::new(Vec::new()) };
    let result = remove_many(
        &store,
        &FakeGit::new(),
        &filesystem,
        &mut interaction,
        "config",
        &vec!["github.com/org/repo".to_owned()],
        Some(true),
        true,
        true,
        false,
        "/home/me",
    )
    .unwrap();
    assert_eq!(result.outcomes[0].status, RemovalStatus::Failed("simulated partial removal".to_owned()));
    assert!(store.removed.borrow().is_empty());
}

#[test]
fn removal_refuses_the_root_itself_and_paths_outside_it() {
    let filesystem = PresentFilesystem::new(&["/r/root", "/r/root/child", "/r/outside"], false);
    assert!(validate_removal_path(&filesystem, "/r/root", "/r/root").is_err());
    assert!(validate_removal_path(&filesystem, "/r/root", "/r/outside").is_err());
    assert_eq!(validate_removal_path(&filesystem, "/r/root", "/r/root/child"), Ok("/r/root/child".to_owned()));
}

#[test]
fn removal_refuses_wildcards_and_unsafe_references() {
    let mut interaction = QueueInteraction::new(vec![], vec![]);
    let result = remove_many(
        &FakeStore { config: config() },
        &FakeGit::new(),
        &AbsentFilesystem,
        &mut interaction,
        "config",
        &vec!["github.com/org/*".to_owned()],
        Some(false),
        true,
        true,
        false,
        "/home/me",
    )
    .unwrap();
    assert_eq!(result.outcomes[0].status, RemovalStatus::Failed("wildcard references cannot be removed".to_owned()));
    assert!(remove_many(
        &FakeStore { config: config() },
        &FakeGit::new(),
        &AbsentFilesystem,
        &mut interaction,
        "config",
        &vec!["ftp://host.example/org/repo".to_owned()],
        Some(false),
        true,
        true,
        false,
        "/home/me",
    )
    .is_err());
}

#[test]
fn list_offline_reports_explicit_state_and_wildcard_metadata() {
    let mut config = config();
    config.repositories = vec![
        declaration("github.com/org/explicit", Some("hook"), &[]),
        declaration("github.com/org/*", None, &["skip"]),
    ];
    let report = list(&FakeStore { config }, &FakeGit::new(), &NoProviders, "config", false, false, HOME).unwrap();

    assert_eq!(report.schema_version, 1);
    assert_eq!(report.repositories.len(), 2);
    assert_eq!(report.repositories[0].source, "explicit");
    assert_eq!(report.repositories[0].state, Some(LocalState::Missing));
    assert!(report.repositories[0].hook);
    assert_eq!(report.repositories[1].pattern.as_deref(), Some("github.com/org/*"));
    assert_eq!(report.repositories[1].exclusions, ["skip"]);
}

#[test]
fn remote_list_deduplicates_explicit_and_excluded_wildcard_members() {
    let mut config = config();
    config.repositories = vec![declaration("github.com/org/explicit", None, &[]), declaration("github.com/org/*", None, &["skip"])];
    let report = list(
        &FakeStore { config },
        &FakeGit::new(),
        &FakeCatalog {
            expansion: Ok(vec![
                summary("github.com/org/skip", false),
                summary("github.com/org/explicit", false),
                summary("github.com/org/member", true),
                summary("github.com/org/member", true),
            ]),
        },
        "config",
        true,
        true,
        HOME,
    )
    .unwrap();

    assert!(report.provider_errors.is_empty());
    assert_eq!(report.repositories.len(), 2);
    assert_eq!(report.repositories[0].identity, "github.com/org/explicit");
    assert_eq!(report.repositories[1].identity, "github.com/org/member");
    assert!(report.repositories[1].archived);
}

#[test]
fn remote_list_keeps_rows_when_provider_expansion_fails() {
    let mut config = config();
    config.repositories.push(declaration("github.com/org/*", None, &[]));
    let report = list(
        &FakeStore { config },
        &FakeGit::new(),
        &FakeCatalog { expansion: Err("offline".to_owned()) },
        "config",
        true,
        false,
        HOME,
    )
    .unwrap();
    assert!(report.repositories.is_empty());
    assert_eq!(report.provider_errors[0].error, "offline");
    assert!(report.failed());
}

#[test]
fn interactive_add_asks_registration_and_optional_hook_per_successful_repository() {
    let store = RecordingStore::new();
    let git = FakeGit::new();
    let hooks = FakeHooks::default();
    let mut interaction =
        QueueInteraction::new(vec![Ok(true), Ok(false), Ok(true), Ok(true)], vec![Ok("  make setup && printf 'x y'  ".to_owned())]);
    let references = vec!["github.com/org/one".to_owned(), "github.com/org/two".to_owned()];
    let outcome = clone_many_with_interaction(&store, &git, &hooks, &mut interaction, "config", &references, HOME).unwrap();
    assert!(!outcome.cancelled);
    assert_eq!(git.cloned.borrow().len(), 2);
    assert_eq!(
        store.registered.borrow().as_slice(),
        [
            ("github.com/org/one".to_owned(), None),
            ("github.com/org/two".to_owned(), Some("  make setup && printf 'x y'  ".to_owned()))
        ]
    );
    assert_eq!(hooks.commands.borrow().as_slice(), ["  make setup && printf 'x y'  "]);
    assert_eq!(
        interaction.prompts,
        [
            ("Register github.com/org/one?".to_owned(), true),
            ("Configure a post-clone hook for github.com/org/one?".to_owned(), false),
            ("Register github.com/org/two?".to_owned(), true),
            ("Configure a post-clone hook for github.com/org/two?".to_owned(), false),
            ("Post-clone command for github.com/org/two?".to_owned(), false)
        ]
    );
}

struct CancelledHook;

impl HookRunner for CancelledHook {
    fn run_hook(&self, _: &str, _: &str) -> Result<(), String> {
        Err("interrupted".to_owned())
    }

    fn is_cancelled(&self, error: &String) -> bool {
        error == "interrupted"
    }
}

#[test]
fn interactive_add_stops_after_a_new_hook_reports_cancellation() {
    let store = RecordingStore::new();
    let git = FakeGit::new();
    let mut interaction = QueueInteraction::new(vec![Ok(true), Ok(true)], vec![Ok("exit 130".to_owned())]);
    let outcome = clone_many_with_interaction(
        &store,
        &git,
        &CancelledHook,
        &mut interaction,
        "config",
        &vec!["github.com/org/one".to_owned(), "github.com/org/two".to_owned()],
        HOME,
    )
    .unwrap();
    assert!(outcome.cancelled);
    assert_eq!(outcome.outcomes.len(), 1);
    assert_eq!(git.cloned.borrow().len(), 1);
    assert_eq!(store.registered.borrow().len(), 1);
}

#[test]
fn interactive_add_cancellation_stops_before_cloning_later_repositories() {
    let store = RecordingStore::new();
    let git = FakeGit::new();
    let mut interaction = QueueInteraction::new(vec![Err(InteractionError::Cancelled)], vec![]);
    let outcome = clone_many_with_interaction(
        &store,
        &git,
        &FakeHooks::default(),
        &mut interaction,
        "config",
        &vec!["github.com/org/one".to_owned(), "github.com/org/two".to_owned()],
        HOME,
    )
    .unwrap();
    assert!(outcome.cancelled);
    assert_eq!(outcome.outcomes.len(), 1);
    assert_eq!(git.cloned.borrow().len(), 1);
}

#[test]
fn clone_batch_continues_after_independent_failure() {
    let store = FakeStore { config: config() };
    let git = FakeGit::new();
    let hooks = FakeHooks::default();
    let references = vec!["github.com/org/bad".to_owned(), "github.com/org/good".to_owned()];
    let outcome = clone_many(&store, &git, &hooks, "config", &references, false, None, HOME).unwrap();
    assert!(outcome.failed());
    assert_eq!(outcome.outcomes.len(), 2);
    assert_eq!(git.cloned.borrow().len(), 1);
}

#[test]
fn clone_reports_each_outcome_in_order() {
    let store = FakeStore { config: config() };
    let git = FakeGit::new();
    let references = vec!["github.com/org/bad".to_owned(), "nonsense".to_owned(), "github.com/org/good".to_owned()];
    let outcome = clone_many(&store, &git, &FakeHooks::default(), "config", &references, false, None, HOME).unwrap();
    assert_eq!(outcome.outcomes[0].status, OperationStatus::Failed("clone failed".to_owned()));
    assert!(matches!(&outcome.outcomes[1].status, OperationStatus::Failed(error) if error.contains("malformed")));
    assert_eq!(outcome.outcomes[2].status, OperationStatus::Cloned);
    assert_eq!(git.cloned.borrow().as_slice(), ["git@github.com:org/good.git"]);
}

#[test]
fn ensure_reports_clone_start_before_git_and_success_afterward() {
    let mut config = config();
    config.repositories.push(declaration("github.com/org/good", None, &[]));
    let store = FakeStore { config };
    let events = RefCell::new(Vec::new());
    let git = EventGit { events: &events };
    let mut reporter = RecordingEnsureReporter { events: &events };

    let outcome = ensure(&store, &git, &FakeHooks::default(), &NoProviders, "config", false, HOME, &mut reporter).unwrap();

    assert!(!outcome.failed());
    assert_eq!(
        events.into_inner(),
        [
            "start:git@github.com:org/good.git:/tmp/lager-test-home/repos/org/good",
            "git:git@github.com:org/good.git",
            "success:git@github.com:org/good.git",
        ]
    );
}

#[test]
fn ensure_keeps_declaration_order_and_runs_explicit_hook_after_clone() {
    let mut config = config();
    config.repositories.push(declaration("github.com/org/good", Some("printf hook"), &[]));
    let store = FakeStore { config };
    let git = FakeGit::new();
    let hooks = FakeHooks::default();
    let events = RefCell::new(Vec::new());
    let mut reporter = RecordingEnsureReporter { events: &events };
    let outcome = ensure(&store, &git, &hooks, &NoProviders, "config", false, HOME, &mut reporter).unwrap();
    assert!(!outcome.failed());
    assert_eq!(hooks.commands.borrow().as_slice(), ["printf hook"]);
}

struct OrdinaryFailure;

impl GitClient for OrdinaryFailure {
    fn clone_repository(&self, _: &str, _: &str, _: &str, _: &str) -> Result<(), String> {
        Err("cancelled".to_owned())
    }

    fn is_cancelled(&self, _error: &String) -> bool {
        false
    }
}

impl GitState for OrdinaryFailure {
    fn classify_destination(&self, _: &str, _: &str) -> LocalState {
        LocalState::Missing
    }
}

impl HookRunner for OrdinaryFailure {
    fn run_hook(&self, _: &str, _: &str) -> Result<(), String> {
        Err("operation cancelled by ordinary error text".to_owned())
    }

    fn is_cancelled(&self, _error: &String) -> bool {
        false
    }
}

#[test]
fn ordinary_error_text_cancelled_does_not_stop_clone_entry_points() {
    let store = FakeStore { config: config() };
    let references = vec!["github.com/org/one".to_owned(), "github.com/org/two".to_owned()];
    let parsed = references.iter().map(|value| RepositoryRef::parse(value).unwrap()).collect::<Vec<_>>();
    let path = "config";
    let mut interaction = QueueInteraction::new(vec![], vec![]);
    let outcomes = [
        clone_many(&store, &OrdinaryFailure, &OrdinaryFailure, path, &references, false, None, HOME).unwrap(),
        clone_references(&store, &OrdinaryFailure, &OrdinaryFailure, path, &parsed, false, None, HOME).unwrap(),
        clone_many_with_interaction(&store, &OrdinaryFailure, &OrdinaryFailure, &mut interaction, path, &references, HOME).unwrap(),
        clone_references_with_interaction(&store, &OrdinaryFailure, &OrdinaryFailure, &mut interaction, path, &parsed, HOME)
            .unwrap(),
        clone_many(&store, &FakeGit::new(), &OrdinaryFailure, path, &references, true, Some("hook"), HOME).unwrap(),
    ];
    for outcome in outcomes {
        assert!(!outcome.cancelled, "{outcome:?}");
        assert!(outcome.failed());
        assert_eq!(outcome.outcomes.len(), 2);
        assert!(outcome
            .outcomes
            .iter()
            .all(|outcome| matches!(&outcome.status, OperationStatus::Failed(error) if error.contains("cancelled"))));
    }
    assert!(interaction.prompts.is_empty());
}

struct ClonedGit;

impl GitState for ClonedGit {
    fn classify_destination(&self, _: &str, _: &str) -> LocalState {
        LocalState::Cloned
    }
}

#[test]
fn hook_runs_the_declared_command_of_a_cloned_repository() {
    let mut config = config();
    config.repositories.push(declaration("github.com/org/good", Some("make"), &[]));
    let hooks = FakeHooks::default();
    let outcome =
        hook(&FakeStore { config }, &ClonedGit, &hooks, "config", &vec!["github.com/org/good".to_owned()], HOME).unwrap();
    assert_eq!(outcome.outcomes[0].status, OperationStatus::Hooked);
    assert_eq!(hooks.commands.borrow().as_slice(), ["make"]);
}

struct UnaskedProviders;

impl ProviderCatalog for UnaskedProviders {
    fn catalog(&self, _include_archived: bool) -> Result<Vec<RepositorySummary>, String> {
        panic!("the provider catalog was asked")
    }

    fn expand(&self, _reference: &RepositoryRef, _include_archived: bool) -> Result<Vec<RepositorySummary>, String> {
        panic!("a provider expansion was asked")
    }
}

struct ListedCatalog {
    listed: Vec<RepositorySummary>,
}

impl ProviderCatalog for ListedCatalog {
    fn catalog(&self, _include_archived: bool) -> Result<Vec<RepositorySummary>, String> {
        Ok(self.listed.clone())
    }

    fn expand(&self, _reference: &RepositoryRef, _include_archived: bool) -> Result<Vec<RepositorySummary>, String> {
        Ok(vec![])
    }
}

#[test]
fn hook_picker_offers_each_explicit_declaration_once_without_providers() {
    let mut config = config();
    config.repositories = vec![
        declaration("github.com/org/b", None, &[]),
        declaration("github.com/org/*", None, &[]),
        declaration("github.com/org/a", Some("make"), &[]),
        declaration("github.com/org/b", None, &[]),
    ];
    let report = picker_config(&config, &FakeGit::new(), &UnaskedProviders, PickerContext::Hook, false, HOME).unwrap();

    let shown: Vec<&str> = report.candidates.iter().map(|candidate| candidate.display.as_str()).collect();
    assert_eq!(shown, ["github.com/org/b", "github.com/org/a"]);
    assert!(report.provider_errors.is_empty());
    assert!(report.candidates.iter().all(|candidate| !candidate.archived && candidate.exact_path.is_none()));
}

#[test]
fn register_picker_leaves_out_explicit_declarations() {
    let mut config = config();
    config.repositories = vec![declaration("github.com/org/a", None, &[])];
    let catalog = ListedCatalog { listed: vec![summary("github.com/org/a", false), summary("github.com/org/c", false)] };
    let report = picker_config(&config, &FakeGit::new(), &catalog, PickerContext::Register, false, HOME).unwrap();

    let shown: Vec<&str> = report.candidates.iter().map(|candidate| candidate.display.as_str()).collect();
    assert_eq!(shown, ["github.com/org/c"]);
}

#[test]
fn offline_list_of_a_loaded_configuration_matches_the_loaded_list() {
    let mut config = config();
    config.repositories = vec![
        declaration("github.com/org/explicit", Some("hook"), &[]),
        declaration("github.com/org/*", None, &["skip"]),
    ];
    let report = list_config(&config, &FakeGit::new(), &UnaskedProviders, false, false, HOME).unwrap();

    assert_eq!(report.schema_version, 1);
    assert_eq!(report.repositories.len(), 2);
    assert_eq!(report.repositories[0].identity, "github.com/org/explicit");
    assert_eq!(report.repositories[0].state, Some(LocalState::Missing));
    assert_eq!(report.repositories[1].pattern.as_deref(), Some("github.com/org/*"));
    assert_eq!(report.repositories[1].state, None);
    assert!(report.provider_errors.is_empty());
}

#[test]
fn hook_of_a_loaded_configuration_refuses_undeclared_and_wildcard_references() {
    let mut config = config();
    config.repositories = vec![declaration("github.com/org/explicit", Some("make"), &[])];
    let references = vec!["github.com/org/other".to_owned(), "github.com/org/*".to_owned()];
    let batch = hook_config(&FakeGit::new(), &FakeHooks::default(), &config, &references, HOME);

    assert_eq!(batch.outcomes.len(), 2);
    assert!(!batch.cancelled);
    assert!(matches!(&batch.outcomes[0].status, OperationStatus::Failed(error) if error == "repository is not an explicit declaration"));
    assert!(matches!(&batch.outcomes[1].status, OperationStatus::Failed(error) if error == "wildcard references cannot be hooked directly"));
}

#[test]
fn removal_steps_follow_each_answer() {
    let declined = removal_step(&RemovalStage::Confirmed, &RemovalAnswer::Confirmed(Ok(false)));
    assert!(matches!(declined, RemovalNext::Stop(RemovalStatus::Skipped)));
    let cancelled = removal_step(&RemovalStage::Confirmed, &RemovalAnswer::Confirmed(Err(InteractionError::Cancelled)));
    assert!(matches!(cancelled, RemovalNext::Stop(RemovalStatus::Failed(ref m)) if m == "cancelled"));
    let unreadable = removal_step(&RemovalStage::Located { selected: false }, &RemovalAnswer::Exists(Err("permission denied".to_owned())));
    assert!(matches!(unreadable, RemovalNext::Stop(RemovalStatus::Failed(ref m)) if m == "permission denied"));
    let absent = removal_step(&RemovalStage::Located { selected: false }, &RemovalAnswer::Exists(Ok(false)));
    assert!(matches!(absent, RemovalNext::Absent));
    let vanished = removal_step(&RemovalStage::Located { selected: true }, &RemovalAnswer::Exists(Ok(false)));
    assert!(matches!(vanished, RemovalNext::Stop(RemovalStatus::Failed(ref m)) if m == "selected clone path no longer exists"));
    let warned = removal_step(&RemovalStage::Inspected { force: false }, &RemovalAnswer::Warnings(Ok(vec!["stashes".to_owned()])));
    assert!(matches!(warned, RemovalNext::AskForce));
    let changed = removal_step(
        &RemovalStage::Reinspected { force: false, reviewed: vec!["stashes".to_owned()] },
        &RemovalAnswer::Warnings(Ok(vec!["stashes".to_owned(), "untracked files".to_owned()])),
    );
    assert!(matches!(changed, RemovalNext::Stop(RemovalStatus::Failed(ref m)) if m == "local state changed before deletion"));
    let failed_delete = removal_step(&RemovalStage::Deleted, &RemovalAnswer::Done(Err("busy".to_owned())));
    assert!(matches!(failed_delete, RemovalNext::Stop(RemovalStatus::Failed(ref m)) if m == "busy"));
    let kept = removal_step(&RemovalStage::RemovedChoice, &RemovalAnswer::Choice(Ok(false)));
    assert!(matches!(kept, RemovalNext::Stop(RemovalStatus::Removed)));
}

#[test]
fn only_the_ports_cancellation_cancels_a_clone() {
    let ordinary = clone_step(&CloneStage::Cloned, &CloneAnswer::Clone(Err("cancelled".to_owned()), false));
    assert!(matches!(ordinary, CloneNext::Stop(OperationStatus::Failed(ref m), false) if m == "cancelled"));
    let cancelled = clone_step(&CloneStage::Hooked, &CloneAnswer::Hook(Err("exit 130".to_owned()), true));
    assert!(matches!(cancelled, CloneNext::Stop(OperationStatus::Failed(ref m), true) if m == "exit 130"));
    let unpersisted = clone_step(&CloneStage::Registered, &CloneAnswer::Register(Err("locked".to_owned())));
    assert!(matches!(unpersisted, CloneNext::Stop(OperationStatus::Failed(ref m), false) if m == "could not persist declaration: locked"));
    assert!(matches!(clone_step(&CloneStage::Classified, &CloneAnswer::State(LocalState::Missing)), CloneNext::CloneNow));
    assert!(matches!(clone_step(&CloneStage::Hooked, &CloneAnswer::Hook(Ok(()), false)), CloneNext::Stop(OperationStatus::Cloned, false)));
}

#[test]
fn interactive_registration_steps_follow_each_answer() {
    assert!(matches!(add_step(&AddStage::Asked, &AddAnswer::Register(Ok(false))), AddNext::Done));
    assert!(matches!(add_step(&AddStage::HookChosen, &AddAnswer::Hook(Err(InteractionError::Cancelled))), AddNext::Cancel));
    assert!(matches!(add_step(&AddStage::Persisted { fresh: true, hooked: true }, &AddAnswer::Stored(Ok(vec![]))), AddNext::Go));
    assert!(matches!(add_step(&AddStage::Persisted { fresh: false, hooked: true }, &AddAnswer::Stored(Ok(vec![]))), AddNext::Done));
    let cancelled_hook = add_step(&AddStage::HookRan, &AddAnswer::Ran(Err("exit 130".to_owned()), true));
    assert!(matches!(cancelled_hook, AddNext::FailAndCancel(ref m) if m == "exit 130"));
}

#[test]
fn a_failed_expansion_is_reported_under_its_host_and_lists_nothing() {
    let mut seen = vec![];
    let answer = lager::application::warehouse::listed_members(
        "github.com", Err("offline".to_owned()), "org", &vec![], &vec![], false, &mut seen,
    );
    let error = answer.unwrap().unwrap_err();
    assert_eq!(error.provider, "github.com");
    assert_eq!(error.error, "offline");
    assert!(seen.is_empty());

    let expansion = vec![
        summary("github.com/org/skip", false),
        summary("github.com/org/explicit", false),
        summary("github.com/org/member", true),
        summary("github.com/org/member", true),
    ];
    let explicit = vec!["github.com/org/explicit".chars().collect::<Vec<char>>()];
    let members = lager::application::warehouse::listed_members(
        "github.com", Ok(expansion), "org", &vec!["skip".to_owned()], &explicit, true, &mut seen,
    )
    .unwrap()
    .unwrap();
    assert_eq!(members.len(), 1);
    assert_eq!(members[0].reference.identity(), "github.com/org/member");
    assert!(members[0].archived);
}

#[test]
fn picker_expansions_offer_kept_members_for_unregister() {
    let mut summaries = vec![];
    let mut effective = vec![];
    let failure = lager::application::warehouse::picker_expansion(
        PickerContext::Unregister,
        "github.com",
        Ok(vec![summary("github.com/org/a", false), summary("github.com/org/old", true), summary("github.com/org/skip", false)]),
        &vec!["skip".to_owned()],
        "org",
        false,
        &mut summaries,
        &mut effective,
    );
    assert!(failure.is_none());
    assert_eq!(summaries.len(), 1);
    assert_eq!(summaries[0].reference.identity(), "github.com/org/a");
    assert!(effective.is_empty());
}

#[test]
fn the_root_itself_and_paths_outside_it_are_not_deletion_targets() {
    assert_eq!(removal_placement("/home/u/repos", "/home/u/repos"), Err("refusing to remove configured root".to_owned()));
    assert_eq!(removal_placement("/home/u/elsewhere/x", "/home/u/repos"), Err("destination escapes configured root".to_owned()));
    assert_eq!(removal_placement("/home/u/repos/org/x", "/home/u/repos"), Ok(()));
}
