use std::cell::RefCell;
use std::collections::VecDeque;

use lager::application::configuration::{init, init_diagnostics, missing_tool_messages, portable_root, resolve_init_choices};
use lager::application::ports::{ConfigStore, ConfigurationFilesystem, Interaction, InteractionError, Mutation, ToolInspector};
use lager::domain::config::Config;

struct Store {
    existing: bool,
    initialised: RefCell<Vec<(String, String, bool)>>,
}

impl Store {
    fn new(existing: bool) -> Self {
        Store { existing, initialised: RefCell::new(Vec::new()) }
    }
}

impl ConfigStore for Store {
    fn exists_at(&self, _path: &str) -> bool {
        self.existing
    }

    fn load(&self, _path: &str) -> Result<Config, String> {
        unreachable!()
    }

    fn init(&self, path: &str, root: &str, github: bool) -> Result<(), String> {
        self.initialised.borrow_mut().push((path.to_owned(), root.to_owned(), github));
        Ok(())
    }

    fn register(&self, _path: &str, _references: &Vec<String>, _post_clone: Option<&str>) -> Result<Vec<Mutation>, String> {
        unreachable!()
    }

    fn remove(&self, _path: &str, _references: &Vec<String>) -> Result<Vec<Mutation>, String> {
        unreachable!()
    }
}

#[derive(Default)]
struct RecordingFilesystem(RefCell<Vec<String>>);

impl ConfigurationFilesystem for RecordingFilesystem {
    fn create_dir_all(&self, path: &str) -> Result<(), String> {
        self.0.borrow_mut().push(path.to_owned());
        Ok(())
    }
}

struct FailingFilesystem;

impl ConfigurationFilesystem for FailingFilesystem {
    fn create_dir_all(&self, _path: &str) -> Result<(), String> {
        Err("permission denied".to_owned())
    }
}

#[derive(Default)]
struct FakeInteraction {
    confirms: VecDeque<Result<bool, InteractionError>>,
    inputs: VecDeque<Result<String, InteractionError>>,
    calls: Vec<String>,
}

impl Interaction for FakeInteraction {
    fn confirm(&mut self, message: &str, default: bool) -> Result<bool, InteractionError> {
        self.calls.push(format!("confirm:{message}:{default}"));
        self.confirms.pop_front().expect("confirmation answer")
    }

    fn input(&mut self, message: &str, placeholder: &str, default: Option<&str>) -> Result<String, InteractionError> {
        self.calls.push(format!("input:{message}:{placeholder}:{default:?}"));
        self.inputs.pop_front().expect("input answer")
    }
}

#[test]
fn interactive_init_asks_only_for_omitted_choices() {
    let mut interaction = FakeInteraction {
        confirms: [Ok(true), Ok(false)].into(),
        inputs: [Ok("work/repos".to_owned())].into(),
        ..FakeInteraction::default()
    };
    let choices = resolve_init_choices(None, None, None, true, &mut interaction).unwrap();
    assert_eq!(choices.root, "work/repos");
    assert!(choices.create_root);
    assert!(!choices.github);
    assert_eq!(
        interaction.calls,
        [
            "input:Where should repositories be stored?:repos:Some(\"repos\")",
            "confirm:Create the repository root if it is missing?:true",
            "confirm:Configure GitHub repository discovery?:true"
        ]
    );
}

#[test]
fn non_interactive_init_rejects_an_omitted_choice_without_prompting() {
    let mut interaction = FakeInteraction::default();
    let error = resolve_init_choices(Some("repos"), Some(true), None, false, &mut interaction).unwrap_err();
    assert!(matches!(
        error,
        InteractionError::Failed(message) if message.contains("outside a TTY")
    ));
    assert!(interaction.calls.is_empty());
}

#[test]
fn init_cancellation_is_preserved() {
    let mut interaction = FakeInteraction {
        inputs: [Err(InteractionError::Cancelled)].into(),
        ..FakeInteraction::default()
    };
    assert_eq!(resolve_init_choices(None, None, None, true, &mut interaction), Err(InteractionError::Cancelled));
    assert!(interaction.confirms.is_empty());
}

struct MissingTools;

impl ToolInspector for MissingTools {
    fn command_available(&self, _name: &str) -> bool {
        false
    }

    fn github_authenticated(&self) -> bool {
        false
    }
}

struct AllTools;

impl ToolInspector for AllTools {
    fn command_available(&self, _name: &str) -> bool {
        true
    }

    fn github_authenticated(&self) -> bool {
        true
    }
}

#[test]
fn init_diagnostics_report_missing_tools_without_becoming_an_error() {
    assert_eq!(
        init_diagnostics(&MissingTools, true),
        [
            "git is not available; install git before adding repositories",
            "fzf is not available; install fzf for interactive repository selection",
            "authenticated gh is not available; install gh and run `gh auth login`"
        ]
    );
    assert_eq!(init_diagnostics(&MissingTools, false).len(), 2);
}

#[test]
fn init_diagnostics_are_empty_when_every_tool_is_there() {
    assert!(init_diagnostics(&AllTools, true).is_empty());
    assert_eq!(missing_tool_messages(true, false, true), ["fzf is not available; install fzf for interactive repository selection"]);
}

#[test]
fn init_routes_root_creation_through_the_filesystem_port() {
    let filesystem = RecordingFilesystem::default();
    init(&Store::new(false), &filesystem, "config.toml", "repos/team", true, false, "/home/test").unwrap();
    assert_eq!(filesystem.0.into_inner(), ["/home/test/repos/team"]);
}

#[test]
fn init_persists_an_absolute_root_below_home_portably() {
    let store = Store::new(false);
    let filesystem = RecordingFilesystem::default();
    init(&store, &filesystem, "config.toml", "/home/test/code", false, true, "/home/test").unwrap();
    assert!(filesystem.0.into_inner().is_empty());
    assert_eq!(store.initialised.into_inner(), [("config.toml".to_owned(), "~/code".to_owned(), true)]);
}

#[test]
fn init_refuses_an_existing_configuration() {
    let filesystem = RecordingFilesystem::default();
    assert_eq!(
        init(&Store::new(true), &filesystem, "config.toml", "repos", true, false, "/home/test"),
        Err("config already exists".to_owned())
    );
    assert!(filesystem.0.into_inner().is_empty());
}

#[test]
fn init_reports_a_root_that_cannot_be_created() {
    assert_eq!(
        init(&Store::new(false), &FailingFilesystem, "config.toml", "repos", true, false, "/home/test"),
        Err("could not create root: permission denied".to_owned())
    );
}

#[test]
fn portable_root_keeps_relative_roots_and_rewrites_home() {
    assert_eq!(portable_root("repos", "/home/test"), Ok("repos".to_owned()));
    assert_eq!(portable_root("/home/test", "/home/test"), Ok("~".to_owned()));
    assert_eq!(portable_root("/home/test//a/b", "/home/test"), Ok("~/a/b".to_owned()));
    assert_eq!(
        portable_root("/srv/repos", "/home/test"),
        Err("--root must be under HOME when persisted".to_owned())
    );
}

#[test]
fn init_plan_persists_a_root_below_home_as_a_tilde_path() {
    assert_eq!(
        lager::application::configuration::init_plan("/home/u/repos", "/home/u"),
        Ok(("~/repos".to_owned(), "/home/u/repos".to_owned()))
    );
    assert_eq!(
        lager::application::configuration::init_plan("/elsewhere", "/home/u"),
        Err("--root must be under HOME when persisted".to_owned())
    );
}

#[test]
fn init_steps_refuse_an_existing_configuration_and_keep_the_stores_answer() {
    let existing = lager::application::configuration::init_step(
        &lager::application::configuration::InitStage::Checked,
        &lager::application::configuration::InitAnswer::Exists(true),
    );
    assert!(matches!(existing, lager::application::configuration::InitNext::Finish(Err(ref m)) if m == "config already exists"));
    let uncreated = lager::application::configuration::init_step(
        &lager::application::configuration::InitStage::Created,
        &lager::application::configuration::InitAnswer::Created(Err("read-only".to_owned())),
    );
    assert!(matches!(uncreated, lager::application::configuration::InitNext::Finish(Err(ref m)) if m == "could not create root: read-only"));
    let written = lager::application::configuration::init_step(
        &lager::application::configuration::InitStage::Written,
        &lager::application::configuration::InitAnswer::Written(Ok(())),
    );
    assert!(matches!(written, lager::application::configuration::InitNext::Finish(Ok(()))));
}
