use std::cell::RefCell;
use std::collections::VecDeque;

use lager::application::ports::{AtomicRegistrationStore, ConfigStore, Interaction, InteractionError, Mutation, RegistrationRequest};
use lager::application::registry::{register_batch, register_many, registration_choice, RegistrationError};
use lager::domain::config::{Config, RepositoryDeclaration};

#[derive(Default)]
struct FakeInteraction {
    confirms: VecDeque<Result<bool, InteractionError>>,
    inputs: VecDeque<Result<String, InteractionError>>,
    calls: Vec<String>,
}

impl Interaction for FakeInteraction {
    fn confirm(&mut self, message: &str, default: bool) -> Result<bool, InteractionError> {
        self.calls.push(format!("confirm:{message}:{default}"));
        self.confirms.pop_front().expect("confirmation answer")
    }

    fn input(&mut self, message: &str, placeholder: &str, default: Option<&str>) -> Result<String, InteractionError> {
        self.calls.push(format!("input:{message}:{placeholder}:{default:?}"));
        self.inputs.pop_front().expect("input answer")
    }
}

#[test]
fn interactive_registration_asks_for_each_hook_with_no_default() {
    let mut interaction = FakeInteraction {
        confirms: [Ok(false), Ok(true)].into(),
        inputs: [Ok("  make setup && printf 'x y'  ".to_owned())].into(),
        ..FakeInteraction::default()
    };

    assert_eq!(registration_choice("github.com/org/one", None, true, &mut interaction).unwrap(), None);
    assert_eq!(
        registration_choice("github.com/org/two", None, true, &mut interaction).unwrap(),
        Some("  make setup && printf 'x y'  ".to_owned())
    );
    assert_eq!(
        interaction.calls,
        [
            "confirm:Configure a post-clone hook for github.com/org/one?:false",
            "confirm:Configure a post-clone hook for github.com/org/two?:false",
            "input:Post-clone command for github.com/org/two?:Command:None"
        ]
    );
}

#[test]
fn explicit_hook_and_non_interactive_registration_do_not_prompt() {
    let mut interaction = FakeInteraction::default();
    assert_eq!(
        registration_choice("github.com/org/repo", Some(" printf exact "), true, &mut interaction).unwrap(),
        Some(" printf exact ".to_owned())
    );
    assert_eq!(registration_choice("github.com/org/repo", None, false, &mut interaction).unwrap(), None);
    assert!(interaction.calls.is_empty());
}

struct RecordingStore(RefCell<Vec<String>>);

impl ConfigStore for RecordingStore {
    fn exists_at(&self, _path: &str) -> bool {
        true
    }

    fn load(&self, _path: &str) -> Result<Config, String> {
        unreachable!()
    }

    fn init(&self, _path: &str, _root: &str, _github: bool) -> Result<(), String> {
        unreachable!()
    }

    fn register(&self, _path: &str, references: &Vec<String>, _post_clone: Option<&str>) -> Result<Vec<Mutation>, String> {
        self.0.borrow_mut().extend_from_slice(references);
        Ok(vec![Mutation::Changed; references.len()])
    }

    fn remove(&self, _path: &str, _references: &Vec<String>) -> Result<Vec<Mutation>, String> {
        unreachable!()
    }
}

struct UnsafeAtomicStore;

impl ConfigStore for UnsafeAtomicStore {
    fn exists_at(&self, _: &str) -> bool {
        true
    }

    fn load(&self, _: &str) -> Result<Config, String> {
        Ok(Config {
            root: "repos".into(),
            providers: Vec::new(),
            repositories: vec![RepositoryDeclaration {
                url: "ftp://SENTINEL@example.invalid/org/repo".into(),
                post_clone: None,
                exclude: vec![],
            }],
        })
    }

    fn init(&self, _: &str, _: &str, _: bool) -> Result<(), String> {
        unreachable!()
    }

    fn register(&self, _: &str, _: &Vec<String>, _: Option<&str>) -> Result<Vec<Mutation>, String> {
        unreachable!()
    }

    fn remove(&self, _: &str, _: &Vec<String>) -> Result<Vec<Mutation>, String> {
        unreachable!()
    }
}

impl AtomicRegistrationStore for UnsafeAtomicStore {
    fn register_batch(&self, _: &str, _: &Vec<RegistrationRequest>) -> Result<Vec<Mutation>, String> {
        panic!("unsafe config reached commit")
    }
}

#[test]
fn atomic_registration_validates_loaded_config_before_interaction() {
    let mut interaction = FakeInteraction::default();
    let result = register_batch(&UnsafeAtomicStore, "config", &vec!["org/repo".into()], None, true, &mut interaction);
    assert!(matches!(result, Err(RegistrationError::Store(_))));
    assert!(interaction.calls.is_empty());
    assert!(!format!("{result:?}").contains("SENTINEL"));
}

#[test]
fn legacy_registration_keeps_writes_before_ordinary_malformed_input() {
    let store = RecordingStore(RefCell::new(Vec::new()));
    let result = register_many(
        &store,
        "config",
        &vec!["org/first".to_owned(), "malformed".to_owned()],
        None,
        false,
        &mut FakeInteraction::default(),
    );
    assert!(result.is_err());
    assert_eq!(store.0.borrow().as_slice(), ["org/first"]);
}

#[test]
fn register_cancellation_stops_before_later_config_mutation() {
    let store = RecordingStore(RefCell::new(Vec::new()));
    let mut interaction = FakeInteraction {
        confirms: [Ok(false), Err(InteractionError::Cancelled), Ok(false)].into(),
        ..FakeInteraction::default()
    };
    let result = register_many(
        &store,
        "config",
        &vec!["github.com/org/one".to_owned(), "github.com/org/two".to_owned(), "github.com/org/three".to_owned()],
        None,
        true,
        &mut interaction,
    );
    assert_eq!(result, Err(RegistrationError::Cancelled));
    assert_eq!(store.0.borrow().as_slice(), ["github.com/org/one"]);
    assert_eq!(interaction.confirms.len(), 1);
}

#[test]
fn registration_cancellation_is_not_converted_to_an_answer() {
    let mut interaction = FakeInteraction {
        confirms: [Err(InteractionError::Cancelled)].into(),
        ..FakeInteraction::default()
    };
    assert_eq!(registration_choice("github.com/org/repo", None, true, &mut interaction), Err(InteractionError::Cancelled));
    assert!(interaction.inputs.is_empty());
}

#[test]
fn unsafe_references_stop_registration_before_any_write() {
    let store = RecordingStore(RefCell::new(Vec::new()));
    let result = register_many(
        &store,
        "config",
        &vec!["org/first".to_owned(), "https://user:pw@github.com/org/x".to_owned()],
        None,
        false,
        &mut FakeInteraction::default(),
    );
    assert_eq!(
        result,
        Err(RegistrationError::Store("repository reference is malformed: repository URL must not contain credentials".to_owned()))
    );
    assert!(store.0.borrow().is_empty());
}

#[test]
fn atomic_registration_refuses_an_unparsable_reference_first() {
    let mut interaction = FakeInteraction::default();
    assert_eq!(
        register_batch(&UnsafeAtomicStore, "config", &vec!["nonsense".into()], None, true, &mut interaction),
        Err(RegistrationError::Store("repository reference is invalid".to_owned()))
    );
}

#[test]
fn a_malformed_reference_is_reported_by_the_choice() {
    let mut interaction = FakeInteraction::default();
    assert!(matches!(
        registration_choice("nonsense", None, true, &mut interaction),
        Err(InteractionError::Failed(message)) if message.starts_with("repository reference is malformed")
    ));
}

#[test]
fn a_batch_against_an_invalid_configuration_is_refused_before_any_question() {
    let mut interaction = FakeInteraction::default();
    let config = Config { root: String::new(), providers: Vec::new(), repositories: Vec::new() };
    let references = vec!["github.com/org/repo".to_owned()];
    let refused = lager::application::registry::batch_requests(&config, &references, None, true, &mut interaction);
    assert!(matches!(refused, Err(RegistrationError::Store(message)) if message == "config root cannot be empty"));
    assert!(interaction.calls.is_empty());

    let valid = Config { root: "repos".to_owned(), providers: Vec::new(), repositories: Vec::new() };
    let requests = lager::application::registry::batch_requests(&valid, &references, Some("make"), true, &mut interaction).unwrap();
    assert_eq!(requests.len(), 1);
    assert_eq!(requests[0].reference, "github.com/org/repo");
    assert_eq!(requests[0].post_clone.as_deref(), Some("make"));
    assert!(interaction.calls.is_empty());
}

#[test]
fn the_batch_write_answer_is_the_registration_result() {
    assert_eq!(lager::application::registry::batch_answer(Ok(vec![Mutation::Changed])), Ok(vec![Mutation::Changed]));
    assert!(matches!(lager::application::registry::batch_answer(Err("locked".to_owned())), Err(RegistrationError::Store(m)) if m == "locked"));
}

#[test]
fn legacy_registration_reports_a_malformed_reference_as_an_interaction_error() {
    let store = RecordingStore(RefCell::new(Vec::new()));
    let result = register_many(
        &store,
        "config",
        &vec!["org/first".to_owned(), "malformed".to_owned(), "org/third".to_owned()],
        Some("make"),
        true,
        &mut FakeInteraction::default(),
    );
    assert!(matches!(result, Err(RegistrationError::Interaction(_))));
    assert_eq!(store.0.borrow().as_slice(), ["org/first"]);
}

#[test]
fn registration_error_keeps_cancellation_and_failure_text() {
    assert_eq!(lager::application::registry::registration_error(InteractionError::Cancelled), RegistrationError::Cancelled);
    assert_eq!(
        lager::application::registry::registration_error(InteractionError::Failed("no terminal".to_owned())),
        RegistrationError::Interaction("no terminal".to_owned())
    );
}
