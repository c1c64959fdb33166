use std::cell::RefCell;
use std::rc::Rc;

use lager::application::ports::{Interaction, InteractionError};
use lager::terminal::{
    enter_after_restore, input_answer, input_hint, interaction_error, prompt_eligible, require_terminal, start_with_loading,
    RestoreSteps, StartupError, TerminalRestore,
};

struct FakeInteraction {
    answers: Vec<Result<bool, InteractionError>>,
    prompts: Vec<(String, bool)>,
}

impl Interaction for FakeInteraction {
    fn confirm(&mut self, message: &str, default: bool) -> Result<bool, InteractionError> {
        self.prompts.push((message.to_owned(), default));
        self.answers.remove(0)
    }

    fn input(&mut self, _message: &str, _placeholder: &str, _default: Option<&str>) -> Result<String, InteractionError> {
        unreachable!()
    }
}

#[test]
fn redirected_interaction_is_rejected_before_cliclack_rendering() {
    assert_eq!(require_terminal(false, true), Err(InteractionError::Failed("interactive prompt requires a TTY".to_owned())));
}

#[test]
fn fake_interaction_records_question_and_default() {
    let mut fake = FakeInteraction { answers: vec![Ok(true)], prompts: Vec::new() };
    assert_eq!(fake.confirm("register?", true), Ok(true));
    assert_eq!(fake.prompts, [("register?".to_owned(), true)]);
}

#[test]
fn fake_interaction_preserves_cancellation() {
    let mut fake = FakeInteraction { answers: vec![Err(InteractionError::Cancelled)], prompts: Vec::new() };
    assert_eq!(fake.confirm("register?", true), Err(InteractionError::Cancelled));
}

#[test]
fn prompts_require_both_input_and_render_terminals() {
    assert!(prompt_eligible(true, true));
    assert!(!prompt_eligible(true, false));
    assert!(!prompt_eligible(false, true));
    assert!(!prompt_eligible(false, false));
}

#[test]
fn both_terminals_allow_prompting() {
    assert_eq!(require_terminal(true, true), Ok(()));
    assert_eq!(require_terminal(true, false), Err(InteractionError::Failed("interactive prompt requires a TTY".to_owned())));
}

#[test]
fn an_interrupted_prompt_is_a_cancellation() {
    assert_eq!(interaction_error(true, "ignored".to_owned()), InteractionError::Cancelled);
    assert_eq!(interaction_error(false, "broken pipe".to_owned()), InteractionError::Failed("broken pipe".to_owned()));
}

#[test]
fn input_hint_and_answer_fall_back_to_the_default() {
    assert_eq!(input_hint("repos", Some("other")), "repos");
    assert_eq!(input_hint("", Some("other")), "other");
    assert_eq!(input_hint("", None), "");
    assert_eq!(input_answer(String::new(), Some("repos")), "repos");
    assert_eq!(input_answer("typed".to_owned(), Some("repos")), "typed");
    assert_eq!(input_answer(String::new(), None), "");
}

#[derive(Clone)]
struct RestoreProbe(Rc<RefCell<Vec<&'static str>>>);

impl Drop for RestoreProbe {
    fn drop(&mut self) {
        self.0.borrow_mut().push("restored");
    }
}

struct FakeTerminal {
    restore: Option<RestoreProbe>,
}

impl Drop for FakeTerminal {
    fn drop(&mut self) {
        self.restore.take();
    }
}

#[test]
fn constructor_failure_restores_after_acquisition_without_starting_scan() {
    let events = Rc::new(RefCell::new(Vec::new()));
    let scan_started = Rc::new(RefCell::new(false));
    let acquired_events = Rc::clone(&events);
    let restore_events = Rc::clone(&events);
    let scan_started_for_start = Rc::clone(&scan_started);

    let result = start_with_loading(
        move || {
            enter_after_restore(
                move || {
                    acquired_events.borrow_mut().push("acquired");
                    Ok(RestoreProbe(restore_events))
                },
                || Err::<FakeTerminal, _>("constructor failed".to_owned()),
            )
            .map(|(restore, _terminal)| FakeTerminal { restore: Some(restore) })
        },
        |_terminal| Ok(()),
        move || *scan_started_for_start.borrow_mut() = true,
    );

    assert!(matches!(result, Err(StartupError::Enter(error)) if error == "constructor failed"));
    assert_eq!(&*events.borrow(), &["acquired", "restored"]);
    assert!(!*scan_started.borrow());
}

#[test]
fn partial_restore_flags_only_release_acquired_terminal_state() {
    let mut raw_only = TerminalRestore { raw: true, alternate: false };
    assert_eq!(raw_only.restore(), RestoreSteps { leave_alternate: false, disable_raw: true });
    assert!(!raw_only.raw);
    assert!(!raw_only.alternate);

    let mut alternate_only = TerminalRestore { raw: false, alternate: true };
    assert_eq!(alternate_only.restore(), RestoreSteps { leave_alternate: true, disable_raw: false });
    assert!(!alternate_only.raw);
    assert!(!alternate_only.alternate);
    assert_eq!(alternate_only.restore(), RestoreSteps { leave_alternate: false, disable_raw: false });
}

#[test]
fn loading_draw_failure_restores_after_construction_without_starting_scan() {
    let events = Rc::new(RefCell::new(Vec::new()));
    let scan_started = Rc::new(RefCell::new(false));
    let scan_started_for_start = Rc::clone(&scan_started);
    let restore = RestoreProbe(Rc::clone(&events));

    let result = start_with_loading(
        move || Ok(FakeTerminal { restore: Some(restore) }),
        |_terminal| Err("loading draw failed".to_owned()),
        move || *scan_started_for_start.borrow_mut() = true,
    );

    assert!(matches!(result, Err(StartupError::Draw(error)) if error == "loading draw failed"));
    assert_eq!(&*events.borrow(), &["restored"]);
    assert!(!*scan_started.borrow());
}

#[test]
fn a_successful_start_starts_the_scan_once() {
    let result = start_with_loading(|| Ok::<u8, String>(7), |_terminal| Ok(()), || "scan");
    assert_eq!(result, Ok((7, "scan")));
}

#[test]
fn a_failed_loading_draw_is_a_draw_error() {
    assert!(matches!(lager::terminal::drawn(Err("no tty".to_owned())), Err(lager::terminal::StartupError::Draw(m)) if m == "no tty"));
    assert!(lager::terminal::drawn(Ok(())).is_ok());
}
