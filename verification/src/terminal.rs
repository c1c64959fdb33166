//! Decisions of the terminal front end: when prompting is allowed, what an answer means,
//! and the order in which the inventory screen is entered.
use vstd::prelude::*;

use crate::application::ports::InteractionError;
use crate::text::{chars, string_of};

verus! {

/// Prompts need a terminal to read from and one to draw on.
pub fn prompt_eligible(stdin_is_terminal: bool, stderr_is_terminal: bool) -> (r: bool)
    ensures
        r == (stdin_is_terminal && stderr_is_terminal),
{
    stdin_is_terminal && stderr_is_terminal
}

/// Refuses to prompt without both terminals, before anything is drawn.
pub fn require_terminal(stdin_is_terminal: bool, stderr_is_terminal: bool) -> (r: Result<(), InteractionError>)
    ensures
        stdin_is_terminal && stderr_is_terminal ==> r is Ok,
        !(stdin_is_terminal && stderr_is_terminal) ==> (r matches Err(InteractionError::Failed(m)) && m@
            == "interactive prompt requires a TTY"@),
{
    if prompt_eligible(stdin_is_terminal, stderr_is_terminal) {
        Ok(())
    } else {
        Err(InteractionError::Failed(string_of(&chars("interactive prompt requires a TTY"))))
    }
}

/// A failed prompt: an interrupted read is a cancellation, anything else a failure with
/// its message.
pub fn interaction_error(interrupted: bool, message: String) -> (r: InteractionError)
    ensures
        interrupted ==> r is Cancelled,
        !interrupted ==> r == InteractionError::Failed(message),
{
    if interrupted {
        InteractionError::Cancelled
    } else {
        InteractionError::Failed(message)
    }
}

/// What an input prompt shows as its placeholder: the placeholder, else the default.
pub fn input_hint<'a>(placeholder: &'a str, default: Option<&'a str>) -> (r: &'a str)
    ensures
        placeholder@.len() > 0 ==> r@ == placeholder@,
        placeholder@.len() == 0 ==> r@ == (match default {
            Some(d) => d@,
            None => Seq::<char>::empty(),
        }),
{
    if placeholder.unicode_len() > 0 {
        placeholder
    } else {
        match default {
            Some(d) => d,
            None => {
                proof {
                    reveal_strlit("");
                }
                ""
            },
        }
    }
}

/// The answer of an input prompt: an empty answer takes the default.
pub fn input_answer(answer: String, default: Option<&str>) -> (r: String)
    ensures
        answer@.len() > 0 ==> r@ == answer@,
        answer@.len() == 0 ==> r@ == (match default {
            Some(d) => d@,
            None => Seq::<char>::empty(),
        }),
{
    if answer.unicode_len() > 0 {
        answer
    } else {
        match default {
            Some(d) => string_of(&chars(d)),
            None => String::new(),
        }
    }
}

/// What the inventory screen has changed about the terminal and must give back.
#[derive(Debug, Clone, PartialEq, Eq)]
pub struct TerminalRestore {
    pub raw: bool,
    pub alternate: bool,
}

/// The steps that give the terminal back, in order: leave the alternate screen, then leave
/// raw mode.
#[derive(Debug, Clone, Copy, PartialEq, Eq, Structural)]
pub struct RestoreSteps {
    pub leave_alternate: bool,
    pub disable_raw: bool,
}

impl TerminalRestore {
    /// Gives back only what was acquired, once: the steps to take are the acquired flags,
    /// which are cleared, so a second call takes no step.
    pub fn restore(&mut self) -> (r: RestoreSteps)
        ensures
            r.leave_alternate == old(self).alternate,
            r.disable_raw == old(self).raw,
            !final(self).raw,
            !final(self).alternate,
    {
        let steps = RestoreSteps { leave_alternate: self.alternate, disable_raw: self.raw };
        self.alternate = false;
        self.raw = false;
        steps
    }
}

/// Why the inventory screen could not start.
#[derive(Debug, Clone, PartialEq, Eq)]
pub enum StartupError {
    Enter(String),
    Draw(String),
}

/// What startup does with the loading view's draw: a failed draw is a `Draw` error with its
/// reason.
pub fn drawn(answer: Result<(), String>) -> (r: Result<(), StartupError>)
    ensures
        match answer {
            Ok(()) => r is Ok,
            Err(e) => r == Err::<(), StartupError>(StartupError::Draw(e)),
        },
{
    match answer {
        Ok(()) => Ok(()),
        Err(error) => Err(StartupError::Draw(error)),
    }
}

/// Enters the screen, draws the loading view, and only then starts the scan: a failure to
/// enter or to draw leaves the scan unstarted.
pub fn start_with_loading<T, O, E, D, S>(enter: E, draw_loading: D, start_scan: S) -> (r: Result<(T, O), StartupError>) where
    E: FnOnce() -> Result<T, String>,
    D: FnOnce(&mut T) -> Result<(), String>,
    S: FnOnce() -> O,

    requires
        call_requires(enter, ()),
        forall|t: &mut T| call_requires(draw_loading, (t,)),
        call_requires(start_scan, ()),
    ensures
        r matches Err(StartupError::Enter(e)) ==> call_ensures(enter, (), Err::<T, String>(e)),
        r matches Err(StartupError::Draw(e)) ==> exists|t: T| call_ensures(enter, (), Ok::<T, String>(t)),
        r matches Ok(pair) ==> call_ensures(start_scan, (), pair.1) && exists|t: T| call_ensures(enter, (), Ok::<T, String>(t)),
{
    let mut terminal = match enter() {
        Ok(terminal) => terminal,
        Err(error) => return Err(StartupError::Enter(error)),
    };
    let ghost entered = terminal;
    assert(call_ensures(enter, (), Ok::<T, String>(entered)));
    drawn(draw_loading(&mut terminal))?;
    let output = start_scan();
    Ok((terminal, output))
}

/// Acquires the terminal state first and constructs the terminal after it, so that a failed
/// construction still releases what was acquired.
pub fn enter_after_restore<R, T, A, C>(acquire: A, construct: C) -> (r: Result<(R, T), String>) where
    A: FnOnce() -> Result<R, String>,
    C: FnOnce() -> Result<T, String>,

    requires
        call_requires(acquire, ()),
        call_requires(construct, ()),
    ensures
        r matches Ok(pair) ==> call_ensures(acquire, (), Ok::<R, String>(pair.0)) && call_ensures(construct, (), Ok::<T, String>(pair.1)),
        r matches Err(e) ==> call_ensures(acquire, (), Err::<R, String>(e)) || (exists|x: R| call_ensures(acquire, (), Ok::<R, String>(x)))
            && call_ensures(construct, (), Err::<T, String>(e)),
{
    let restore = acquire()?;
    let terminal = construct()?;
    Ok((restore, terminal))
}

} // verus!
