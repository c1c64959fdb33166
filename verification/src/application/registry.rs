//! Declaring repositories, with an optional post-clone hook for each.
use vstd::prelude::*;

use crate::application::ports::{
    AtomicRegistrationStore, ConfigStore, Interaction, InteractionError, Mutation, RegistrationRequest,
};
use crate::domain::config::{config_error_text, spec_validate, Config};
use crate::domain::repository::{reference_unsafe, ref_error_text, spec_parse, validate_reference_safety, RefErrView, RefView, RepositoryRef};
use crate::text::{chars, concat, string_of};

verus! {

broadcast use vstd::seq::group_seq_axioms;

#[derive(Debug, Clone, PartialEq, Eq)]
pub enum RegistrationError {
    Cancelled,
    Interaction(String),
    Store(String),
}

/// The position of the first reference among the first `n` that does not parse, or -1.
pub open spec fn first_unparsable(refs: Seq<String>, n: int) -> int
    decreases n,
{
    if n <= 0 {
        -1
    } else if first_unparsable(refs, n - 1) >= 0 {
        first_unparsable(refs, n - 1)
    } else if spec_parse(refs[n - 1]@) is Err {
        n - 1
    } else {
        -1
    }
}

/// The position of the first reference among the first `n` that must not be acted on, or -1.
pub open spec fn first_invalid(refs: Seq<String>, n: int) -> int
    decreases n,
{
    if n <= 0 {
        -1
    } else if first_invalid(refs, n - 1) >= 0 {
        first_invalid(refs, n - 1)
    } else if reference_unsafe(refs[n - 1]@) {
        n - 1
    } else {
        -1
    }
}

proof fn lemma_first_unparsable_stays(refs: Seq<String>, k: int, n: int)
    requires
        0 <= k <= n,
        first_unparsable(refs, k) >= 0,
    ensures
        first_unparsable(refs, n) == first_unparsable(refs, k),
    decreases n,
{
    if n > k {
        lemma_first_unparsable_stays(refs, k, n - 1);
    }
}

/// The position of the first reference that does not parse, if any.
fn find_unparsable(references: &Vec<String>) -> (r: Option<usize>)
    ensures
        match r {
            Some(i) => first_unparsable(references@, references@.len() as int) == i as int,
            None => first_unparsable(references@, references@.len() as int) == -1,
        },
{
    let mut i: usize = 0;
    while i < references.len()
        invariant
            i <= references@.len(),
            first_unparsable(references@, i as int) == -1,
        decreases references.len() - i,
    {
        if RepositoryRef::parse(references[i].as_str()).is_err() {
            proof {
                lemma_first_unparsable_stays(references@, i as int + 1, references@.len() as int);
            }
            return Some(i);
        }
        i += 1;
    }
    None
}

/// The position of the first reference that does not parse, if any.
fn find_invalid(references: &Vec<String>) -> (r: Option<(usize, RepositoryRefErrorText)>)
    ensures
        match r {
            Some((i, t)) => first_invalid(references@, references@.len() as int) == i as int
                && spec_parse(references@[i as int]@) == Err::<RefView, RefErrView>(t.error@) && reference_unsafe(references@[i as int]@),
            None => first_invalid(references@, references@.len() as int) == -1,
        },
{
    let mut i: usize = 0;
    while i < references.len()
        invariant
            i <= references@.len(),
            first_invalid(references@, i as int) == -1,
        decreases references.len() - i,
    {
        match validate_reference_safety(references[i].as_str()) {
            Err(e) => {
                proof {
                    lemma_first_invalid_stays(references@, i as int + 1, references@.len() as int);
                }
                return Some((i, RepositoryRefErrorText { error: e }));
            },
            Ok(()) => {},
        }
        i += 1;
    }
    None
}

/// A reference error carried out of the validation loop.
pub struct RepositoryRefErrorText {
    pub error: crate::domain::repository::RepositoryRefError,
}

proof fn lemma_first_invalid_stays(refs: Seq<String>, k: int, n: int)
    requires
        0 <= k <= n,
        first_invalid(refs, k) >= 0,
    ensures
        first_invalid(refs, n) == first_invalid(refs, k),
    decreases n,
{
    if n > k {
        lemma_first_invalid_stays(refs, k, n - 1);
    }
}

pub open spec fn hook_question(reference: Seq<char>) -> Seq<char> {
    "Configure a post-clone hook for "@ + reference + "?"@
}

pub open spec fn hook_command_question(reference: Seq<char>) -> Seq<char> {
    "Post-clone command for "@ + reference + "?"@
}

/// The hook to record for a reference: the supplied one, none outside a terminal, or the
/// answer to a question.
pub fn registration_choice<I: Interaction>(
    reference: &str,
    supplied_hook: Option<&str>,
    interactive: bool,
    interaction: &mut I,
) -> (r: Result<Option<String>, InteractionError>)
    ensures
        spec_parse(reference@) matches Err(e) ==> (r matches Err(InteractionError::Failed(m)) && m@ == ref_error_text(e)),
        spec_parse(reference@) is Ok && supplied_hook.is_some() ==> (r matches Ok(Some(h)) && h@ == supplied_hook.unwrap()@),
        spec_parse(reference@) is Ok && supplied_hook.is_none() && !interactive ==> r == Ok::<Option<String>, InteractionError>(None),
{
    match RepositoryRef::parse(reference) {
        Err(error) => return Err(InteractionError::Failed(error.message())),
        Ok(_) => {},
    }
    if let Some(command) = supplied_hook {
        return Ok(Some(string_of(&chars(command))));
    }
    if !interactive {
        return Ok(None);
    }
    let r = chars(reference);
    let question = string_of(&concat(&concat(&chars("Configure a post-clone hook for "), &r), &chars("?")));
    if !interaction.confirm(question.as_str(), false)? {
        return Ok(None);
    }
    let command_question = string_of(&concat(&concat(&chars("Post-clone command for "), &r), &chars("?")));
    match interaction.input(command_question.as_str(), "Command", None) {
        Ok(command) => Ok(Some(command)),
        Err(e) => Err(e),
    }
}

/// What registration answers when a question fails: a cancellation as such, any other
/// failure as an interaction error with its text.
pub fn registration_error(e: InteractionError) -> (r: RegistrationError)
    ensures
        e is Cancelled ==> r is Cancelled,
        e matches InteractionError::Failed(m) ==> r == RegistrationError::Interaction(m),
{
    match e {
        InteractionError::Cancelled => RegistrationError::Cancelled,
        InteractionError::Failed(message) => RegistrationError::Interaction(message),
    }
}

/// The requests follow the references in order, each with the supplied hook, or with none
/// outside a terminal.
pub open spec fn requests_follow(q: Seq<RegistrationRequest>, references: Seq<String>, supplied_hook: Option<&str>, interactive: bool) -> bool {
    q.len() == references.len() && forall|k: int| 0 <= k < q.len() ==> {
        &&& (#[trigger] q[k]).reference@ == references[k]@
        &&& supplied_hook matches Some(h) ==> (q[k].post_clone matches Some(x) && x@ == h@)
        &&& (supplied_hook is None && !interactive) ==> q[k].post_clone is None
    }
}

/// Every reference reads.
pub open spec fn all_parse(references: Seq<String>) -> bool {
    forall|k: int| 0 <= k < references.len() ==> #[trigger] spec_parse(references[k]@) is Ok
}

/// The request for each reference, in order, with the hook chosen for it: the supplied one
/// for every reference, none outside a terminal, or else the answers to the questions. Every
/// reference reads and nothing is asked: the requests follow from the arguments alone.
pub fn registration_requests<I: Interaction>(
    references: &Vec<String>,
    supplied_hook: Option<&str>,
    interactive: bool,
    interaction: &mut I,
) -> (r: Result<Vec<RegistrationRequest>, RegistrationError>)
    ensures
        r matches Ok(q) ==> requests_follow(q@, references@, supplied_hook, interactive),
        all_parse(references@) && (supplied_hook is Some || !interactive) ==> r is Ok,
{
    let mut requests: Vec<RegistrationRequest> = Vec::new();
    let mut i: usize = 0;
    while i < references.len()
        invariant
            i <= references@.len(),
            requests@.len() == i,
            forall|k: int| 0 <= k < i ==> {
                &&& (#[trigger] requests@[k]).reference@ == references@[k]@
                &&& supplied_hook matches Some(h) ==> (requests@[k].post_clone matches Some(x) && x@ == h@)
                &&& (supplied_hook is None && !interactive) ==> requests@[k].post_clone is None
            },
        decreases references.len() - i,
    {
        let post_clone = match registration_choice(references[i].as_str(), supplied_hook, interactive, interaction) {
            Ok(post_clone) => post_clone,
            Err(e) => {
                assert(!(spec_parse(references@[i as int]@) is Ok && (supplied_hook is Some || !interactive)));
                return Err(registration_error(e));
            },
        };
        requests.push(RegistrationRequest { reference: string_of(&chars(references[i].as_str())), post_clone });
        i += 1;
    }
    Ok(requests)
}

/// The requests of a batch against its loaded configuration: a configuration that does not
/// validate is refused with its reason before any question is asked.
pub fn batch_requests<I: Interaction>(
    config: &Config,
    references: &Vec<String>,
    supplied_hook: Option<&str>,
    interactive: bool,
    interaction: &mut I,
) -> (r: Result<Vec<RegistrationRequest>, RegistrationError>)
    ensures
        spec_validate(config@) matches Err(e) ==> (r matches Err(RegistrationError::Store(m)) && m@ == config_error_text(e))
            && *final(interaction) == *old(interaction),
        r matches Ok(q) ==> spec_validate(config@) is Ok && requests_follow(q@, references@, supplied_hook, interactive),
        spec_validate(config@) is Ok && all_parse(references@) && (supplied_hook is Some || !interactive) ==> r is Ok,
{
    match config.validate() {
        Ok(()) => {},
        Err(error) => return Err(RegistrationError::Store(error.message())),
    }
    registration_requests(references, supplied_hook, interactive, interaction)
}

/// What atomic registration answers after the store's one batch write: its mutations, or
/// its failure as a store error.
pub fn batch_answer(answer: Result<Vec<Mutation>, String>) -> (r: Result<Vec<Mutation>, RegistrationError>)
    ensures
        match answer {
            Ok(m) => r == Ok::<Vec<Mutation>, RegistrationError>(m),
            Err(e) => r == Err::<Vec<Mutation>, RegistrationError>(RegistrationError::Store(e)),
        },
{
    match answer {
        Ok(mutations) => Ok(mutations),
        Err(error) => Err(RegistrationError::Store(error)),
    }
}

/// Collects every choice before entering the store's atomic commit boundary. References
/// are checked before any question, and the stored configuration is validated before too.
pub fn register_batch<S: AtomicRegistrationStore, I: Interaction>(
    store: &S,
    path: &str,
    references: &Vec<String>,
    supplied_hook: Option<&str>,
    interactive: bool,
    interaction: &mut I,
) -> (r: Result<Vec<Mutation>, RegistrationError>)
    ensures
        first_unparsable(references@, references@.len() as int) >= 0 ==> (r matches Err(RegistrationError::Store(m))
            && m@ == "repository reference is invalid"@),
{
    if find_unparsable(references).is_some() {
        return Err(RegistrationError::Store(string_of(&chars("repository reference is invalid"))));
    }
    let config = match store.load(path) {
        Ok(config) => config,
        Err(error) => return Err(RegistrationError::Store(error)),
    };
    let requests = batch_requests(&config, references, supplied_hook, interactive, interaction)?;
    batch_answer(store.register_batch(path, &requests))
}

/// Incremental registration: earlier writes remain if a later choice or write fails.
pub fn register_many<S: ConfigStore, I: Interaction>(
    store: &S,
    path: &str,
    references: &Vec<String>,
    supplied_hook: Option<&str>,
    interactive: bool,
    interaction: &mut I,
) -> (r: Result<Vec<Mutation>, RegistrationError>)
    ensures
        first_invalid(references@, references@.len() as int) >= 0 ==> (r matches Err(RegistrationError::Store(m))
            && spec_parse(references@[first_invalid(references@, references@.len() as int)]@) matches Err(e)
            && m@ == ref_error_text(e)),
        r is Ok ==> first_unparsable(references@, references@.len() as int) == -1,
        first_invalid(references@, references@.len() as int) == -1 && first_unparsable(references@, references@.len() as int) >= 0
            && (supplied_hook is Some || !interactive) ==> (r matches Err(e) && (e is Store || (e matches RegistrationError::Interaction(m)
            && spec_parse(references@[first_unparsable(references@, references@.len() as int)]@) matches Err(pe) && m@ == ref_error_text(pe)))),
{
    match find_invalid(references) {
        Some((_, text)) => return Err(RegistrationError::Store(text.error.message())),
        None => {},
    }
    let mut mutations: Vec<Mutation> = Vec::new();
    let mut i: usize = 0;
    while i < references.len()
        invariant
            i <= references@.len(),
            first_invalid(references@, references@.len() as int) == -1,
            first_unparsable(references@, i as int) == -1,
        decreases references.len() - i,
    {
        let post_clone = match registration_choice(references[i].as_str(), supplied_hook, interactive, interaction) {
            Ok(post_clone) => post_clone,
            Err(e) => {
                proof {
                    if spec_parse(references@[i as int]@) is Err {
                        assert(first_unparsable(references@, i + 1) == i);
                        lemma_first_unparsable_stays(references@, i + 1, references@.len() as int);
                    }
                }
                return Err(registration_error(e));
            },
        };
        assert(first_unparsable(references@, i + 1) == -1);
        let mut one: Vec<String> = Vec::new();
        one.push(string_of(&chars(references[i].as_str())));
        let hook = match &post_clone {
            Some(command) => Some(command.as_str()),
            None => None,
        };
        match batch_answer(store.register(path, &one, hook)) {
            Ok(done) => {
                let mut k: usize = 0;
                while k < done.len()
                    invariant
                        k <= done@.len(),
                    decreases done.len() - k,
                {
                    mutations.push(done[k]);
                    k += 1;
                }
            },
            Err(error) => {
                proof {
                    if first_unparsable(references@, references@.len() as int) >= 0 {
                        assert(error is Store);
                    }
                }
                return Err(error);
            },
        }
        i += 1;
    }
    Ok(mutations)
}

} // verus!
