//! The command line: the commands and their options, and the decisions taken on them before
//! and after the application does its work (usage errors, exit statuses, summaries).
use vstd::prelude::*;

use crate::application::ports::Mutation;
use crate::application::warehouse::{BatchOutcome, ListRow, OperationStatus, RemovalStatus};
use crate::config_file::{digits, spec_digits};
use crate::application::declarations::str_option_view;
use crate::domain::repository::{path_push, push_path, spec_parse, RepositoryRef};
use crate::domain::state::LocalState;
use crate::presentation::{escape, escape_seq};
use crate::text::{chars, concat, join, join_with, string_of};

verus! {

broadcast use vstd::seq::group_seq_axioms;

#[derive(Debug, Clone)]
pub struct Args {
    pub config: Option<String>,
    pub command: Command,
}

#[derive(Debug, Clone)]
pub enum Command {
    Init(InitArgs),
    Register(RepositoryArgs),
    Unregister(UnregisterArgs),
    Add(CloneArgs),
    Remove(RemoveArgs),
    Ensure(EnsureArgs),
    Hook(HookArgs),
    List(ListArgs),
    Inventory(InventoryArgs),
}

#[derive(Debug, Clone)]
pub struct InitArgs {
    pub root: Option<String>,
    pub create_root: bool,
    pub no_create_root: bool,
    pub github: bool,
    pub no_github: bool,
}

#[derive(Debug, Clone)]
pub struct RepositoryArgs {
    pub repositories: Vec<String>,
    pub post_clone: Option<String>,
    pub include_archived: bool,
}

#[derive(Debug, Clone)]
pub struct UnregisterArgs {
    pub repositories: Vec<String>,
    pub include_archived: bool,
}

#[derive(Debug, Clone)]
pub struct CloneArgs {
    pub repositories: Vec<String>,
    pub register: bool,
    pub no_register: bool,
    pub post_clone: Option<String>,
    pub include_archived: bool,
}

#[derive(Debug, Clone)]
pub struct RemoveArgs {
    pub repositories: Vec<String>,
    pub unregister: bool,
    pub keep_registered: bool,
    pub yes: bool,
    pub force: bool,
}

#[derive(Debug, Clone)]
pub struct EnsureArgs {
    pub include_archived: bool,
}

#[derive(Debug, Clone)]
pub struct HookArgs {
    pub repositories: Vec<String>,
}

#[derive(Debug, Clone)]
pub struct ListArgs {
    pub remote: bool,
    pub include_archived: bool,
    pub json: bool,
}

#[derive(Debug, Clone)]
pub struct InventoryArgs {
    pub remote: bool,
    pub include_archived: bool,
}

/// The references a command names on its command line, for the commands that take them.
pub fn named_references(command: &Command) -> (r: Option<&Vec<String>>)
    ensures
        match command {
            Command::Register(c) => r == Some(&c.repositories),
            Command::Unregister(c) => r == Some(&c.repositories),
            Command::Add(c) => r == Some(&c.repositories),
            Command::Remove(c) => r == Some(&c.repositories),
            Command::Hook(c) => r == Some(&c.repositories),
            _ => r is None,
        },
{
    match command {
        Command::Register(c) => Some(&c.repositories),
        Command::Unregister(c) => Some(&c.repositories),
        Command::Add(c) => Some(&c.repositories),
        Command::Remove(c) => Some(&c.repositories),
        Command::Hook(c) => Some(&c.repositories),
        _ => None,
    }
}

/// A pair of opposite flags: the first given means yes, the second no, neither asks.
pub fn flag_choice(yes: bool, no: bool) -> (r: Option<bool>)
    ensures
        yes ==> r == Some(true),
        !yes && no ==> r == Some(false),
        !yes && !no ==> r is None,
{
    if yes {
        Some(true)
    } else if no {
        Some(false)
    } else {
        None
    }
}

/// A reference in an error line: shown when it reads as a reference, else described.
pub fn displayed_reference(reference: &str) -> (r: String)
    ensures
        spec_parse(reference@) is Ok ==> r@ == escape_seq(reference@),
        spec_parse(reference@) is Err ==> r@ == "invalid repository reference"@,
{
    match RepositoryRef::parse(reference) {
        Ok(_) => escape(reference),
        Err(_) => string_of(&chars("invalid repository reference")),
    }
}

/// How `add` registers: whether to ask for each repository and whether to register, or the
/// usage error and its exit status.
pub fn add_registration(interactive: bool, register: bool, no_register: bool, post_clone: bool) -> (r: Result<(bool, bool), (String, i32)>)
    ensures
        no_register && post_clone ==> (r matches Err((m, code)) && m@ == "--post-clone conflicts with --no-register"@ && code == 2),
        !(no_register && post_clone) && !interactive && !register && !no_register && !post_clone ==> (r matches Err((m, code))
            && m@ == "add requires exactly one of --register or --no-register outside a TTY"@ && code == 2),
        r matches Ok((ask, reg)) ==> ask == (interactive && !register && !no_register && !post_clone) && reg == (register || post_clone),
        r is Err ==> (no_register && post_clone) || (!interactive && !register && !no_register && !post_clone),
{
    if no_register && post_clone {
        return Err((string_of(&chars("--post-clone conflicts with --no-register")), 2));
    }
    let ask = interactive && !register && !no_register && !post_clone;
    if !interactive && !register && !no_register && !post_clone {
        return Err((string_of(&chars("add requires exactly one of --register or --no-register outside a TTY")), 2));
    }
    Ok((ask, register || post_clone))
}

/// Whether `remove` unregisters (`None`: ask), or the usage error outside a terminal.
pub fn removal_registration(interactive: bool, unregister: bool, keep_registered: bool, yes: bool) -> (r: Result<Option<bool>, String>)
    ensures
        !interactive && (!unregister && !keep_registered || !yes) ==> (r matches Err(m)
            && m@ == "remove requires exactly one of --unregister or --keep-registered and --yes outside a TTY"@),
        !(!interactive && (!unregister && !keep_registered || !yes)) ==> r == Ok::<Option<bool>, String>(
            if unregister || keep_registered { Some(unregister) } else { None },
        ),
{
    if !interactive && (!unregister && !keep_registered || !yes) {
        return Err(string_of(&chars("remove requires exactly one of --unregister or --keep-registered and --yes outside a TTY")));
    }
    Ok(if unregister || keep_registered { Some(unregister) } else { None })
}

/// The exit status of a batch: 130 when cancelled, else 1 when anything failed, else 0.
pub fn batch_status(cancelled: bool, failed: bool) -> (r: i32)
    ensures
        r == if cancelled { 130i32 } else if failed { 1i32 } else { 0i32 },
{
    if cancelled {
        130
    } else if failed {
        1
    } else {
        0
    }
}

/// What `register` and `unregister` print for each declaration.
pub fn mutation_line(mutation: Mutation, registering: bool) -> (r: &'static str)
    ensures
        r@ == match (mutation, registering) {
            (Mutation::Changed, true) => "added"@,
            (Mutation::Noop, true) => "already managed"@,
            (Mutation::Changed, false) => "removed"@,
            (Mutation::Noop, false) => "already unmanaged"@,
        },
{
    proof {
        reveal_strlit("added");
        reveal_strlit("already managed");
        reveal_strlit("removed");
        reveal_strlit("already unmanaged");
    }
    match (mutation, registering) {
        (Mutation::Changed, true) => "added",
        (Mutation::Noop, true) => "already managed",
        (Mutation::Changed, false) => "removed",
        (Mutation::Noop, false) => "already unmanaged",
    }
}

/// What `remove` prints for a repository it did not fail on.
pub fn removal_line(reference: &str, status: &RemovalStatus) -> (r: Option<String>)
    ensures
        match status {
            RemovalStatus::Removed => r matches Some(l) && l@ == escape_seq(reference@) + ": removed"@,
            RemovalStatus::Absent => r matches Some(l) && l@ == escape_seq(reference@) + ": absent"@,
            RemovalStatus::Skipped => r matches Some(l) && l@ == escape_seq(reference@) + ": skipped"@,
            RemovalStatus::Failed(_) => r is None,
        },
{
    let word = match status {
        RemovalStatus::Removed => ": removed",
        RemovalStatus::Absent => ": absent",
        RemovalStatus::Skipped => ": skipped",
        RemovalStatus::Failed(_) => return None,
    };
    Some(string_of(&concat(&chars(escape(reference).as_str()), &chars(word))))
}

pub open spec fn count_status(outcomes: Seq<crate::application::warehouse::RepositoryOutcome>, f: spec_fn(OperationStatus) -> bool) -> nat
    decreases outcomes.len(),
{
    if outcomes.len() == 0 {
        0
    } else {
        count_status(outcomes.drop_last(), f) + if f(outcomes.last().status) { 1nat } else { 0nat }
    }
}

pub open spec fn summary_parts(cloned: nat, present: nat, failed: nat) -> Seq<Seq<char>> {
    (if cloned > 0 { seq![spec_digits(cloned, 10) + " cloned"@] } else { Seq::empty() })
        + (if present > 0 { seq![spec_digits(present, 10) + " already present"@] } else { Seq::empty() })
        + (if failed > 0 { seq![spec_digits(failed, 10) + " failed"@] } else { Seq::empty() })
}

/// The closing line of `ensure`: how many were cloned, already present and failed (provider
/// failures included), or that there was nothing to do.
pub open spec fn ensure_summary_text(cloned: nat, present: nat, failed: nat) -> Seq<char> {
    if summary_parts(cloned, present, failed).len() == 0 {
        "Nothing to ensure"@
    } else {
        join(summary_parts(cloned, present, failed), ", "@)
    }
}

proof fn lemma_join_ends_with_last(parts: Seq<Seq<char>>, sep: Seq<char>)
    requires
        parts.len() > 0,
        parts.last().len() > 0,
    ensures
        join(parts, sep).len() > 0,
        join(parts, sep).last() == parts.last().last(),
{
    if parts.len() == 1 {
        assert(parts.last() == parts[0]);
    } else {
        let a = join(parts.drop_last(), sep) + sep;
        assert(join(parts, sep) == a + parts.last());
        assert((a + parts.last()).last() == parts.last().last());
    }
}

proof fn lemma_join_push(parts: Seq<Seq<char>>, x: Seq<char>, sep: Seq<char>)
    requires
        parts.len() > 0,
    ensures
        join(parts.push(x), sep) == join(parts, sep) + sep + x,
{
    assert(parts.push(x).drop_last() =~= parts);
}

/// The ensure summary reads "Nothing to ensure" exactly when nothing was cloned, found
/// already present or failed.
pub proof fn law_ensure_summary_nothing_to_ensure(cloned: nat, present: nat, failed: nat)
    ensures
        (ensure_summary_text(cloned, present, failed) == "Nothing to ensure"@) <==> (cloned == 0 && present == 0 && failed == 0),
{
    reveal_strlit("Nothing to ensure");
    reveal_strlit(" cloned");
    reveal_strlit(" already present");
    reveal_strlit(" failed");
    let parts = summary_parts(cloned, present, failed);
    if cloned == 0 && present == 0 && failed == 0 {
        assert(parts =~= Seq::<Seq<char>>::empty());
    } else {
        assert(parts.len() > 0);
        let w = parts.last();
        if failed > 0 {
            assert(w == spec_digits(failed, 10) + " failed"@);
        } else if present > 0 {
            assert(w == spec_digits(present, 10) + " already present"@);
        } else {
            assert(w == spec_digits(cloned, 10) + " cloned"@);
        }
        assert(w.len() > 0 && (w.last() == 'd' || w.last() == 't'));
        lemma_join_ends_with_last(parts, ", "@);
        assert("Nothing to ensure"@.last() == 'e');
    }
}

/// A count that stands alone in the ensure summary reads as the number and its word.
pub proof fn law_ensure_summary_single_count(n: nat)
    requires
        n > 0,
    ensures
        ensure_summary_text(n, 0, 0) == spec_digits(n, 10) + " cloned"@,
        ensure_summary_text(0, n, 0) == spec_digits(n, 10) + " already present"@,
        ensure_summary_text(0, 0, n) == spec_digits(n, 10) + " failed"@,
{
    assert(summary_parts(n, 0, 0) =~= seq![spec_digits(n, 10) + " cloned"@]);
    assert(summary_parts(0, n, 0) =~= seq![spec_digits(n, 10) + " already present"@]);
    assert(summary_parts(0, 0, n) =~= seq![spec_digits(n, 10) + " failed"@]);
}

/// The ensure summary lists its counts in the order cloned, already present, failed, each
/// after the ones before it and a comma.
pub proof fn law_ensure_summary_order(cloned: nat, present: nat, failed: nat)
    ensures
        failed > 0 && (cloned > 0 || present > 0) ==> ensure_summary_text(cloned, present, failed)
            == ensure_summary_text(cloned, present, 0) + ", "@ + ensure_summary_text(0, 0, failed),
        present > 0 && cloned > 0 ==> ensure_summary_text(cloned, present, 0)
            == ensure_summary_text(cloned, 0, 0) + ", "@ + ensure_summary_text(0, present, 0),
{
    if failed > 0 && (cloned > 0 || present > 0) {
        law_ensure_summary_single_count(failed);
        let before = summary_parts(cloned, present, 0);
        assert(before.len() > 0);
        assert(summary_parts(cloned, present, failed) =~= before.push(spec_digits(failed, 10) + " failed"@));
        lemma_join_push(before, spec_digits(failed, 10) + " failed"@, ", "@);
    }
    if present > 0 && cloned > 0 {
        law_ensure_summary_single_count(present);
        law_ensure_summary_single_count(cloned);
        let before = summary_parts(cloned, 0, 0);
        assert(summary_parts(cloned, present, 0) =~= before.push(spec_digits(present, 10) + " already present"@));
        lemma_join_push(before, spec_digits(present, 10) + " already present"@, ", "@);
    }
}

/// The closing line of `ensure` for a batch: its cloned, already present and failed
/// repositories counted, provider failures among the failed.
pub open spec fn ensure_summary_of(outcome: BatchOutcome) -> Seq<char> {
    ensure_summary_text(
        count_status(outcome.outcomes@, |s: OperationStatus| s is Cloned),
        count_status(outcome.outcomes@, |s: OperationStatus| s is Noop),
        count_status(outcome.outcomes@, |s: OperationStatus| s is Failed) + outcome.provider_errors@.len(),
    )
}

proof fn lemma_count_every(outcomes: Seq<crate::application::warehouse::RepositoryOutcome>, f: spec_fn(OperationStatus) -> bool)
    requires
        forall|k: int| 0 <= k < outcomes.len() ==> f(#[trigger] outcomes[k].status),
    ensures
        count_status(outcomes, f) == outcomes.len(),
    decreases outcomes.len(),
{
    if outcomes.len() > 0 {
        assert(f(outcomes[outcomes.len() - 1].status));
        lemma_count_every(outcomes.drop_last(), f);
    }
}

proof fn lemma_count_none(outcomes: Seq<crate::application::warehouse::RepositoryOutcome>, f: spec_fn(OperationStatus) -> bool)
    requires
        forall|k: int| 0 <= k < outcomes.len() ==> !f(#[trigger] outcomes[k].status),
    ensures
        count_status(outcomes, f) == 0,
    decreases outcomes.len(),
{
    if outcomes.len() > 0 {
        assert(!f(outcomes[outcomes.len() - 1].status));
        lemma_count_none(outcomes.drop_last(), f);
    }
}

/// A run in which every repository was already present, with no provider failure, closes
/// with their number and "already present", never "Nothing to ensure".
pub proof fn law_ensure_summary_all_present(outcome: BatchOutcome)
    requires
        outcome.outcomes@.len() > 0,
        forall|k: int| 0 <= k < outcome.outcomes@.len() ==> (#[trigger] outcome.outcomes@[k]).status is Noop,
        outcome.provider_errors@.len() == 0,
    ensures
        ensure_summary_of(outcome) == spec_digits(outcome.outcomes@.len(), 10) + " already present"@,
        ensure_summary_of(outcome) != "Nothing to ensure"@,
{
    let o = outcome.outcomes@;
    lemma_count_every(o, |s: OperationStatus| s is Noop);
    lemma_count_none(o, |s: OperationStatus| s is Cloned);
    lemma_count_none(o, |s: OperationStatus| s is Failed);
    law_ensure_summary_single_count(o.len());
    law_ensure_summary_nothing_to_ensure(0, o.len(), 0);
}

pub fn ensure_summary(outcome: &BatchOutcome) -> (r: String)
    requires
        outcome.outcomes@.len() + outcome.provider_errors@.len() < u64::MAX,
    ensures
        r@ == ensure_summary_of(*outcome),
{
    let ghost outcomes = outcome.outcomes@;
    let mut cloned: u64 = 0;
    let mut present: u64 = 0;
    let mut failed: u64 = 0;
    let mut i: usize = 0;
    assert(outcomes.subrange(0, 0) =~= Seq::<crate::application::warehouse::RepositoryOutcome>::empty());
    while i < outcome.outcomes.len()
        invariant
            i <= outcomes.len(),
            outcomes == outcome.outcomes@,
            outcomes.len() + outcome.provider_errors@.len() < u64::MAX,
            cloned == count_status(outcomes.subrange(0, i as int), |s: OperationStatus| s is Cloned),
            present == count_status(outcomes.subrange(0, i as int), |s: OperationStatus| s is Noop),
            failed == count_status(outcomes.subrange(0, i as int), |s: OperationStatus| s is Failed),
            cloned <= i && present <= i && failed <= i,
        decreases outcome.outcomes.len() - i,
    {
        assert(outcomes.subrange(0, i + 1).drop_last() =~= outcomes.subrange(0, i as int));
        assert(outcomes.subrange(0, i + 1).last() == outcomes[i as int]);
        match &outcome.outcomes[i].status {
            OperationStatus::Cloned => cloned += 1,
            OperationStatus::Noop => present += 1,
            OperationStatus::Failed(_) => failed += 1,
            OperationStatus::Hooked => {},
        }
        i += 1;
    }
    assert(outcomes.subrange(0, outcomes.len() as int) =~= outcomes);
    let failed = failed + outcome.provider_errors.len() as u64;
    let mut parts: Vec<Vec<char>> = Vec::new();
    if cloned > 0 {
        parts.push(concat(&chars(digits(cloned, 10).as_str()), &chars(" cloned")));
    }
    if present > 0 {
        parts.push(concat(&chars(digits(present, 10).as_str()), &chars(" already present")));
    }
    if failed > 0 {
        parts.push(concat(&chars(digits(failed, 10).as_str()), &chars(" failed")));
    }
    let ghost expected = summary_parts(cloned as nat, present as nat, failed as nat);
    assert(parts@.map_values(|v: Vec<char>| v@) =~= expected);
    if parts.len() == 0 {
        string_of(&chars("Nothing to ensure"))
    } else {
        string_of(&join_with(&parts, &chars(", ")))
    }
}

pub open spec fn state_word(s: LocalState) -> Seq<char> {
    match s {
        LocalState::Missing => "missing"@,
        LocalState::Cloned => "cloned"@,
        LocalState::Conflict => "conflict"@,
        LocalState::Unreadable => "unreadable"@,
    }
}

/// One line of the plain `list` output: identity, state (`wildcard` for a pattern),
/// destination (`-` when none) and an archived mark, separated by tabs.
pub fn list_line(row: &ListRow) -> (r: String)
    ensures
        r@ == escape_seq(row.identity@) + "\t"@ + (match row.state {
            Some(s) => state_word(s),
            None => "wildcard"@,
        }) + "\t"@ + escape_seq(match &row.destination {
            Some(d) => d@,
            None => "-"@,
        }) + (if row.archived { " [archived]"@ } else { Seq::empty() }),
{
    let state = match row.state {
        Some(LocalState::Missing) => chars("missing"),
        Some(LocalState::Cloned) => chars("cloned"),
        Some(LocalState::Conflict) => chars("conflict"),
        Some(LocalState::Unreadable) => chars("unreadable"),
        None => chars("wildcard"),
    };
    let destination = match &row.destination {
        Some(d) => escape(d.as_str()),
        None => escape("-"),
    };
    let archived = if row.archived {
        chars(" [archived]")
    } else {
        Vec::new()
    };
    let line = concat(
        &concat(&concat(&concat(&chars(escape(row.identity.as_str()).as_str()), &chars("\t")), &state), &chars("\t")),
        &concat(&chars(destination.as_str()), &archived),
    );
    assert(line@ =~= escape_seq(row.identity@) + "\t"@ + (match row.state {
        Some(s) => state_word(s),
        None => "wildcard"@,
    }) + "\t"@ + escape_seq(match &row.destination {
        Some(d) => d@,
        None => "-"@,
    }) + (if row.archived { " [archived]"@ } else { Seq::empty() }));
    string_of(&line)
}

/// Where the configuration file is: the `--config` path, else the `LAGER_CONFIG` value, else
/// `.config/lager/config.toml` below HOME.
pub open spec fn spec_config_location(given: Option<Seq<char>>, from_env: Option<Seq<char>>, home: Seq<char>) -> Seq<char> {
    match given {
        Some(p) => p,
        None => match from_env {
            Some(p) => p,
            None => path_push(home, ".config/lager/config.toml"@),
        },
    }
}

/// The configuration file's path from the flag, the environment's value and HOME.
pub fn config_location(given: Option<&str>, from_env: Option<&str>, home: &str) -> (r: String)
    ensures
        r@ == spec_config_location(str_option_view(given), str_option_view(from_env), home@),
{
    match given {
        Some(path) => string_of(&chars(path)),
        None => match from_env {
            Some(path) => string_of(&chars(path)),
            None => string_of(&push_path(&chars(home), &chars(".config/lager/config.toml"))),
        },
    }
}

} // verus!
