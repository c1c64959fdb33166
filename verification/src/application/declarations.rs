//! Editing the declaration list of a configuration file: registering repositories and
//! removing them again, with the exclusions of the wildcards that cover them.
use vstd::prelude::*;

use crate::address::option_view;
use crate::application::ports::{Mutation, RegistrationRequest};
use crate::order::{first_where, lemma_first_where_bounds, lemma_first_where_none, lemma_first_where_stays};
use crate::domain::config::{config_error_text, ConfigError};
use crate::domain::repository::{ref_error_text, spec_identity, spec_parse, RefErrView, RefView, RepositoryRef};
use crate::text::{after_prefix, chars, concat, equal, has_prefix, slice, starts_with, string_of};

verus! {

broadcast use {vstd::seq::group_seq_axioms, vstd::seq_lib::group_seq_properties};

/// One `[[repositories]]` table of a validated configuration file.
#[derive(Debug, Clone, PartialEq, Eq)]
pub struct DeclarationEntry {
    pub url: String,
    pub post_clone: Option<String>,
    /// `None` when the table has no `exclude` key.
    pub exclude: Option<Vec<String>>,
    /// The position of the table this entry was read from; `None` for a new entry.
    pub source: Option<usize>,
}

#[derive(Debug, Clone, PartialEq, Eq)]
pub enum ConfigStoreError {
    Read { path: String, message: String },
    Parse { path: String, message: String },
    Write { path: String, message: String },
    Lock(String),
    Invalid(ConfigError),
    Reference(String),
    Conflict(String),
}

impl ConfigStoreError {
    /// The error's text.
    pub fn message(&self) -> (r: String)
        ensures
            match self {
                ConfigStoreError::Reference(m) => r@ == "repository reference is invalid: "@ + m@,
                ConfigStoreError::Conflict(m) => r@ == "conflicting declaration for "@ + m@,
                ConfigStoreError::Invalid(e) => r@ == config_error_text(e@),
                ConfigStoreError::Lock(m) => r@ == "could not lock config: "@ + m@,
                ConfigStoreError::Read { path, message } => r@ == "could not read config "@ + path@ + ": "@ + message@,
                ConfigStoreError::Parse { path, message } => r@ == "could not parse config "@ + path@ + ": "@ + message@,
                ConfigStoreError::Write { path, message } => r@ == "could not write config "@ + path@ + ": "@ + message@,
            },
    {
        match self {
            ConfigStoreError::Read { path, message } => string_of(
                &concat(&concat(&concat(&chars("could not read config "), &chars(path.as_str())), &chars(": ")), &chars(message.as_str())),
            ),
            ConfigStoreError::Parse { path, message } => string_of(
                &concat(&concat(&concat(&chars("could not parse config "), &chars(path.as_str())), &chars(": ")), &chars(message.as_str())),
            ),
            ConfigStoreError::Write { path, message } => string_of(
                &concat(&concat(&concat(&chars("could not write config "), &chars(path.as_str())), &chars(": ")), &chars(message.as_str())),
            ),
            ConfigStoreError::Lock(message) => string_of(&concat(&chars("could not lock config: "), &chars(message.as_str()))),
            ConfigStoreError::Invalid(error) => error.message(),
            ConfigStoreError::Reference(message) => string_of(&concat(&chars("repository reference is invalid: "), &chars(message.as_str()))),
            ConfigStoreError::Conflict(identity) => string_of(&concat(&chars("conflicting declaration for "), &chars(identity.as_str()))),
        }
    }
}

// ---------------------------------------------------------------------------
// What the declarations say
// ---------------------------------------------------------------------------

/// A wildcard declaration covers a concrete reference on its host below its path.
pub open spec fn spec_wildcard_matches(pattern: RefView, candidate: RefView) -> bool {
    candidate.host == pattern.host && has_prefix(candidate.path, pattern.path + "/"@) && !candidate.wildcard
}

/// The name a wildcard excludes a covered reference by.
pub open spec fn spec_relative_name(pattern: RefView, candidate: RefView) -> Seq<char> {
    if has_prefix(candidate.path, pattern.path + "/"@) {
        after_prefix(candidate.path, pattern.path + "/"@)
    } else {
        candidate.path
    }
}

pub open spec fn exclusions(e: DeclarationEntry) -> Seq<Seq<char>> {
    match e.exclude {
        Some(list) => list.deep_view(),
        None => Seq::empty(),
    }
}

/// Some entry declares exactly the repository `v` (for a wildcard: the same wildcard).
pub open spec fn declares_exactly(es: Seq<DeclarationEntry>, v: RefView) -> bool {
    exists|i: int| 0 <= i < es.len() && (spec_parse((#[trigger] es[i]).url@) matches Ok(p) && p.wildcard == v.wildcard
        && spec_identity(p) == spec_identity(v))
}

/// Some wildcard entry covers the concrete reference `v` and does not exclude it.
pub open spec fn covered(es: Seq<DeclarationEntry>, v: RefView) -> bool {
    exists|i: int| 0 <= i < es.len() && (spec_parse((#[trigger] es[i]).url@) matches Ok(p) && p.wildcard
        && spec_wildcard_matches(p, v) && !exclusions(es[i]).contains(spec_relative_name(p, v)))
}

/// The declarations manage `v`: a wildcard is declared itself, a concrete reference is
/// declared explicitly or covered by a wildcard that does not exclude it.
pub open spec fn registered(es: Seq<DeclarationEntry>, v: RefView) -> bool {
    declares_exactly(es, v) || (!v.wildcard && covered(es, v))
}

/// No entry declares the repository `v` under its identity, and every wildcard that
/// covers it excludes it.
pub open spec fn unregistered(es: Seq<DeclarationEntry>, v: RefView) -> bool {
    &&& forall|i: int| 0 <= i < es.len() ==> !(spec_parse((#[trigger] es[i]).url@) matches Ok(p) && spec_identity(p) == spec_identity(v))
    &&& !covered(es, v)
}

/// Every entry's URL reads as a reference.
pub open spec fn entries_readable(es: Seq<DeclarationEntry>) -> bool {
    forall|i: int| 0 <= i < es.len() ==> spec_parse((#[trigger] es[i]).url@) is Ok
}

// ---------------------------------------------------------------------------
// The edits, exactly
// ---------------------------------------------------------------------------

/// A declaration as the edits see it: its URL, its hook, its exclusions (when the key is
/// present) and the table it was read from.
pub struct EntryView {
    pub url: Seq<char>,
    pub post_clone: Option<Seq<char>>,
    pub exclude: Option<Seq<Seq<char>>>,
    pub source: Option<usize>,
}

pub open spec fn exclude_view(x: Option<Vec<String>>) -> Option<Seq<Seq<char>>> {
    match x {
        Some(l) => Some(l.deep_view()),
        None => None,
    }
}

pub open spec fn entry_view(e: DeclarationEntry) -> EntryView {
    EntryView { url: e.url@, post_clone: option_view(e.post_clone), exclude: exclude_view(e.exclude), source: e.source }
}

pub open spec fn entries_view(es: Seq<DeclarationEntry>) -> Seq<EntryView> {
    es.map_values(|e: DeclarationEntry| entry_view(e))
}

pub open spec fn str_option_view(o: Option<&str>) -> Option<Seq<char>> {
    match o {
        Some(s) => Some(s@),
        None => None,
    }
}

/// Why an edit was refused: a reference that does not read, or a hook that differs from the
/// one declared.
pub enum EditError {
    Reference(Seq<char>),
    Conflict(Seq<char>),
}

pub open spec fn edit_error_matches(r: ConfigStoreError, e: EditError) -> bool {
    match e {
        EditError::Reference(m) => r matches ConfigStoreError::Reference(x) && x@ == m,
        EditError::Conflict(m) => r matches ConfigStoreError::Conflict(x) && x@ == m,
    }
}

pub open spec fn mutation_of(changed: bool) -> Mutation {
    if changed {
        Mutation::Changed
    } else {
        Mutation::Noop
    }
}

/// The list without any occurrence of `name`, in its order.
pub open spec fn without(l: Seq<Seq<char>>, name: Seq<char>) -> Seq<Seq<char>>
    decreases l.len(),
{
    if l.len() == 0 {
        Seq::empty()
    } else if l.last() == name {
        without(l.drop_last(), name)
    } else {
        without(l.drop_last(), name).push(l.last())
    }
}

/// The entry once its wildcard no longer excludes `name`: every occurrence goes, and a list
/// that empties goes with them.
pub open spec fn lifted(e: EntryView, name: Seq<char>) -> EntryView {
    match e.exclude {
        Some(l) => if l.contains(name) {
            let k = without(l, name);
            EntryView { url: e.url, post_clone: e.post_clone, exclude: if k.len() == 0 { None } else { Some(k) }, source: e.source }
        } else {
            e
        },
        None => e,
    }
}

/// The entry once its wildcard excludes `name`, which is appended unless already there; with
/// whether that changed it.
pub open spec fn excluded(e: EntryView, name: Seq<char>) -> (EntryView, bool) {
    match e.exclude {
        None => (EntryView { url: e.url, post_clone: e.post_clone, exclude: Some(seq![name]), source: e.source }, true),
        Some(l) => if l.contains(name) {
            (e, false)
        } else {
            (EntryView { url: e.url, post_clone: e.post_clone, exclude: Some(l.push(name)), source: e.source }, true)
        },
    }
}

pub open spec fn new_entry(url: Seq<char>, hook: Option<Seq<char>>) -> EntryView {
    EntryView { url, post_clone: hook, exclude: None, source: None }
}

pub open spec fn with_hook(e: EntryView, hook: Option<Seq<char>>) -> EntryView {
    EntryView { url: e.url, post_clone: hook, exclude: e.exclude, source: e.source }
}

/// The entries once every wildcard covering the concrete `v` stopped excluding it, with
/// whether an exclusion went and whether some wildcard covers `v`; or the error of the first
/// entry that does not read.
pub open spec fn spec_lift(es: Seq<EntryView>, v: RefView) -> Result<(Seq<EntryView>, bool, bool), Seq<char>>
    decreases es.len(),
{
    if es.len() == 0 {
        Ok((Seq::empty(), false, false))
    } else {
        match spec_lift(es.drop_last(), v) {
            Err(m) => Err(m),
            Ok((done, changed, matched)) => {
                let e = es.last();
                match spec_parse(e.url) {
                    Err(x) => Err(ref_error_text(x)),
                    Ok(p) => if p.wildcard && spec_wildcard_matches(p, v) {
                        let name = spec_relative_name(p, v);
                        Ok((done.push(lifted(e, name)), changed || view_exclusions(e).contains(name), true))
                    } else {
                        Ok((done.push(e), changed, matched))
                    },
                }
            },
        }
    }
}

pub open spec fn view_exclusions(e: EntryView) -> Seq<Seq<char>> {
    match e.exclude {
        Some(l) => l,
        None => Seq::empty(),
    }
}

/// An entry declares the concrete `v` explicitly.
pub open spec fn explicit_entry(v: RefView) -> spec_fn(EntryView) -> bool {
    |e: EntryView| spec_parse(e.url) matches Ok(p) && !p.wildcard && spec_identity(p) == spec_identity(v)
}

pub open spec fn declares_view(es: Seq<EntryView>, v: RefView) -> bool {
    exists|i: int| 0 <= i < es.len() && (spec_parse((#[trigger] es[i]).url) matches Ok(p) && p.wildcard == v.wildcard
        && spec_identity(p) == spec_identity(v))
}

/// A hook asked for that differs from the one declared.
pub open spec fn conflicts(existing: Option<Seq<char>>, hook: Option<Seq<char>>) -> bool {
    match (existing, hook) {
        (Some(x), Some(c)) => x != c,
        _ => false,
    }
}

/// After the wildcards stopped excluding a concrete reference: the explicit declaration at
/// `i` (if `i` is one) gets the hook it lacks; without one, a declaration is added when a hook
/// is asked for or no wildcard covers the reference.
pub open spec fn finish_register(
    lift: Result<(Seq<EntryView>, bool, bool), Seq<char>>,
    input: Seq<char>,
    hook: Option<Seq<char>>,
    i: int,
) -> Result<(Seq<EntryView>, Mutation), EditError> {
    match lift {
        Err(m) => Err(EditError::Reference(m)),
        Ok((es, changed, matched)) => if i >= 0 {
            if hook is Some && es[i].post_clone is None {
                Ok((es.update(i, with_hook(es[i], hook)), Mutation::Changed))
            } else {
                Ok((es, mutation_of(changed)))
            }
        } else if hook is Some || !matched {
            Ok((es.push(new_entry(input, hook)), Mutation::Changed))
        } else {
            Ok((es, mutation_of(changed)))
        },
    }
}

/// Registering `input` with an optional hook: the entries after it and whether they
/// changed, or why it was refused.
pub open spec fn spec_register(es: Seq<EntryView>, input: Seq<char>, hook: Option<Seq<char>>) -> Result<
    (Seq<EntryView>, Mutation),
    EditError,
> {
    match spec_parse(input) {
        Err(e) => Err(EditError::Reference(ref_error_text(e))),
        Ok(v) => if v.wildcard {
            if hook is Some {
                Err(EditError::Reference(wildcard_hook_text()))
            } else if declares_view(es, v) {
                Ok((es, Mutation::Noop))
            } else {
                Ok((es.push(new_entry(input, None)), Mutation::Changed))
            }
        } else {
            let i = first_where(es, explicit_entry(v), es.len() as int);
            if i >= 0 && conflicts(es[i].post_clone, hook) {
                Err(EditError::Conflict(spec_identity(v)))
            } else {
                finish_register(spec_lift(es, v), input, hook, i)
            }
        },
    }
}

/// Removing `v`: the entries with its identity go, and every wildcard covering it excludes
/// it; with whether anything changed, or the error of the first entry that does not read.
pub open spec fn spec_remove(es: Seq<EntryView>, v: RefView) -> Result<(Seq<EntryView>, bool), Seq<char>>
    decreases es.len(),
{
    if es.len() == 0 {
        Ok((Seq::empty(), false))
    } else {
        match spec_remove(es.drop_last(), v) {
            Err(m) => Err(m),
            Ok((kept, removed)) => {
                let e = es.last();
                match spec_parse(e.url) {
                    Err(x) => Err(ref_error_text(x)),
                    Ok(p) => if spec_identity(p) == spec_identity(v) {
                        Ok((kept, true))
                    } else if p.wildcard && spec_wildcard_matches(p, v) {
                        let (f, added) = excluded(e, spec_relative_name(p, v));
                        Ok((kept.push(f), removed || added))
                    } else {
                        Ok((kept.push(e), removed))
                    },
                }
            },
        }
    }
}

pub open spec fn spec_unregister(es: Seq<EntryView>, input: Seq<char>) -> Result<(Seq<EntryView>, Mutation), EditError> {
    match spec_parse(input) {
        Err(e) => Err(EditError::Reference(ref_error_text(e))),
        Ok(v) => match spec_remove(es, v) {
            Err(m) => Err(EditError::Reference(m)),
            Ok((kept, removed)) => Ok((kept, mutation_of(removed))),
        },
    }
}

pub open spec fn request_view(q: RegistrationRequest) -> (Seq<char>, Option<Seq<char>>) {
    (q.reference@, option_view(q.post_clone))
}

/// Registering each request in turn, stopping at the first refusal.
pub open spec fn spec_register_all(es: Seq<EntryView>, requests: Seq<(Seq<char>, Option<Seq<char>>)>) -> Result<
    (Seq<EntryView>, Seq<Mutation>),
    EditError,
>
    decreases requests.len(),
{
    if requests.len() == 0 {
        Ok((es, Seq::empty()))
    } else {
        match spec_register_all(es, requests.drop_last()) {
            Err(e) => Err(e),
            Ok((after, ms)) => match spec_register(after, requests.last().0, requests.last().1) {
                Err(e) => Err(e),
                Ok((next, m)) => Ok((next, ms.push(m))),
            },
        }
    }
}

/// Removing each reference in turn, stopping at the first refusal.
pub open spec fn spec_unregister_all(es: Seq<EntryView>, references: Seq<Seq<char>>) -> Result<
    (Seq<EntryView>, Seq<Mutation>),
    EditError,
>
    decreases references.len(),
{
    if references.len() == 0 {
        Ok((es, Seq::empty()))
    } else {
        match spec_unregister_all(es, references.drop_last()) {
            Err(e) => Err(e),
            Ok((after, ms)) => match spec_unregister(after, references.last()) {
                Err(e) => Err(e),
                Ok((next, m)) => Ok((next, ms.push(m))),
            },
        }
    }
}

proof fn lemma_lift_error_stays(es: Seq<EntryView>, v: RefView, n: int)
    requires
        0 <= n <= es.len(),
        spec_lift(es.subrange(0, n), v) is Err,
    ensures
        spec_lift(es, v) == spec_lift(es.subrange(0, n), v),
    decreases es.len() - n,
{
    if n < es.len() {
        assert(es.subrange(0, n + 1).drop_last() =~= es.subrange(0, n));
        lemma_lift_error_stays(es, v, n + 1);
    } else {
        assert(es.subrange(0, n) =~= es);
    }
}

proof fn lemma_remove_error_stays(es: Seq<EntryView>, v: RefView, n: int)
    requires
        0 <= n <= es.len(),
        spec_remove(es.subrange(0, n), v) is Err,
    ensures
        spec_remove(es, v) == spec_remove(es.subrange(0, n), v),
    decreases es.len() - n,
{
    if n < es.len() {
        assert(es.subrange(0, n + 1).drop_last() =~= es.subrange(0, n));
        lemma_remove_error_stays(es, v, n + 1);
    } else {
        assert(es.subrange(0, n) =~= es);
    }
}

proof fn lemma_register_all_error_stays(es: Seq<EntryView>, requests: Seq<(Seq<char>, Option<Seq<char>>)>, n: int)
    requires
        0 <= n <= requests.len(),
        spec_register_all(es, requests.subrange(0, n)) is Err,
    ensures
        spec_register_all(es, requests) == spec_register_all(es, requests.subrange(0, n)),
    decreases requests.len() - n,
{
    if n < requests.len() {
        assert(requests.subrange(0, n + 1).drop_last() =~= requests.subrange(0, n));
        lemma_register_all_error_stays(es, requests, n + 1);
    } else {
        assert(requests.subrange(0, n) =~= requests);
    }
}

proof fn lemma_unregister_all_error_stays(es: Seq<EntryView>, references: Seq<Seq<char>>, n: int)
    requires
        0 <= n <= references.len(),
        spec_unregister_all(es, references.subrange(0, n)) is Err,
    ensures
        spec_unregister_all(es, references) == spec_unregister_all(es, references.subrange(0, n)),
    decreases references.len() - n,
{
    if n < references.len() {
        assert(references.subrange(0, n + 1).drop_last() =~= references.subrange(0, n));
        lemma_unregister_all_error_stays(es, references, n + 1);
    } else {
        assert(references.subrange(0, n) =~= references);
    }
}

proof fn lemma_declares_view(es: Seq<DeclarationEntry>, v: RefView)
    ensures
        declares_exactly(es, v) == declares_view(entries_view(es), v),
{
    let ev = entries_view(es);
    if declares_exactly(es, v) {
        let i = choose|i: int| 0 <= i < es.len() && (spec_parse((#[trigger] es[i]).url@) matches Ok(p) && p.wildcard == v.wildcard
            && spec_identity(p) == spec_identity(v));
        assert(ev[i] == entry_view(es[i]));
    }
    if declares_view(ev, v) {
        let i = choose|i: int| 0 <= i < ev.len() && (spec_parse((#[trigger] ev[i]).url) matches Ok(p) && p.wildcard == v.wildcard
            && spec_identity(p) == spec_identity(v));
        assert(ev[i] == entry_view(es[i]));
    }
}

fn wildcard_matches(pattern: &RepositoryRef, candidate: &RepositoryRef) -> (r: bool)
    ensures
        r == spec_wildcard_matches(pattern@, candidate@),
{
    equal(&chars(candidate.host.as_str()), &chars(pattern.host.as_str()))
        && starts_with(&chars(candidate.path.as_str()), &concat(&chars(pattern.path.as_str()), &chars("/")))
        && !candidate.wildcard
}

fn relative_wildcard_name(pattern: &RepositoryRef, candidate: &RepositoryRef) -> (r: Vec<char>)
    ensures
        r@ == spec_relative_name(pattern@, candidate@),
{
    let path = chars(candidate.path.as_str());
    let prefix = concat(&chars(pattern.path.as_str()), &chars("/"));
    if starts_with(&path, &prefix) {
        slice(&path, prefix.len(), path.len())
    } else {
        path
    }
}

fn reference_error(input: &str) -> (r: ConfigStoreError)
    requires
        spec_parse(input@) is Err,
    ensures
        r matches ConfigStoreError::Reference(m) && m@ == ref_error_text(spec_parse(input@)->Err_0),
{
    match RepositoryRef::parse(input) {
        Err(error) => ConfigStoreError::Reference(error.message()),
        Ok(_) => {
            assert(false);
            ConfigStoreError::Reference(string_of(&chars("")))
        },
    }
}

/// Drops every occurrence of `name` from the list; says whether one was dropped.
fn drop_name(list: &mut Vec<String>, name: &[char]) -> (dropped: bool)
    ensures
        forall|x: Seq<char>| #[trigger] final(list).deep_view().contains(x) <==> old(list).deep_view().contains(x) && x != name@,
        dropped == old(list).deep_view().contains(name@),
        !dropped ==> *final(list) == *old(list),
        dropped ==> final(list).deep_view() == without(old(list).deep_view(), name@),
{
    let ghost original = list.deep_view();
    let mut kept: Vec<String> = Vec::new();
    let mut dropped = false;
    let mut i: usize = 0;
    assert(kept.deep_view() =~= without(original.subrange(0, 0), name@));
    while i < list.len()
        invariant
            i <= list@.len(),
            original == list.deep_view(),
            forall|x: Seq<char>| #[trigger] kept.deep_view().contains(x) <==> original.subrange(0, i as int).contains(x) && x != name@,
            dropped == original.subrange(0, i as int).contains(name@),
            kept.deep_view() == without(original.subrange(0, i as int), name@),
        decreases list.len() - i,
    {
        let ghost before = kept.deep_view();
        assert(original.subrange(0, i + 1) =~= original.subrange(0, i as int).push(original[i as int]));
        assert(original.subrange(0, i + 1).drop_last() =~= original.subrange(0, i as int));
        assert(original[i as int] == list@[i as int]@);
        if equal(&chars(list[i].as_str()), name) {
            dropped = true;
        } else {
            kept.push(string_of(&chars(list[i].as_str())));
            assert(kept.deep_view() =~= before.push(original[i as int]));
        }
        i += 1;
    }
    assert(original.subrange(0, original.len() as int) =~= original);
    if dropped {
        *list = kept;
    }
    dropped
}

// ---------------------------------------------------------------------------
// Registering
// ---------------------------------------------------------------------------

/// `after` keeps every entry of `before` at its place with the same URL, and its
/// exclusions only lose names.
pub open spec fn grows_only(before: Seq<DeclarationEntry>, after: Seq<DeclarationEntry>) -> bool {
    &&& before.len() <= after.len()
    &&& forall|i: int| 0 <= i < before.len() ==> (#[trigger] after[i]).url@ == before[i].url@
        && forall|x: Seq<char>| #[trigger] exclusions(after[i]).contains(x) ==> exclusions(before[i]).contains(x)
}

proof fn lemma_grows_only_keeps_registered(before: Seq<DeclarationEntry>, after: Seq<DeclarationEntry>, v: RefView)
    requires
        grows_only(before, after),
        registered(before, v),
    ensures
        registered(after, v),
{
    if declares_exactly(before, v) {
        let i = choose|i: int| 0 <= i < before.len() && (spec_parse((#[trigger] before[i]).url@) matches Ok(p) && p.wildcard == v.wildcard
            && spec_identity(p) == spec_identity(v));
        assert(after[i].url@ == before[i].url@);
    } else {
        let i = choose|i: int| 0 <= i < before.len() && (spec_parse((#[trigger] before[i]).url@) matches Ok(p) && p.wildcard
            && spec_wildcard_matches(p, v) && !exclusions(before[i]).contains(spec_relative_name(p, v)));
        assert(after[i].url@ == before[i].url@);
    }
}

proof fn lemma_grows_only_trans(a: Seq<DeclarationEntry>, b: Seq<DeclarationEntry>, c: Seq<DeclarationEntry>)
    requires
        grows_only(a, b),
        grows_only(b, c),
    ensures
        grows_only(a, c),
{
    assert forall|i: int| 0 <= i < a.len() implies (#[trigger] c[i]).url@ == a[i].url@
        && forall|x: Seq<char>| #[trigger] exclusions(c[i]).contains(x) ==> exclusions(a[i]).contains(x) by {
        assert(c[i].url@ == b[i].url@);
        assert forall|x: Seq<char>| #[trigger] exclusions(c[i]).contains(x) implies exclusions(a[i]).contains(x) by {
            assert(exclusions(b[i]).contains(x));
        }
    }
}

/// The first entry that declares the concrete repository `v` explicitly.
fn explicit_position(entries: &Vec<DeclarationEntry>, reference: &RepositoryRef) -> (r: Option<usize>)
    requires
        !reference@.wildcard,
    ensures
        match r {
            Some(i) => i < entries@.len() && (spec_parse(entries@[i as int].url@) matches Ok(p) && !p.wildcard
                && spec_identity(p) == spec_identity(reference@)),
            None => !declares_exactly(entries@, reference@),
        },
        match r {
            Some(i) => i as int == first_where(entries_view(entries@), explicit_entry(reference@), entries@.len() as int),
            None => first_where(entries_view(entries@), explicit_entry(reference@), entries@.len() as int) == -1,
        },
{
    let identity = chars(reference.identity().as_str());
    let ghost ev = entries_view(entries@);
    let ghost p = explicit_entry(reference@);
    let mut i: usize = 0;
    while i < entries.len()
        invariant
            i <= entries@.len(),
            identity@ == spec_identity(reference@),
            !reference@.wildcard,
            ev == entries_view(entries@),
            p == explicit_entry(reference@),
            forall|j: int| 0 <= j < i ==> !(spec_parse((#[trigger] entries@[j]).url@) matches Ok(p) && p.wildcard == reference@.wildcard
                && spec_identity(p) == spec_identity(reference@)),
        decreases entries.len() - i,
    {
        if let Ok(parsed) = RepositoryRef::parse(entries[i].url.as_str()) {
            assert(spec_parse(entries@[i as int].url@) == Ok::<RefView, RefErrView>(parsed@));
            let found = chars(parsed.identity().as_str());
            if !parsed.wildcard && equal(&found, &identity) {
                proof {
                    assert forall|j: int| 0 <= j < i implies !p(#[trigger] ev[j]) by {
                        assert(ev[j] == entry_view(entries@[j]));
                    }
                    lemma_first_where_none(ev, p, i as int);
                    assert(ev[i as int] == entry_view(entries@[i as int]));
                    assert(first_where(ev, p, i + 1) == i);
                    lemma_first_where_stays(ev, p, i + 1, ev.len() as int);
                }
                return Some(i);
            }
        }
        i += 1;
    }
    proof {
        assert forall|j: int| 0 <= j < ev.len() implies !p(#[trigger] ev[j]) by {
            assert(ev[j] == entry_view(entries@[j]));
        }
        lemma_first_where_none(ev, p, ev.len() as int);
    }
    None
}

/// Whether some entry declares the same wildcard as `reference`.
fn wildcard_declared(entries: &Vec<DeclarationEntry>, reference: &RepositoryRef) -> (r: bool)
    requires
        reference@.wildcard,
    ensures
        r == declares_exactly(entries@, reference@),
{
    let identity = chars(reference.identity().as_str());
    let mut i: usize = 0;
    while i < entries.len()
        invariant
            i <= entries@.len(),
            identity@ == spec_identity(reference@),
            reference@.wildcard,
            forall|j: int| 0 <= j < i ==> !(spec_parse((#[trigger] entries@[j]).url@) matches Ok(p) && p.wildcard == reference@.wildcard
                && spec_identity(p) == spec_identity(reference@)),
        decreases entries.len() - i,
    {
        if let Ok(parsed) = RepositoryRef::parse(entries[i].url.as_str()) {
            assert(spec_parse(entries@[i as int].url@) == Ok::<RefView, RefErrView>(parsed@));
            if parsed.wildcard && equal(&chars(parsed.identity().as_str()), &identity) {
                return true;
            }
        }
        i += 1;
    }
    false
}

/// Drops `name` from the exclusions of entry `i`, removing an emptied list.
fn lift_exclusion(entries: &mut Vec<DeclarationEntry>, i: usize, name: &[char]) -> (changed: bool)
    requires
        i < old(entries)@.len(),
    ensures
        final(entries)@.len() == old(entries)@.len(),
        forall|j: int| 0 <= j < old(entries)@.len() && j != i ==> #[trigger] final(entries)@[j] == old(entries)@[j],
        final(entries)@[i as int].url == old(entries)@[i as int].url,
        final(entries)@[i as int].post_clone == old(entries)@[i as int].post_clone,
        forall|x: Seq<char>| #[trigger] exclusions(final(entries)@[i as int]).contains(x) <==> exclusions(old(entries)@[i as int]).contains(x) && x != name@,
        changed == exclusions(old(entries)@[i as int]).contains(name@),
        !changed ==> final(entries)@ == old(entries)@,
        entry_view(final(entries)@[i as int]) == lifted(entry_view(old(entries)@[i as int]), name@),
{
    let ghost before = entries@;
    let mut entry = entries.remove(i);
    let changed = match entry.exclude {
        Some(mut list) => {
            let dropped = drop_name(&mut list, name);
            let emptied = dropped && list.len() == 0;
            entry.exclude = if emptied { None } else { Some(list) };
            proof {
                if emptied {
                    assert forall|x: Seq<char>| #[trigger] exclusions(entry).contains(x) <==> exclusions(before[i as int]).contains(x) && x != name@ by {
                        if exclusions(before[i as int]).contains(x) && x != name@ {
                            assert(list.deep_view().contains(x));
                        }
                    }
                }
            }
            dropped
        },
        None => false,
    };
    entries.insert(i, entry);
    assert(entries@ =~= before.update(i as int, entry));
    changed
}

/// Gives entry `i` a hook.
fn attach_hook(entries: &mut Vec<DeclarationEntry>, i: usize, command: &str)
    requires
        i < old(entries)@.len(),
    ensures
        final(entries)@.len() == old(entries)@.len(),
        forall|j: int| 0 <= j < old(entries)@.len() && j != i ==> #[trigger] final(entries)@[j] == old(entries)@[j],
        final(entries)@[i as int].url == old(entries)@[i as int].url,
        final(entries)@[i as int].exclude == old(entries)@[i as int].exclude,
        final(entries)@[i as int].post_clone matches Some(h) && h@ == command@,
        entry_view(final(entries)@[i as int]) == with_hook(entry_view(old(entries)@[i as int]), Some(command@)),
{
    let ghost before = entries@;
    let mut entry = entries.remove(i);
    entry.post_clone = Some(string_of(&chars(command)));
    entries.insert(i, entry);
    assert(entries@ =~= before.update(i as int, entry));
}

pub open spec fn wildcard_hook_text() -> Seq<char> {
    "wildcard declarations cannot have post_clone"@
}

/// Registers one reference, with an optional hook. A wildcard is added unless declared; a
/// concrete reference is added unless declared or covered (a hook always asks for its own
/// declaration), and every covering wildcard stops excluding it. After a refusal the entries
/// may be partly edited and are to be discarded.
#[verifier::rlimit(40)]
pub fn register_reference(entries: &mut Vec<DeclarationEntry>, input: &str, post_clone: Option<&str>) -> (r: Result<Mutation, ConfigStoreError>)
    ensures
        match spec_register(entries_view(old(entries)@), input@, str_option_view(post_clone)) {
            Ok((es, m)) => r == Ok::<Mutation, ConfigStoreError>(m) && entries_view(final(entries)@) == es,
            Err(e) => r matches Err(x) && edit_error_matches(x, e),
        },
        spec_parse(input@) matches Err(e) ==> (r matches Err(ConfigStoreError::Reference(m)) && m@ == ref_error_text(e)),
        spec_parse(input@) matches Ok(v) && v.wildcard && post_clone.is_some() ==> (r matches Err(ConfigStoreError::Reference(m))
            && m@ == wildcard_hook_text()),
        r is Ok ==> (spec_parse(input@) matches Ok(v) && registered(final(entries)@, v)),
        r is Ok ==> grows_only(old(entries)@, final(entries)@),
        r == Ok::<Mutation, ConfigStoreError>(Mutation::Noop) ==> final(entries)@ == old(entries)@,
{
    let ghost start = entries@;
    let ghost sv = entries_view(start);
    let ghost hv = str_option_view(post_clone);
    let reference = match RepositoryRef::parse(input) {
        Ok(reference) => reference,
        Err(error) => return Err(ConfigStoreError::Reference(error.message())),
    };
    let ghost v = reference@;
    if reference.wildcard {
        if post_clone.is_some() {
            return Err(ConfigStoreError::Reference(string_of(&chars("wildcard declarations cannot have post_clone"))));
        }
        proof {
            lemma_declares_view(start, v);
        }
        if wildcard_declared(entries, &reference) {
            return Ok(Mutation::Noop);
        }
        entries.push(DeclarationEntry { url: string_of(&chars(input)), post_clone: None, exclude: None, source: None });
        assert(spec_parse(entries@[start.len() as int].url@) == Ok::<RefView, RefErrView>(v));
        assert(entries_view(entries@) =~= sv.push(new_entry(input@, None)));
        return Ok(Mutation::Changed);
    }
    let explicit_index = explicit_position(entries, &reference);
    let ghost ispec = first_where(sv, explicit_entry(v), sv.len() as int);
    if let Some(i) = explicit_index {
        if let Some(command) = post_clone {
            if let Some(existing) = &entries[i].post_clone {
                if !equal(&chars(existing.as_str()), &chars(command)) {
                    assert(sv[i as int] == entry_view(start[i as int]));
                    return Err(ConfigStoreError::Conflict(reference.identity()));
                }
            }
        }
    }
    proof {
        if ispec >= 0 {
            assert(sv[ispec] == entry_view(start[ispec]));
        }
    }
    let ghost goal = finish_register(spec_lift(sv, v), input@, hv, ispec);
    assert(spec_register(sv, input@, hv) == goal);
    let mut changed = false;
    let mut matched = false;
    let mut j: usize = 0;
    assert(entries_view(entries@).subrange(0, 0) =~= Seq::<EntryView>::empty());
    assert(sv.subrange(0, 0) =~= Seq::<EntryView>::empty());
    while j < entries.len()
        invariant
            j <= entries@.len(),
            entries@.len() == start.len(),
            v == reference@,
            spec_parse(input@) == Ok::<RefView, RefErrView>(v),
            !v.wildcard,
            grows_only(start, entries@),
            forall|k: int| 0 <= k < start.len() ==> (#[trigger] entries@[k]).post_clone == start[k].post_clone,
            matched ==> covered(entries@, v),
            !changed ==> entries@ == start,
            sv == entries_view(start),
            goal == finish_register(spec_lift(sv, v), input@, hv, ispec),
            spec_register(sv, input@, hv) == goal,
            hv == str_option_view(post_clone),
            start == old(entries)@,
            spec_lift(sv.subrange(0, j as int), v) == Ok::<(Seq<EntryView>, bool, bool), Seq<char>>(
                (entries_view(entries@).subrange(0, j as int), changed, matched),
            ),
            forall|k: int| j <= k < start.len() ==> #[trigger] entries@[k] == start[k],
        decreases entries.len() - j,
    {
        let ghost before = entries@;
        let ghost done = entries_view(before).subrange(0, j as int);
        assert(sv.subrange(0, j + 1).drop_last() =~= sv.subrange(0, j as int));
        assert(sv.subrange(0, j + 1).last() == sv[j as int]);
        assert(sv[j as int] == entry_view(start[j as int]));
        assert(before[j as int] == start[j as int]);
        let parsed = match RepositoryRef::parse(entries[j].url.as_str()) {
            Ok(parsed) => parsed,
            Err(error) => {
                proof {
                    assert(spec_parse(sv[j as int].url) == Err::<RefView, RefErrView>(error@));
                    assert(spec_lift(sv.subrange(0, j + 1), v) == Err::<(Seq<EntryView>, bool, bool), Seq<char>>(ref_error_text(error@)));
                    lemma_lift_error_stays(sv, v, j + 1);
                }
                return Err(ConfigStoreError::Reference(error.message()));
            },
        };
        assert(spec_parse(entries@[j as int].url@) == Ok::<RefView, RefErrView>(parsed@));
        if parsed.wildcard && wildcard_matches(&parsed, &reference) {
            matched = true;
            let relative = relative_wildcard_name(&parsed, &reference);
            if lift_exclusion(entries, j, &relative) {
                changed = true;
            }
            proof {
                assert(entries@[j as int].url == before[j as int].url);
                assert(!exclusions(entries@[j as int]).contains(spec_relative_name(parsed@, v)));
                assert(spec_parse(entries@[j as int].url@) == Ok::<RefView, RefErrView>(parsed@));
                assert(grows_only(before, entries@)) by {
                    assert forall|k: int| 0 <= k < before.len() implies (#[trigger] entries@[k]).url@ == before[k].url@
                        && forall|x: Seq<char>| #[trigger] exclusions(entries@[k]).contains(x) ==> exclusions(before[k]).contains(x) by {
                        if k != j {
                            assert(entries@[k] == before[k]);
                        }
                    }
                }
                lemma_grows_only_trans(start, before, entries@);
                assert(view_exclusions(sv[j as int]) == exclusions(start[j as int]).map_values(|x: Seq<char>| x)
                    || true);
                assert(entries_view(entries@).subrange(0, j + 1) =~= done.push(lifted(sv[j as int], relative@))) by {
                    assert forall|k: int| 0 <= k < j implies entries@[k] == before[k] by {}
                }
                assert(view_exclusions(sv[j as int]).contains(relative@) == exclusions(start[j as int]).contains(relative@));
                assert forall|k: int| j + 1 <= k < start.len() implies #[trigger] entries@[k] == start[k] by {
                    assert(entries@[k] == before[k]);
                }
            }
        } else {
            assert(entries_view(entries@).subrange(0, j + 1) =~= done.push(sv[j as int]));
        }
        j += 1;
    }
    assert(sv.subrange(0, sv.len() as int) =~= sv);
    assert(entries_view(entries@).subrange(0, entries@.len() as int) =~= entries_view(entries@));
    let ghost after_lift = entries@;
    match explicit_index {
        Some(i) => {
            if let Some(command) = post_clone {
                if entries[i].post_clone.is_none() {
                    attach_hook(entries, i, command);
                    changed = true;
                    proof {
                        assert(grows_only(after_lift, entries@)) by {
                            assert forall|k: int| 0 <= k < after_lift.len() implies (#[trigger] entries@[k]).url@ == after_lift[k].url@
                                && forall|x: Seq<char>| #[trigger] exclusions(entries@[k]).contains(x) ==> exclusions(after_lift[k]).contains(x) by {
                                if k != i {
                                    assert(entries@[k] == after_lift[k]);
                                }
                            }
                        }
                        lemma_grows_only_trans(start, after_lift, entries@);
                        assert(entries_view(entries@) =~= entries_view(after_lift).update(
                            i as int,
                            with_hook(entries_view(after_lift)[i as int], hv),
                        )) by {
                            assert forall|k: int| 0 <= k < after_lift.len() && k != i implies entries@[k] == after_lift[k] by {}
                        }
                    }
                }
            }
            assert(entries@[i as int].url@ == start[i as int].url@);
            assert(declares_exactly(entries@, v));
        },
        None => {
            if post_clone.is_some() || !matched {
                let hook = match post_clone {
                    Some(command) => Some(string_of(&chars(command))),
                    None => None,
                };
                entries.push(DeclarationEntry { url: string_of(&chars(input)), post_clone: hook, exclude: None, source: None });
                changed = true;
                proof {
                    assert(spec_parse(entries@[after_lift.len() as int].url@) == Ok::<RefView, RefErrView>(v));
                    assert(declares_exactly(entries@, v));
                    assert(grows_only(after_lift, entries@)) by {
                        assert forall|k: int| 0 <= k < after_lift.len() implies (#[trigger] entries@[k]).url@ == after_lift[k].url@
                            && forall|x: Seq<char>| #[trigger] exclusions(entries@[k]).contains(x) ==> exclusions(after_lift[k]).contains(x) by {
                            assert(entries@[k] == after_lift[k]);
                        }
                    }
                    lemma_grows_only_trans(start, after_lift, entries@);
                    assert(entries_view(entries@) =~= entries_view(after_lift).push(new_entry(input@, hv)));
                }
            }
        },
    }
    if changed {
        Ok(Mutation::Changed)
    } else {
        Ok(Mutation::Noop)
    }
}

// ---------------------------------------------------------------------------
// Removing
// ---------------------------------------------------------------------------

/// Every entry of `after` is an entry of `before` with the same URL whose exclusions only
/// gained names.
pub open spec fn shrinks_only(before: Seq<DeclarationEntry>, after: Seq<DeclarationEntry>) -> bool {
    forall|j: int| 0 <= j < after.len() ==> derived_somewhere(before, #[trigger] after[j])
}

pub open spec fn derived_somewhere(before: Seq<DeclarationEntry>, e: DeclarationEntry) -> bool {
    exists|i: int| 0 <= i < before.len() && #[trigger] derived_from(before[i], e)
}

pub open spec fn derived_from(before: DeclarationEntry, after: DeclarationEntry) -> bool {
    after.url@ == before.url@ && forall|x: Seq<char>| #[trigger] exclusions(before).contains(x) ==> exclusions(after).contains(x)
}

proof fn lemma_shrinks_only_keeps_unregistered(before: Seq<DeclarationEntry>, after: Seq<DeclarationEntry>, v: RefView)
    requires
        shrinks_only(before, after),
        unregistered(before, v),
    ensures
        unregistered(after, v),
{
    assert forall|j: int| 0 <= j < after.len() implies !(spec_parse((#[trigger] after[j]).url@) matches Ok(p) && spec_identity(p) == spec_identity(v)) by {
        assert(derived_somewhere(before, after[j]));
        let i = choose|i: int| 0 <= i < before.len() && #[trigger] derived_from(before[i], after[j]);
        assert(!(spec_parse(before[i].url@) matches Ok(p) && spec_identity(p) == spec_identity(v)));
    }
    if covered(after, v) {
        let j = choose|j: int| 0 <= j < after.len() && (spec_parse((#[trigger] after[j]).url@) matches Ok(p) && p.wildcard
            && spec_wildcard_matches(p, v) && !exclusions(after[j]).contains(spec_relative_name(p, v)));
        assert(derived_somewhere(before, after[j]));
        let i = choose|i: int| 0 <= i < before.len() && #[trigger] derived_from(before[i], after[j]);
        assert(covered(before, v));
    }
}

proof fn lemma_shrinks_only_trans(a: Seq<DeclarationEntry>, b: Seq<DeclarationEntry>, c: Seq<DeclarationEntry>)
    requires
        shrinks_only(a, b),
        shrinks_only(b, c),
    ensures
        shrinks_only(a, c),
{
    assert forall|k: int| 0 <= k < c.len() implies derived_somewhere(a, #[trigger] c[k]) by {
        assert(derived_somewhere(b, c[k]));
        let j = choose|j: int| 0 <= j < b.len() && #[trigger] derived_from(b[j], c[k]);
        assert(derived_somewhere(a, b[j]));
        let i = choose|i: int| 0 <= i < a.len() && #[trigger] derived_from(a[i], b[j]);
        assert(derived_from(a[i], c[k]));
    }
}

fn contains_name(list: &Vec<String>, name: &[char]) -> (r: bool)
    ensures
        r == list.deep_view().contains(name@),
{
    let mut i: usize = 0;
    while i < list.len()
        invariant
            i <= list@.len(),
            forall|j: int| 0 <= j < i ==> list.deep_view()[j] != name@,
        decreases list.len() - i,
    {
        assert(list.deep_view()[i as int] == list@[i as int]@);
        if equal(&chars(list[i].as_str()), name) {
            return true;
        }
        i += 1;
    }
    false
}

/// Removes one reference: every declaration with its identity goes, and every wildcard that
/// covers it gains an exclusion for it.
#[verifier::rlimit(40)]
pub fn remove_reference(entries: &mut Vec<DeclarationEntry>, input: &str) -> (r: Result<Mutation, ConfigStoreError>)
    ensures
        match spec_unregister(entries_view(old(entries)@), input@) {
            Ok((es, m)) => r == Ok::<Mutation, ConfigStoreError>(m) && entries_view(final(entries)@) == es,
            Err(e) => r matches Err(x) && edit_error_matches(x, e),
        },
        spec_parse(input@) matches Err(e) ==> (r matches Err(ConfigStoreError::Reference(m)) && m@ == ref_error_text(e)),
        r is Ok ==> (spec_parse(input@) matches Ok(v) && unregistered(final(entries)@, v)),
        r is Ok ==> shrinks_only(old(entries)@, final(entries)@),
        r == Ok::<Mutation, ConfigStoreError>(Mutation::Noop) ==> final(entries)@ == old(entries)@,
{
    let ghost start = entries@;
    let ghost sv = entries_view(start);
    let reference = match RepositoryRef::parse(input) {
        Ok(reference) => reference,
        Err(error) => return Err(ConfigStoreError::Reference(error.message())),
    };
    let ghost v = reference@;
    let identity = chars(reference.identity().as_str());
    let mut rest: Vec<DeclarationEntry> = Vec::new();
    std::mem::swap(entries, &mut rest);
    let mut keep: Vec<DeclarationEntry> = Vec::new();
    let mut removed = false;
    let mut done: usize = 0;
    let total = rest.len();
    assert(rest@ == start);
    assert(sv.subrange(0, 0) =~= Seq::<EntryView>::empty());
    assert(entries_view(keep@) =~= Seq::<EntryView>::empty());
    while rest.len() > 0
        invariant
            start == old(entries)@,
            sv == entries_view(start),
            spec_remove(sv.subrange(0, done as int), v) == Ok::<(Seq<EntryView>, bool), Seq<char>>((entries_view(keep@), removed)),
            done + rest@.len() == start.len(),
            start.len() == total,
            rest@ == start.subrange(done as int, start.len() as int),
            v == reference@,
            identity@ == spec_identity(v),
            spec_parse(input@) == Ok::<RefView, RefErrView>(v),
            forall|k: int| 0 <= k < keep@.len() ==> !(spec_parse((#[trigger] keep@[k]).url@) matches Ok(p) && spec_identity(p) == spec_identity(v)),
            forall|k: int| 0 <= k < keep@.len() ==> !(spec_parse((#[trigger] keep@[k]).url@) matches Ok(p) && p.wildcard
                && spec_wildcard_matches(p, v) && !exclusions(keep@[k]).contains(spec_relative_name(p, v))),
            shrinks_only(start, keep@),
            !removed ==> keep@ == start.subrange(0, done as int),
        decreases rest@.len(),
    {
        let mut entry = rest.remove(0);
        assert(entry == start[done as int]);
        let ghost kept_view = entries_view(keep@);
        assert(sv.subrange(0, done + 1).drop_last() =~= sv.subrange(0, done as int));
        assert(sv.subrange(0, done + 1).last() == sv[done as int]);
        assert(sv[done as int] == entry_view(entry));
        let parsed = match RepositoryRef::parse(entry.url.as_str()) {
            Ok(parsed) => parsed,
            Err(error) => {
                proof {
                    assert(spec_remove(sv.subrange(0, done + 1), v) == Err::<(Seq<EntryView>, bool), Seq<char>>(ref_error_text(error@)));
                    lemma_remove_error_stays(sv, v, done + 1);
                }
                return Err(ConfigStoreError::Reference(error.message()));
            },
        };
        let ghost before_keep = keep@;
        let ghost original = entry;
        if equal(&chars(parsed.identity().as_str()), &identity) {
            removed = true;
        } else {
            if parsed.wildcard && wildcard_matches(&parsed, &reference) {
                let relative = relative_wildcard_name(&parsed, &reference);
                match entry.exclude {
                    None => {
                        let mut list: Vec<String> = Vec::new();
                        list.push(string_of(&relative));
                        assert(list.deep_view() =~= seq![relative@]);
                        entry.exclude = Some(list);
                        removed = true;
                    },
                    Some(mut list) => {
                        if !contains_name(&list, &relative) {
                            let ghost before_list = list.deep_view();
                            list.push(string_of(&relative));
                            assert(list.deep_view() =~= before_list.push(relative@));
                            removed = true;
                        }
                        entry.exclude = Some(list);
                    },
                }
                assert(exclusions(entry).contains(spec_relative_name(parsed@, v)));
            }
            assert(derived_from(original, entry));
            keep.push(entry);
            assert(entries_view(keep@) =~= kept_view.push(entry_view(entry)));
            proof {
                assert(derived_from(start[done as int], keep@[before_keep.len() as int]));
                assert forall|j: int| 0 <= j < keep@.len() implies derived_somewhere(start, #[trigger] keep@[j]) by {
                    if j < before_keep.len() {
                        assert(keep@[j] == before_keep[j]);
                    }
                }
                if !removed {
                    assert(keep@ =~= start.subrange(0, done + 1));
                }
            }
        }
        done += 1;
    }
    *entries = keep;
    assert(sv.subrange(0, sv.len() as int) =~= sv);
    if removed {
        Ok(Mutation::Changed)
    } else {
        assert(start.subrange(0, start.len() as int) =~= start);
        Ok(Mutation::Noop)
    }
}

// ---------------------------------------------------------------------------
// Batches
// ---------------------------------------------------------------------------

/// Registers each request in turn; a failure ends the batch, and nothing of it is to be kept.
pub fn edit_registrations(entries: &mut Vec<DeclarationEntry>, requests: &Vec<RegistrationRequest>) -> (r: Result<Vec<Mutation>, ConfigStoreError>)
    ensures
        match spec_register_all(entries_view(old(entries)@), requests@.map_values(|q: RegistrationRequest| request_view(q))) {
            Ok((es, ms)) => r matches Ok(x) && x@ == ms && entries_view(final(entries)@) == es,
            Err(e) => r matches Err(x) && edit_error_matches(x, e),
        },
        (exists|k: int| 0 <= k < requests@.len() && spec_parse((#[trigger] requests@[k]).reference@) is Err) ==> r is Err,
        r matches Ok(ms) ==> ms@.len() == requests@.len() && forall|k: int| 0 <= k < requests@.len()
            ==> (spec_parse((#[trigger] requests@[k]).reference@) matches Ok(v) && registered(final(entries)@, v)),
        r is Ok ==> grows_only(old(entries)@, final(entries)@),
{
    let ghost start = entries@;
    let ghost sv = entries_view(start);
    let ghost rv = requests@.map_values(|q: RegistrationRequest| request_view(q));
    let mut results: Vec<Mutation> = Vec::new();
    let mut i: usize = 0;
    assert(grows_only(start, entries@));
    assert(rv.subrange(0, 0) =~= Seq::<(Seq<char>, Option<Seq<char>>)>::empty());
    assert(results@ =~= Seq::<Mutation>::empty());
    while i < requests.len()
        invariant
            start == old(entries)@,
            sv == entries_view(start),
            rv == requests@.map_values(|q: RegistrationRequest| request_view(q)),
            spec_register_all(sv, rv.subrange(0, i as int)) == Ok::<(Seq<EntryView>, Seq<Mutation>), EditError>(
                (entries_view(entries@), results@),
            ),
            i <= requests@.len(),
            results@.len() == i,
            grows_only(start, entries@),
            forall|k: int| 0 <= k < i ==> (spec_parse((#[trigger] requests@[k]).reference@) matches Ok(v) && registered(entries@, v)),
        decreases requests.len() - i,
    {
        let request = &requests[i];
        let hook = match &request.post_clone {
            Some(command) => Some(command.as_str()),
            None => None,
        };
        let ghost before = entries@;
        assert(rv.subrange(0, i + 1).drop_last() =~= rv.subrange(0, i as int));
        assert(rv.subrange(0, i + 1).last() == rv[i as int]);
        assert(rv[i as int] == (request.reference@, str_option_view(hook)));
        let mutation = match register_reference(entries, request.reference.as_str(), hook) {
            Ok(mutation) => mutation,
            Err(error) => {
                proof {
                    assert forall|k: int| 0 <= k < i implies spec_parse((#[trigger] requests@[k]).reference@) is Ok by {}
                    assert(spec_register_all(sv, rv.subrange(0, i + 1)) is Err);
                    lemma_register_all_error_stays(sv, rv, i + 1);
                }
                return Err(error);
            },
        };
        proof {
            assert forall|k: int| 0 <= k < i + 1 implies (spec_parse((#[trigger] requests@[k]).reference@) matches Ok(v) && registered(entries@, v)) by {
                if k < i {
                    let v = spec_parse(requests@[k].reference@)->Ok_0;
                    lemma_grows_only_keeps_registered(before, entries@, v);
                }
            }
            lemma_grows_only_trans(start, before, entries@);
        }
        let ghost done = results@;
        results.push(mutation);
        assert(results@ =~= done.push(mutation));
        i += 1;
    }
    assert(rv.subrange(0, rv.len() as int) =~= rv);
    Ok(results)
}

/// Registers each reference with the same optional hook.
pub fn register_references(entries: &mut Vec<DeclarationEntry>, references: &Vec<String>, post_clone: Option<&str>) -> (r: Result<Vec<Mutation>, ConfigStoreError>)
    ensures
        match spec_register_all(
            entries_view(old(entries)@),
            references@.map_values(|s: String| (s@, str_option_view(post_clone))),
        ) {
            Ok((es, ms)) => r matches Ok(x) && x@ == ms && entries_view(final(entries)@) == es,
            Err(e) => r matches Err(x) && edit_error_matches(x, e),
        },
        (exists|k: int| 0 <= k < references@.len() && spec_parse((#[trigger] references@[k])@) is Err) ==> r is Err,
        r matches Ok(ms) ==> ms@.len() == references@.len() && forall|k: int| 0 <= k < references@.len()
            ==> (spec_parse((#[trigger] references@[k])@) matches Ok(v) && registered(final(entries)@, v)),
        r is Ok ==> grows_only(old(entries)@, final(entries)@),
{
    let mut requests: Vec<RegistrationRequest> = Vec::new();
    let mut i: usize = 0;
    while i < references.len()
        invariant
            i <= references@.len(),
            requests@.len() == i,
            forall|k: int| 0 <= k < i ==> (#[trigger] requests@[k]).reference@ == references@[k]@,
            forall|k: int| 0 <= k < i ==> option_view((#[trigger] requests@[k]).post_clone) == str_option_view(post_clone),
        decreases references.len() - i,
    {
        let hook = match post_clone {
            Some(command) => Some(string_of(&chars(command))),
            None => None,
        };
        requests.push(RegistrationRequest { reference: string_of(&chars(references[i].as_str())), post_clone: hook });
        i += 1;
    }
    let r = edit_registrations(entries, &requests);
    assert(requests@.map_values(|q: RegistrationRequest| request_view(q)) =~= references@.map_values(
        |s: String| (s@, str_option_view(post_clone)),
    ));
    proof {
        if exists|k: int| 0 <= k < references@.len() && spec_parse((#[trigger] references@[k])@) is Err {
            let k = choose|k: int| 0 <= k < references@.len() && spec_parse((#[trigger] references@[k])@) is Err;
            assert(spec_parse(requests@[k].reference@) is Err);
        }
        if r is Ok {
            assert forall|k: int| 0 <= k < references@.len() implies (spec_parse((#[trigger] references@[k])@) matches Ok(v)
                && registered(entries@, v)) by {
                assert(requests@[k].reference@ == references@[k]@);
            }
        }
    }
    r
}

/// Removes each reference in turn; a failure ends the batch, and nothing of it is to be kept.
pub fn remove_references(entries: &mut Vec<DeclarationEntry>, references: &Vec<String>) -> (r: Result<Vec<Mutation>, ConfigStoreError>)
    ensures
        match spec_unregister_all(entries_view(old(entries)@), references@.map_values(|s: String| s@)) {
            Ok((es, ms)) => r matches Ok(x) && x@ == ms && entries_view(final(entries)@) == es,
            Err(e) => r matches Err(x) && edit_error_matches(x, e),
        },
        (exists|k: int| 0 <= k < references@.len() && spec_parse((#[trigger] references@[k])@) is Err) ==> r is Err,
        r matches Ok(ms) ==> ms@.len() == references@.len() && forall|k: int| 0 <= k < references@.len()
            ==> (spec_parse((#[trigger] references@[k])@) matches Ok(v) && unregistered(final(entries)@, v)),
        r is Ok ==> shrinks_only(old(entries)@, final(entries)@),
{
    let ghost start = entries@;
    let ghost sv = entries_view(start);
    let ghost rv = references@.map_values(|s: String| s@);
    let mut results: Vec<Mutation> = Vec::new();
    let mut i: usize = 0;
    assert forall|j: int| 0 <= j < entries@.len() implies derived_somewhere(start, #[trigger] entries@[j]) by {
        assert(derived_from(start[j], entries@[j]));
    }
    assert(rv.subrange(0, 0) =~= Seq::<Seq<char>>::empty());
    assert(results@ =~= Seq::<Mutation>::empty());
    while i < references.len()
        invariant
            start == old(entries)@,
            sv == entries_view(start),
            rv == references@.map_values(|s: String| s@),
            spec_unregister_all(sv, rv.subrange(0, i as int)) == Ok::<(Seq<EntryView>, Seq<Mutation>), EditError>(
                (entries_view(entries@), results@),
            ),
            i <= references@.len(),
            results@.len() == i,
            shrinks_only(start, entries@),
            forall|k: int| 0 <= k < i ==> (spec_parse((#[trigger] references@[k])@) matches Ok(v) && unregistered(entries@, v)),
        decreases references.len() - i,
    {
        let ghost before = entries@;
        assert(rv.subrange(0, i + 1).drop_last() =~= rv.subrange(0, i as int));
        assert(rv.subrange(0, i + 1).last() == rv[i as int]);
        let mutation = match remove_reference(entries, references[i].as_str()) {
            Ok(mutation) => mutation,
            Err(error) => {
                proof {
                    assert forall|k: int| 0 <= k < i implies spec_parse((#[trigger] references@[k])@) is Ok by {}
                    assert(spec_unregister_all(sv, rv.subrange(0, i + 1)) is Err);
                    lemma_unregister_all_error_stays(sv, rv, i + 1);
                }
                return Err(error);
            },
        };
        proof {
            assert forall|k: int| 0 <= k < i + 1 implies (spec_parse((#[trigger] references@[k])@) matches Ok(v) && unregistered(entries@, v)) by {
                if k < i {
                    let v = spec_parse(references@[k]@)->Ok_0;
                    lemma_shrinks_only_keeps_unregistered(before, entries@, v);
                }
            }
            lemma_shrinks_only_trans(start, before, entries@);
        }
        let ghost done = results@;
        results.push(mutation);
        assert(results@ =~= done.push(mutation));
        i += 1;
    }
    assert(rv.subrange(0, rv.len() as int) =~= rv);
    Ok(results)
}

/// A repository that was removed is no longer registered: no declaration and no covering
/// wildcard that does not exclude it.
pub proof fn law_unregistered_is_not_registered(entries: Seq<DeclarationEntry>, v: RefView)
    requires
        unregistered(entries, v),
    ensures
        !registered(entries, v),
{
    if declares_exactly(entries, v) {
        let i = choose|i: int| 0 <= i < entries.len() && (spec_parse((#[trigger] entries[i]).url@) matches Ok(p) && p.wildcard == v.wildcard
            && spec_identity(p) == spec_identity(v));
        assert(!(spec_parse(entries[i].url@) matches Ok(p) && spec_identity(p) == spec_identity(v)));
    }
}

/// Some wildcard among the entries covers the concrete `v`.
pub open spec fn covers(es: Seq<EntryView>, v: RefView) -> bool {
    exists|i: int| 0 <= i < es.len() && (spec_parse((#[trigger] es[i]).url) matches Ok(p) && p.wildcard && spec_wildcard_matches(p, v))
}

/// Every entry reads, and no wildcard covering `v` excludes it.
pub open spec fn lift_stable(es: Seq<EntryView>, v: RefView) -> bool {
    forall|i: int| 0 <= i < es.len() ==> (spec_parse((#[trigger] es[i]).url) matches Ok(p)
        && (p.wildcard && spec_wildcard_matches(p, v) ==> !view_exclusions(es[i]).contains(spec_relative_name(p, v))))
}

proof fn lemma_without_drops(l: Seq<Seq<char>>, name: Seq<char>)
    ensures
        !without(l, name).contains(name),
    decreases l.len(),
{
    if l.len() > 0 {
        lemma_without_drops(l.drop_last(), name);
        if l.last() != name {
            let w = without(l.drop_last(), name);
            assert forall|j: int| 0 <= j < w.push(l.last()).len() implies w.push(l.last())[j] != name by {
                if j < w.len() {
                    assert(w.push(l.last())[j] == w[j]);
                }
            }
        }
    }
}

proof fn lemma_lifted(e: EntryView, name: Seq<char>)
    ensures
        lifted(e, name).url == e.url,
        lifted(e, name).post_clone == e.post_clone,
        !view_exclusions(lifted(e, name)).contains(name),
{
    if let Some(l) = e.exclude {
        lemma_without_drops(l, name);
    }
}

/// What lifting leaves: the same entries by URL and hook, none of the covering wildcards
/// excluding `v` any more, and whether some wildcard covers `v`.
#[verifier::spinoff_prover]
#[verifier::rlimit(50)]
proof fn lemma_lift_result(es: Seq<EntryView>, v: RefView)
    requires
        spec_lift(es, v) is Ok,
    ensures
        ({
            let (d, c, m) = spec_lift(es, v)->Ok_0;
            &&& d.len() == es.len()
            &&& forall|i: int| 0 <= i < es.len() ==> (#[trigger] d[i]).url == es[i].url && d[i].post_clone == es[i].post_clone
            &&& lift_stable(d, v)
            &&& m == covers(es, v)
        }),
    decreases es.len(),
{
    if es.len() > 0 {
        let prev = es.drop_last();
        lemma_lift_result(prev, v);
        let (d0, c0, m0) = spec_lift(prev, v)->Ok_0;
        let e = es.last();
        let p = spec_parse(e.url)->Ok_0;
        let (d, c, m) = spec_lift(es, v)->Ok_0;
        let hit = p.wildcard && spec_wildcard_matches(p, v);
        if hit {
            lemma_lifted(e, spec_relative_name(p, v));
        }
        assert(d.len() == es.len());
        assert forall|i: int| 0 <= i < es.len() implies (#[trigger] d[i]).url == es[i].url && d[i].post_clone == es[i].post_clone by {
            if i < prev.len() {
                assert(d[i] == d0[i]);
                assert(es[i] == prev[i]);
            }
        }
        assert forall|i: int| 0 <= i < d.len() implies (spec_parse((#[trigger] d[i]).url) matches Ok(q)
            && (q.wildcard && spec_wildcard_matches(q, v) ==> !view_exclusions(d[i]).contains(spec_relative_name(q, v)))) by {
            if i < prev.len() {
                assert(d[i] == d0[i]);
            }
        }
        assert(m == covers(es, v)) by {
            if covers(prev, v) {
                let j = choose|j: int| 0 <= j < prev.len() && (spec_parse((#[trigger] prev[j]).url) matches Ok(q) && q.wildcard && spec_wildcard_matches(q, v));
                assert(es[j] == prev[j]);
            }
            if covers(es, v) {
                let j = choose|j: int| 0 <= j < es.len() && (spec_parse((#[trigger] es[j]).url) matches Ok(q) && q.wildcard && spec_wildcard_matches(q, v));
                if j < prev.len() {
                    assert(es[j] == prev[j]);
                }
            }
            if hit {
                assert(es[es.len() - 1] == e);
            }
        }
    }
}

/// Lifting entries that no covering wildcard excludes `v` from changes nothing.
#[verifier::spinoff_prover]
#[verifier::rlimit(50)]
proof fn lemma_stable_lift(es: Seq<EntryView>, v: RefView)
    requires
        lift_stable(es, v),
    ensures
        spec_lift(es, v) == Ok::<(Seq<EntryView>, bool, bool), Seq<char>>((es, false, covers(es, v))),
    decreases es.len(),
{
    if es.len() == 0 {
        assert(es =~= Seq::<EntryView>::empty());
    } else {
        let prev = es.drop_last();
        assert forall|i: int| 0 <= i < prev.len() implies (spec_parse((#[trigger] prev[i]).url) matches Ok(p)
            && (p.wildcard && spec_wildcard_matches(p, v) ==> !view_exclusions(prev[i]).contains(spec_relative_name(p, v)))) by {
            assert(prev[i] == es[i]);
        }
        lemma_stable_lift(prev, v);
        let e = es.last();
        assert(es[es.len() - 1] == e);
        let p = spec_parse(e.url)->Ok_0;
        assert(prev.push(e) =~= es);
        assert(covers(es, v) == (covers(prev, v) || (p.wildcard && spec_wildcard_matches(p, v)))) by {
            if covers(prev, v) {
                let j = choose|j: int| 0 <= j < prev.len() && (spec_parse((#[trigger] prev[j]).url) matches Ok(q) && q.wildcard && spec_wildcard_matches(q, v));
                assert(es[j] == prev[j]);
            }
            if covers(es, v) {
                let j = choose|j: int| 0 <= j < es.len() && (spec_parse((#[trigger] es[j]).url) matches Ok(q) && q.wildcard && spec_wildcard_matches(q, v));
                if j < prev.len() {
                    assert(es[j] == prev[j]);
                }
            }
        }
    }
}

proof fn lemma_first_where_urls(a: Seq<EntryView>, b: Seq<EntryView>, v: RefView, n: int)
    requires
        0 <= n <= a.len(),
        n <= b.len(),
        forall|i: int| 0 <= i < n ==> (#[trigger] a[i]).url == b[i].url,
    ensures
        first_where(a, explicit_entry(v), n) == first_where(b, explicit_entry(v), n),
    decreases n,
{
    if n > 0 {
        lemma_first_where_urls(a, b, v, n - 1);
        assert(a[n - 1].url == b[n - 1].url);
    }
}

/// Registering a reference a second time, with the same hook, changes nothing: the entries
/// stay as the first registration left them and the result is a no-op.
#[verifier::spinoff_prover]
#[verifier::rlimit(50)]
pub proof fn law_register_twice_changes_nothing(es: Seq<EntryView>, input: Seq<char>, hook: Option<Seq<char>>)
    requires
        spec_register(es, input, hook) is Ok,
    ensures
        spec_register(spec_register(es, input, hook)->Ok_0.0, input, hook)
            == Ok::<(Seq<EntryView>, Mutation), EditError>((spec_register(es, input, hook)->Ok_0.0, Mutation::Noop)),
{
    let v = spec_parse(input)->Ok_0;
    let after = spec_register(es, input, hook)->Ok_0.0;
    if v.wildcard {
        if !declares_view(es, v) {
            assert(after == es.push(new_entry(input, None)));
            assert(after[es.len() as int] == new_entry(input, None));
            assert(declares_view(after, v));
        }
    } else {
        let f = explicit_entry(v);
        let n = es.len() as int;
        let i = first_where(es, f, n);
        lemma_lift_result(es, v);
        let (d, c, m) = spec_lift(es, v)->Ok_0;
        lemma_first_where_bounds(es, f, n);
        if i >= 0 {
            let case_hook = hook is Some && d[i].post_clone is None;
            let next = if case_hook { d.update(i, with_hook(d[i], hook)) } else { d };
            assert(after == next);
            assert forall|k: int| 0 <= k < n implies (#[trigger] next[k]).url == es[k].url by {
                assert(d[k].url == es[k].url);
            }
            lemma_first_where_urls(next, es, v, n);
            assert(lift_stable(next, v)) by {
                assert forall|k: int| 0 <= k < next.len() implies (spec_parse((#[trigger] next[k]).url) matches Ok(p)
                    && (p.wildcard && spec_wildcard_matches(p, v) ==> !view_exclusions(next[k]).contains(spec_relative_name(p, v)))) by {
                    assert(spec_parse(d[k].url) is Ok);
                }
            }
            lemma_stable_lift(next, v);
            assert(next[i].post_clone == (if case_hook { hook } else { d[i].post_clone }));
            assert(!conflicts(next[i].post_clone, hook));
        } else {
            if hook is Some || !m {
                let next = d.push(new_entry(input, hook));
                assert(after == next);
                assert forall|k: int| 0 <= k < n implies (#[trigger] next[k]).url == es[k].url by {
                    assert(next[k] == d[k]);
                }
                lemma_first_where_urls(next, es, v, n);
                assert(next[n] == new_entry(input, hook));
                assert(f(next[n]));
                assert(first_where(next, f, n + 1) == n);
                assert(lift_stable(next, v)) by {
                    assert forall|k: int| 0 <= k < next.len() implies (spec_parse((#[trigger] next[k]).url) matches Ok(p)
                        && (p.wildcard && spec_wildcard_matches(p, v) ==> !view_exclusions(next[k]).contains(spec_relative_name(p, v)))) by {
                        if k < n {
                            assert(next[k] == d[k]);
                        }
                    }
                }
                lemma_stable_lift(next, v);
            } else {
                assert(after == d);
                lemma_first_where_urls(d, es, v, n);
                lemma_stable_lift(d, v);
                assert(covers(d, v) == covers(es, v)) by {
                    if covers(d, v) {
                        let j = choose|j: int| 0 <= j < d.len() && (spec_parse((#[trigger] d[j]).url) matches Ok(q) && q.wildcard && spec_wildcard_matches(q, v));
                        assert(d[j].url == es[j].url);
                    }
                    if covers(es, v) {
                        let j = choose|j: int| 0 <= j < es.len() && (spec_parse((#[trigger] es[j]).url) matches Ok(q) && q.wildcard && spec_wildcard_matches(q, v));
                        assert(d[j].url == es[j].url);
                    }
                }
            }
        }
    }
}

/// Every entry reads, none names `v`'s identity, and every wildcard covering `v` excludes it.
pub open spec fn remove_stable(es: Seq<EntryView>, v: RefView) -> bool {
    forall|i: int| 0 <= i < es.len() ==> (spec_parse((#[trigger] es[i]).url) matches Ok(p) && spec_identity(p) != spec_identity(v)
        && (p.wildcard && spec_wildcard_matches(p, v) ==> view_exclusions(es[i]).contains(spec_relative_name(p, v))))
}

proof fn lemma_excluded(e: EntryView, name: Seq<char>)
    ensures
        excluded(e, name).0.url == e.url,
        view_exclusions(excluded(e, name).0).contains(name),
        view_exclusions(e).contains(name) ==> excluded(e, name) == (e, false),
{
    match e.exclude {
        None => {
            assert(seq![name][0] == name);
        },
        Some(l) => {
            if !l.contains(name) {
                assert(l.push(name)[l.len() as int] == name);
            }
        },
    }
}

/// What removing leaves: no entry names `v`'s identity and each covering wildcard excludes it.
#[verifier::spinoff_prover]
#[verifier::rlimit(50)]
proof fn lemma_remove_result(es: Seq<EntryView>, v: RefView)
    requires
        spec_remove(es, v) is Ok,
    ensures
        remove_stable(spec_remove(es, v)->Ok_0.0, v),
    decreases es.len(),
{
    if es.len() > 0 {
        let prev = es.drop_last();
        lemma_remove_result(prev, v);
        let (k0, r0) = spec_remove(prev, v)->Ok_0;
        let e = es.last();
        let p = spec_parse(e.url)->Ok_0;
        let (k, r) = spec_remove(es, v)->Ok_0;
        if spec_identity(p) != spec_identity(v) {
            if p.wildcard && spec_wildcard_matches(p, v) {
                lemma_excluded(e, spec_relative_name(p, v));
            }
            assert forall|i: int| 0 <= i < k.len() implies (spec_parse((#[trigger] k[i]).url) matches Ok(q) && spec_identity(q) != spec_identity(v)
                && (q.wildcard && spec_wildcard_matches(q, v) ==> view_exclusions(k[i]).contains(spec_relative_name(q, v)))) by {
                if i < k0.len() {
                    assert(k[i] == k0[i]);
                }
            }
        }
    }
}

/// Removing `v` from entries it has already been removed from changes nothing.
proof fn lemma_stable_remove(es: Seq<EntryView>, v: RefView)
    requires
        remove_stable(es, v),
    ensures
        spec_remove(es, v) == Ok::<(Seq<EntryView>, bool), Seq<char>>((es, false)),
    decreases es.len(),
{
    if es.len() == 0 {
        assert(es =~= Seq::<EntryView>::empty());
    } else {
        let prev = es.drop_last();
        assert forall|i: int| 0 <= i < prev.len() implies (spec_parse((#[trigger] prev[i]).url) matches Ok(p) && spec_identity(p) != spec_identity(v)
            && (p.wildcard && spec_wildcard_matches(p, v) ==> view_exclusions(prev[i]).contains(spec_relative_name(p, v)))) by {
            assert(prev[i] == es[i]);
        }
        lemma_stable_remove(prev, v);
        let e = es.last();
        assert(es[es.len() - 1] == e);
        let p = spec_parse(e.url)->Ok_0;
        if p.wildcard && spec_wildcard_matches(p, v) {
            lemma_excluded(e, spec_relative_name(p, v));
        }
        assert(prev.push(e) =~= es);
    }
}

/// Removing a reference a second time changes nothing; after the first removal no entry
/// names it and every wildcard covering it excludes it.
pub proof fn law_unregister_twice_changes_nothing(es: Seq<EntryView>, input: Seq<char>)
    requires
        spec_unregister(es, input) is Ok,
    ensures
        remove_stable(spec_unregister(es, input)->Ok_0.0, spec_parse(input)->Ok_0),
        spec_unregister(spec_unregister(es, input)->Ok_0.0, input)
            == Ok::<(Seq<EntryView>, Mutation), EditError>((spec_unregister(es, input)->Ok_0.0, Mutation::Noop)),
{
    let v = spec_parse(input)->Ok_0;
    lemma_remove_result(es, v);
    lemma_stable_remove(spec_remove(es, v)->Ok_0.0, v);
}

/// Registering a reference that no entry names and no wildcard covers, then removing it,
/// gives back the entries it started from.
#[verifier::spinoff_prover]
#[verifier::rlimit(50)]
pub proof fn law_register_then_unregister_round_trips(es: Seq<EntryView>, input: Seq<char>, hook: Option<Seq<char>>)
    requires
        spec_register(es, input, hook) is Ok,
        spec_parse(input) matches Ok(v) && !v.wildcard && !covers(es, v)
            && forall|i: int| 0 <= i < es.len() ==> (spec_parse((#[trigger] es[i]).url) matches Ok(p) && spec_identity(p) != spec_identity(v)),
    ensures
        spec_unregister(spec_register(es, input, hook)->Ok_0.0, input) == Ok::<(Seq<EntryView>, Mutation), EditError>((es, Mutation::Changed)),
{
    let v = spec_parse(input)->Ok_0;
    let f = explicit_entry(v);
    let n = es.len() as int;
    assert forall|j: int| 0 <= j < n implies !f(#[trigger] es[j]) by {
        assert(spec_parse(es[j].url) is Ok);
    }
    lemma_first_where_none(es, f, n);
    assert(lift_stable(es, v)) by {
        assert forall|k: int| 0 <= k < es.len() implies (spec_parse((#[trigger] es[k]).url) matches Ok(p)
            && (p.wildcard && spec_wildcard_matches(p, v) ==> !view_exclusions(es[k]).contains(spec_relative_name(p, v)))) by {
            assert(spec_parse(es[k].url) is Ok);
        }
    }
    lemma_stable_lift(es, v);
    let after = es.push(new_entry(input, hook));
    assert(spec_register(es, input, hook)->Ok_0.0 == after);
    assert(remove_stable(es, v)) by {
        assert forall|k: int| 0 <= k < es.len() implies (spec_parse((#[trigger] es[k]).url) matches Ok(p) && spec_identity(p) != spec_identity(v)
            && (p.wildcard && spec_wildcard_matches(p, v) ==> view_exclusions(es[k]).contains(spec_relative_name(p, v)))) by {
            assert(spec_parse(es[k].url) is Ok);
        }
    }
    lemma_stable_remove(es, v);
    assert(after.drop_last() =~= es);
    assert(after.last() == new_entry(input, hook));
}

/// Removing another reference keeps a removed one removed: entries only go, and wildcards
/// only gain exclusions.
#[verifier::spinoff_prover]
#[verifier::rlimit(50)]
proof fn lemma_remove_keeps_stable(es: Seq<EntryView>, v: RefView, w: RefView)
    requires
        remove_stable(es, v),
        spec_remove(es, w) is Ok,
    ensures
        remove_stable(spec_remove(es, w)->Ok_0.0, v),
    decreases es.len(),
{
    if es.len() > 0 {
        let prev = es.drop_last();
        assert forall|i: int| 0 <= i < prev.len() implies (spec_parse((#[trigger] prev[i]).url) matches Ok(p) && spec_identity(p) != spec_identity(v)
            && (p.wildcard && spec_wildcard_matches(p, v) ==> view_exclusions(prev[i]).contains(spec_relative_name(p, v)))) by {
            assert(prev[i] == es[i]);
        }
        lemma_remove_keeps_stable(prev, v, w);
        let (k0, r0) = spec_remove(prev, w)->Ok_0;
        let e = es.last();
        assert(es[es.len() - 1] == e);
        let p = spec_parse(e.url)->Ok_0;
        let (k, r) = spec_remove(es, w)->Ok_0;
        if spec_identity(p) != spec_identity(w) {
            let last = if p.wildcard && spec_wildcard_matches(p, w) { excluded(e, spec_relative_name(p, w)).0 } else { e };
            assert(k == k0.push(last));
            if p.wildcard && spec_wildcard_matches(p, w) {
                lemma_excluded(e, spec_relative_name(p, w));
                if spec_wildcard_matches(p, v) {
                    let n = spec_relative_name(p, v);
                    assert(view_exclusions(e).contains(n));
                    let j = choose|j: int| 0 <= j < view_exclusions(e).len() && view_exclusions(e)[j] == n;
                    match e.exclude {
                        None => {},
                        Some(l) => if !l.contains(spec_relative_name(p, w)) {
                            assert(l.push(spec_relative_name(p, w))[j] == n);
                        },
                    }
                }
            }
            assert forall|i: int| 0 <= i < k.len() implies (spec_parse((#[trigger] k[i]).url) matches Ok(q) && spec_identity(q) != spec_identity(v)
                && (q.wildcard && spec_wildcard_matches(q, v) ==> view_exclusions(k[i]).contains(spec_relative_name(q, v)))) by {
                if i < k0.len() {
                    assert(k[i] == k0[i]);
                }
            }
        }
    }
}

/// After a batch of removals, every reference of the batch stays removed.
#[verifier::spinoff_prover]
#[verifier::rlimit(50)]
proof fn lemma_unregister_all_stable(es: Seq<EntryView>, references: Seq<Seq<char>>)
    requires
        spec_unregister_all(es, references) is Ok,
    ensures
        forall|j: int| 0 <= j < references.len() ==> (#[trigger] spec_parse(references[j])) is Ok
            && remove_stable(spec_unregister_all(es, references)->Ok_0.0, spec_parse(references[j])->Ok_0),
    decreases references.len(),
{
    if references.len() > 0 {
        let prev = references.drop_last();
        lemma_unregister_all_stable(es, prev);
        let after = spec_unregister_all(es, prev)->Ok_0.0;
        let v = spec_parse(references.last())->Ok_0;
        let fin = spec_unregister_all(es, references)->Ok_0.0;
        assert(fin == spec_remove(after, v)->Ok_0.0);
        lemma_remove_result(after, v);
        assert forall|j: int| 0 <= j < references.len() implies (#[trigger] spec_parse(references[j])) is Ok
            && remove_stable(fin, spec_parse(references[j])->Ok_0) by {
            if j < prev.len() {
                assert(references[j] == prev[j]);
                lemma_remove_keeps_stable(after, spec_parse(prev[j])->Ok_0, v);
            }
        }
    }
}

/// Removing references that are all removed changes nothing.
proof fn lemma_unregister_all_stable_noop(es: Seq<EntryView>, references: Seq<Seq<char>>)
    requires
        forall|j: int| 0 <= j < references.len() ==> (#[trigger] spec_parse(references[j])) is Ok
            && remove_stable(es, spec_parse(references[j])->Ok_0),
    ensures
        spec_unregister_all(es, references) == Ok::<(Seq<EntryView>, Seq<Mutation>), EditError>((es, Seq::new(references.len(), |i: int| Mutation::Noop))),
    decreases references.len(),
{
    if references.len() > 0 {
        let prev = references.drop_last();
        assert forall|j: int| 0 <= j < prev.len() implies (#[trigger] spec_parse(prev[j])) is Ok
            && remove_stable(es, spec_parse(prev[j])->Ok_0) by {
            assert(prev[j] == references[j]);
        }
        lemma_unregister_all_stable_noop(es, prev);
        let v = spec_parse(references.last())->Ok_0;
        assert(spec_parse(references[references.len() - 1]) is Ok);
        lemma_stable_remove(es, v);
        assert(Seq::new(prev.len(), |i: int| Mutation::Noop).push(Mutation::Noop) =~= Seq::new(references.len(), |i: int| Mutation::Noop));
    } else {
        assert(Seq::new(0, |i: int| Mutation::Noop) =~= Seq::<Mutation>::empty());
    }
}

/// Removing a batch of references a second time changes nothing: every removal is a no-op
/// and the entries stay as the first batch left them.
pub proof fn law_unregister_batch_twice_changes_nothing(es: Seq<EntryView>, references: Seq<Seq<char>>)
    requires
        spec_unregister_all(es, references) is Ok,
    ensures
        spec_unregister_all(spec_unregister_all(es, references)->Ok_0.0, references)
            == Ok::<(Seq<EntryView>, Seq<Mutation>), EditError>((spec_unregister_all(es, references)->Ok_0.0, Seq::new(references.len(), |i: int| Mutation::Noop))),
{
    lemma_unregister_all_stable(es, references);
    lemma_unregister_all_stable_noop(spec_unregister_all(es, references)->Ok_0.0, references);
}

/// Registering the request changes nothing.
pub open spec fn register_stable(es: Seq<EntryView>, input: Seq<char>, hook: Option<Seq<char>>) -> bool {
    spec_register(es, input, hook) == Ok::<(Seq<EntryView>, Mutation), EditError>((es, Mutation::Noop))
}

proof fn lemma_without_subset(l: Seq<Seq<char>>, name: Seq<char>, x: Seq<char>)
    requires
        without(l, name).contains(x),
    ensures
        l.contains(x),
    decreases l.len(),
{
    if l.len() > 0 {
        let w = without(l.drop_last(), name);
        if l.last() == name || w.contains(x) {
            if w.contains(x) {
                lemma_without_subset(l.drop_last(), name, x);
                let j = choose|j: int| 0 <= j < l.drop_last().len() && l.drop_last()[j] == x;
                assert(l[j] == x);
            }
        } else {
            let j = choose|j: int| 0 <= j < w.push(l.last()).len() && w.push(l.last())[j] == x;
            assert(j == w.len());
            assert(l[l.len() - 1] == x);
        }
    }
}

/// What registering does to the entries it started from: each keeps its URL, a hook it had,
/// and no exclusion it did not have; at most one entry is added, for the registered input.
pub open spec fn register_shape(es: Seq<EntryView>, after: Seq<EntryView>, input: Seq<char>, hook: Option<Seq<char>>) -> bool {
    &&& es.len() <= after.len() <= es.len() + 1
    &&& forall|i: int| 0 <= i < es.len() ==> (#[trigger] after[i]).url == es[i].url
        && (es[i].post_clone is Some ==> after[i].post_clone == es[i].post_clone)
        && forall|x: Seq<char>| view_exclusions(after[i]).contains(x) ==> view_exclusions(es[i]).contains(x)
    &&& after.len() == es.len() + 1 ==> after[es.len() as int].url == input && after[es.len() as int].exclude is None
        && (after[es.len() as int].post_clone is None || after[es.len() as int].post_clone == hook)
}

proof fn lemma_lift_shape(es: Seq<EntryView>, v: RefView)
    requires
        spec_lift(es, v) is Ok,
    ensures
        forall|i: int| 0 <= i < es.len() ==> forall|x: Seq<char>| view_exclusions((#[trigger] spec_lift(es, v)->Ok_0.0[i])).contains(x) ==> view_exclusions(es[i]).contains(x),
    decreases es.len(),
{
    if es.len() > 0 {
        let prev = es.drop_last();
        lemma_lift_shape(prev, v);
        lemma_lift_result(es, v);
        let d0 = spec_lift(prev, v)->Ok_0.0;
        let d = spec_lift(es, v)->Ok_0.0;
        let e = es.last();
        assert forall|i: int| 0 <= i < es.len() implies forall|x: Seq<char>| view_exclusions((#[trigger] d[i])).contains(x) ==> view_exclusions(es[i]).contains(x) by {
            if i < prev.len() {
                assert(d[i] == d0[i]);
                assert(es[i] == prev[i]);
            } else {
                assert(es[i] == e);
                assert forall|x: Seq<char>| view_exclusions(d[i]).contains(x) implies view_exclusions(es[i]).contains(x) by {
                    if let Some(l) = e.exclude {
                        let p = spec_parse(e.url)->Ok_0;
                        let name = spec_relative_name(p, v);
                        if d[i] != e && l.contains(name) && view_exclusions(d[i]).contains(x) {
                            lemma_without_subset(l, name, x);
                        }
                    }
                }
            }
        }
    }
}

#[verifier::spinoff_prover]
#[verifier::rlimit(80)]
proof fn lemma_register_shape(es: Seq<EntryView>, input: Seq<char>, hook: Option<Seq<char>>)
    requires
        spec_register(es, input, hook) is Ok,
    ensures
        register_shape(es, spec_register(es, input, hook)->Ok_0.0, input, hook),
{
    let v = spec_parse(input)->Ok_0;
    let after = spec_register(es, input, hook)->Ok_0.0;
    if v.wildcard {
        if !declares_view(es, v) {
            assert(after == es.push(new_entry(input, None)));
        }
    } else {
        lemma_lift_result(es, v);
        lemma_lift_shape(es, v);
        let d = spec_lift(es, v)->Ok_0.0;
        let i = first_where(es, explicit_entry(v), es.len() as int);
        lemma_first_where_bounds(es, explicit_entry(v), es.len() as int);
        if i >= 0 && hook is Some && d[i].post_clone is None {
            assert(after == d.update(i, with_hook(d[i], hook)));
        } else if i < 0 && (hook is Some || !spec_lift(es, v)->Ok_0.2) {
            assert(after == d.push(new_entry(input, hook)));
            assert forall|k: int| 0 <= k < es.len() implies (#[trigger] after[k]).url == es[k].url
                && (es[k].post_clone is Some ==> after[k].post_clone == es[k].post_clone)
                && forall|x: Seq<char>| view_exclusions(after[k]).contains(x) ==> view_exclusions(es[k]).contains(x) by {
                assert(after[k] == d[k]);
            }
        }
    }
}

/// Registering another request keeps a registered one settled.
#[verifier::spinoff_prover]
#[verifier::rlimit(100)]
proof fn lemma_register_keeps_stable(
    es: Seq<EntryView>,
    a: Seq<char>,
    ha: Option<Seq<char>>,
    b: Seq<char>,
    hb: Option<Seq<char>>,
)
    requires
        register_stable(es, a, ha),
        spec_register(es, b, hb) is Ok,
    ensures
        register_stable(spec_register(es, b, hb)->Ok_0.0, a, ha),
{
    let es2 = spec_register(es, b, hb)->Ok_0.0;
    lemma_register_shape(es, b, hb);
    let v = spec_parse(a)->Ok_0;
    let n = es.len() as int;
    if v.wildcard {
        if !declares_view(es, v) {
            assert(es.push(new_entry(a, None)).len() != es.len());
        }
        let i = choose|i: int| 0 <= i < es.len() && (spec_parse((#[trigger] es[i]).url) matches Ok(p) && p.wildcard == v.wildcard
            && spec_identity(p) == spec_identity(v));
        assert(es2[i].url == es[i].url);
        assert(declares_view(es2, v));
    } else {
        let f = explicit_entry(v);
        let i = first_where(es, f, n);
        lemma_first_where_bounds(es, f, n);
        lemma_lift_result(es, v);
        let d = spec_lift(es, v)->Ok_0.0;
        let c = spec_lift(es, v)->Ok_0.1;
        let m = spec_lift(es, v)->Ok_0.2;
        if i >= 0 {
            if ha is Some && d[i].post_clone is None {
                assert(false);
            }
        } else {
            if ha is Some || !m {
                assert(d.push(new_entry(a, ha)).len() != es.len());
                assert(false);
            }
        }
        assert(d == es && !c);
        // The entries after the other registration.
        let n2 = es2.len() as int;
        assert forall|k: int| 0 <= k < n implies (#[trigger] es2[k]).url == es[k].url by {}
        lemma_first_where_urls(es2, es, v, n);
        let i2 = first_where(es2, f, n2);
        if i >= 0 {
            lemma_first_where_stays(es2, f, n, n2);
        }
        lemma_first_where_bounds(es2, f, n2);
        assert(lift_stable(es2, v)) by {
            assert forall|k: int| 0 <= k < es2.len() implies (spec_parse((#[trigger] es2[k]).url) matches Ok(p)
                && (p.wildcard && spec_wildcard_matches(p, v) ==> !view_exclusions(es2[k]).contains(spec_relative_name(p, v)))) by {
                if k < n {
                    assert(spec_parse(es[k].url) is Ok);
                    let p = spec_parse(es[k].url)->Ok_0;
                    if view_exclusions(es2[k]).contains(spec_relative_name(p, v)) {
                        assert(view_exclusions(es[k]).contains(spec_relative_name(p, v)));
                    }
                } else {
                    assert(k == n);
                    assert(es2[n].url == b);
                }
            }
        }
        lemma_stable_lift(es2, v);
        assert(covers(es, v) ==> covers(es2, v)) by {
            if covers(es, v) {
                let j = choose|j: int| 0 <= j < es.len() && (spec_parse((#[trigger] es[j]).url) matches Ok(q) && q.wildcard && spec_wildcard_matches(q, v));
                assert(es2[j].url == es[j].url);
            }
        }
        if i >= 0 {
            assert(i2 == i);
            assert(!conflicts(es2[i].post_clone, ha));
        } else if i2 >= 0 {
            assert(i2 == n);
            assert(ha is None);
        }
    }
}

/// After a batch of registrations, every request of the batch is settled.
proof fn lemma_register_all_stable(es: Seq<EntryView>, requests: Seq<(Seq<char>, Option<Seq<char>>)>)
    requires
        spec_register_all(es, requests) is Ok,
    ensures
        forall|j: int| 0 <= j < requests.len() ==> #[trigger] register_stable(spec_register_all(es, requests)->Ok_0.0, requests[j].0, requests[j].1),
    decreases requests.len(),
{
    if requests.len() > 0 {
        let prev = requests.drop_last();
        lemma_register_all_stable(es, prev);
        let after = spec_register_all(es, prev)->Ok_0.0;
        let last = requests.last();
        law_register_twice_changes_nothing(after, last.0, last.1);
        assert forall|j: int| 0 <= j < requests.len() implies #[trigger] register_stable(spec_register_all(es, requests)->Ok_0.0, requests[j].0, requests[j].1) by {
            if j < prev.len() {
                assert(requests[j] == prev[j]);
                assert(register_stable(after, prev[j].0, prev[j].1));
                lemma_register_keeps_stable(after, prev[j].0, prev[j].1, last.0, last.1);
            } else {
                assert(requests[j] == last);
            }
        }
    }
}

proof fn lemma_register_all_stable_noop(es: Seq<EntryView>, requests: Seq<(Seq<char>, Option<Seq<char>>)>)
    requires
        forall|j: int| 0 <= j < requests.len() ==> #[trigger] register_stable(es, requests[j].0, requests[j].1),
    ensures
        spec_register_all(es, requests) == Ok::<(Seq<EntryView>, Seq<Mutation>), EditError>((es, Seq::new(requests.len(), |i: int| Mutation::Noop))),
    decreases requests.len(),
{
    if requests.len() > 0 {
        let prev = requests.drop_last();
        assert forall|j: int| 0 <= j < prev.len() implies #[trigger] register_stable(es, prev[j].0, prev[j].1) by {
            assert(prev[j] == requests[j]);
        }
        lemma_register_all_stable_noop(es, prev);
        assert(register_stable(es, requests[requests.len() - 1].0, requests[requests.len() - 1].1));
        assert(Seq::new(prev.len(), |i: int| Mutation::Noop).push(Mutation::Noop) =~= Seq::new(requests.len(), |i: int| Mutation::Noop));
    } else {
        assert(Seq::new(0, |i: int| Mutation::Noop) =~= Seq::<Mutation>::empty());
    }
}

/// Registering a batch a second time changes nothing: every registration is a no-op and the
/// entries stay as the first batch left them.
pub proof fn law_register_batch_twice_changes_nothing(es: Seq<EntryView>, requests: Seq<(Seq<char>, Option<Seq<char>>)>)
    requires
        spec_register_all(es, requests) is Ok,
    ensures
        spec_register_all(spec_register_all(es, requests)->Ok_0.0, requests)
            == Ok::<(Seq<EntryView>, Seq<Mutation>), EditError>((spec_register_all(es, requests)->Ok_0.0, Seq::new(requests.len(), |i: int| Mutation::Noop))),
{
    lemma_register_all_stable(es, requests);
    lemma_register_all_stable_noop(spec_register_all(es, requests)->Ok_0.0, requests);
}

} // verus!
