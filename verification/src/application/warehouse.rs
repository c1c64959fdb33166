//! Local checkouts: listing, cloning, hooks and guarded removal.
use vstd::prelude::*;

use crate::application::ports::{
    ConfigStore, EnsureEvent, EnsureReporter, GitClient, GitRemoval, GitState, HookRunner, Interaction,
    InteractionError, Mutation, ProviderCatalog, RemovalFilesystem, RepositorySelector, SelectionCandidate,
    SelectionError,
};
use crate::application::membership::{admit_members, is_excluded, configured_hook, declaration_of, declares, explicit_identities, explicit_list, insert_new, is_explicit, texts};
use crate::address::option_view;
use crate::order::sort_keyed;
use crate::domain::config::{
    config_error_text, provider_for, spec_resolve_portable_path, Config, ConfigErrView, ConfigView, DeclView,
};
use crate::domain::repository::{
    path_join_all, path_push, push_path, ref_error_text, reference_unsafe, spec_identity, spec_parse, strings_view, RefErrView, RefView,
    RepositoryRef, RepositorySummary,
};
use crate::domain::state::LocalState;
use crate::paths::{paths_equal, same_path, starts_with_path, path_starts_with, strictly_below};
use crate::text::{chars, concat, contains_text, copy_strings, equal, join, non_empty, split, split_char, keep_non_empty, string_of, slice};

verus! {

broadcast use {
    vstd::seq::group_seq_axioms,
    vstd::seq_lib::group_to_multiset_ensures,
    vstd::multiset::group_multiset_axioms,
};

#[derive(Debug, Clone, PartialEq, Eq)]
pub struct ProviderError {
    pub provider: String,
    pub error: String,
}

#[derive(Debug, Clone, PartialEq, Eq)]
pub struct ListRow {
    pub identity: String,
    pub clone_url: String,
    pub source: String,
    pub destination: Option<String>,
    pub hook: bool,
    pub archived: bool,
    pub state: Option<LocalState>,
    pub pattern: Option<String>,
    pub exclusions: Vec<String>,
}

#[derive(Debug, Clone, PartialEq, Eq)]
pub struct ListReport {
    pub schema_version: u32,
    pub repositories: Vec<ListRow>,
    pub provider_errors: Vec<ProviderError>,
}

impl ListReport {
    /// A listing fails when any provider failed.
    pub fn failed(&self) -> (r: bool)
        ensures
            r == (self.provider_errors@.len() > 0),
    {
        self.provider_errors.len() > 0
    }
}

#[derive(Debug, Clone, Copy, PartialEq, Eq, Structural)]
pub enum PickerContext {
    Register,
    Add,
    Unregister,
    Hook,
}

#[derive(Debug, Clone, PartialEq, Eq)]
pub struct CandidateReport {
    pub candidates: Vec<SelectionCandidate>,
    pub provider_errors: Vec<ProviderError>,
}

impl CandidateReport {
    /// Candidate discovery fails when any provider failed.
    pub fn failed(&self) -> (r: bool)
        ensures
            r == (self.provider_errors@.len() > 0),
    {
        self.provider_errors.len() > 0
    }
}

#[derive(Debug, Clone, PartialEq, Eq)]
pub enum OperationStatus {
    Cloned,
    Noop,
    Hooked,
    Failed(String),
}

#[derive(Debug, Clone, PartialEq, Eq)]
pub struct RepositoryOutcome {
    pub reference: String,
    pub status: OperationStatus,
}

/// A clone outcome with its typed cancellation kept apart from the displayed outcome.
struct CloneOutcome {
    outcome: RepositoryOutcome,
    cancelled: bool,
}

#[derive(Debug, Clone, PartialEq, Eq)]
pub enum RemovalStatus {
    Removed,
    Absent,
    Skipped,
    Failed(String),
}

#[derive(Debug, Clone, PartialEq, Eq)]
pub struct RemovalOutcome {
    pub reference: String,
    pub status: RemovalStatus,
}

#[derive(Debug, Clone, PartialEq, Eq)]
pub struct RemovalBatchOutcome {
    pub outcomes: Vec<RemovalOutcome>,
    pub cancelled: bool,
}

pub open spec fn removal_failed_at(o: RemovalOutcome) -> bool {
    o.status is Failed
}

impl RemovalBatchOutcome {
    /// A removal batch fails when it was cancelled or any removal failed.
    pub fn failed(&self) -> (r: bool)
        ensures
            r == (self.cancelled || exists|i: int| 0 <= i < self.outcomes@.len() && removal_failed_at(#[trigger] self.outcomes@[i])),
    {
        if self.cancelled {
            return true;
        }
        let mut i: usize = 0;
        while i < self.outcomes.len()
            invariant
                i <= self.outcomes@.len(),
                forall|j: int| 0 <= j < i ==> !removal_failed_at(#[trigger] self.outcomes@[j]),
            decreases self.outcomes.len() - i,
        {
            if let RemovalStatus::Failed(_) = &self.outcomes[i].status {
                assert(removal_failed_at(self.outcomes@[i as int]));
                return true;
            }
            i += 1;
        }
        false
    }
}

#[derive(Debug, Clone, PartialEq, Eq)]
pub struct BatchOutcome {
    pub outcomes: Vec<RepositoryOutcome>,
    pub provider_errors: Vec<ProviderError>,
    pub cancelled: bool,
}

pub open spec fn operation_failed_at(o: RepositoryOutcome) -> bool {
    o.status is Failed
}

impl BatchOutcome {
    /// A batch fails when it was cancelled, a provider failed or any repository failed.
    pub fn failed(&self) -> (r: bool)
        ensures
            r == (self.cancelled || self.provider_errors@.len() > 0 || exists|i: int|
                0 <= i < self.outcomes@.len() && operation_failed_at(#[trigger] self.outcomes@[i])),
    {
        if self.cancelled || self.provider_errors.len() > 0 {
            return true;
        }
        let mut i: usize = 0;
        while i < self.outcomes.len()
            invariant
                i <= self.outcomes@.len(),
                forall|j: int| 0 <= j < i ==> !operation_failed_at(#[trigger] self.outcomes@[j]),
            decreases self.outcomes.len() - i,
        {
            if let OperationStatus::Failed(_) = &self.outcomes[i].status {
                assert(operation_failed_at(self.outcomes@[i as int]));
                return true;
            }
            i += 1;
        }
        false
    }
}

fn empty_batch() -> (r: BatchOutcome)
    ensures
        r.outcomes@.len() == 0,
        r.provider_errors@.len() == 0,
        !r.cancelled,
{
    BatchOutcome { outcomes: Vec::new(), provider_errors: Vec::new(), cancelled: false }
}

// ---------------------------------------------------------------------------
// Destinations
// ---------------------------------------------------------------------------

/// The first remote path segment of a Bitbucket Data Center reference loses a leading `~`.
pub open spec fn strip_tilde(s: Seq<char>) -> Seq<char> {
    if s.len() > 0 && s[0] == '~' {
        s.subrange(1, s.len() as int)
    } else {
        s
    }
}

/// The segments below the root for a reference handled by a configured provider.
pub open spec fn provider_segments(prefix: Seq<char>, data_center: bool, path: Seq<char>) -> Seq<Seq<char>> {
    let remote = split(path, '/');
    let remote = if data_center { remote.update(0, strip_tilde(remote[0])) } else { remote };
    non_empty(split(prefix, '/')) + remote
}

/// Where a reference is checked out below `root`: under the provider's prefix and the
/// remote path when a provider is configured for its host, else at its own segments.
pub open spec fn spec_configured_destination(c: ConfigView, r: RefView, root: Seq<char>) -> Seq<char> {
    let i = provider_for(c, r.host);
    if i < 0 {
        path_join_all(root, r.destination_segments)
    } else {
        let p = c.providers[i].1;
        path_join_all(root, provider_segments(p.prefix, p.preset == "bitbucket-data-center"@, r.path))
    }
}

proof fn lemma_first_provider_keys(
    a: Seq<(Seq<char>, crate::domain::config::ProviderView)>,
    b: Seq<(Seq<char>, crate::domain::config::ProviderView)>,
    host: Seq<char>,
    n: int,
)
    requires
        a.len() == b.len(),
        n <= a.len(),
        forall|k: int| 0 <= k < a.len() ==> (#[trigger] a[k]).0 == b[k].0,
    ensures
        crate::domain::config::first_provider(a, host, n) == crate::domain::config::first_provider(b, host, n),
    decreases n,
{
    if n > 0 {
        lemma_first_provider_keys(a, b, host, n - 1);
        assert(a[n - 1].0 == b[n - 1].0);
    }
}

proof fn lemma_first_provider_range(ps: Seq<(Seq<char>, crate::domain::config::ProviderView)>, host: Seq<char>, n: int)
    requires
        n >= 0,
    ensures
        crate::domain::config::first_provider(ps, host, n) < n,
    decreases n,
{
    if n > 0 {
        lemma_first_provider_range(ps, host, n - 1);
    }
}

proof fn lemma_join_all_append(root: Seq<char>, a: Seq<Seq<char>>, b: Seq<Seq<char>>)
    ensures
        path_join_all(root, a + b) == path_join_all(path_join_all(root, a), b),
    decreases b.len(),
{
    if b.len() == 0 {
        assert(a + b =~= a);
    } else {
        assert((a + b).drop_last() =~= a + b.drop_last());
        assert((a + b).last() == b.last());
        lemma_join_all_append(root, a, b.drop_last());
    }
}

/// With a provider configured for a reference's host, the checkout goes below the provider's
/// prefix: placing it is placing it for the same provider without a prefix, below the root
/// joined with the prefix's non-empty segments.
pub proof fn law_destination_below_provider_prefix(c: ConfigView, r: RefView, root: Seq<char>)
    requires
        provider_for(c, r.host) >= 0,
    ensures
        ({
            let i = provider_for(c, r.host);
            let p = c.providers[i].1;
            let bare = ConfigView {
                providers: c.providers.update(i, (c.providers[i].0, crate::domain::config::ProviderView { prefix: Seq::empty(), ..p })),
                ..c
            };
            spec_configured_destination(c, r, root) == spec_configured_destination(bare, r, path_join_all(root, non_empty(split(p.prefix, '/'))))
        }),
{
    let i = provider_for(c, r.host);
    let p = c.providers[i].1;
    let bare = ConfigView {
        providers: c.providers.update(i, (c.providers[i].0, crate::domain::config::ProviderView { prefix: Seq::empty(), ..p })),
        ..c
    };
    lemma_first_provider_range(c.providers, r.host, c.providers.len() as int);
    assert(bare.providers.len() == c.providers.len());
    assert forall|k: int| 0 <= k < c.providers.len() implies (#[trigger] c.providers[k]).0 == bare.providers[k].0 by {
        if k != i {
            assert(bare.providers[k] == c.providers[k]);
        }
    }
    lemma_first_provider_keys(c.providers, bare.providers, r.host, c.providers.len() as int);
    assert(provider_for(bare, r.host) == i);
    assert(bare.providers[i].1.prefix == Seq::<char>::empty());
    let e: Seq<char> = Seq::empty();
    assert(split(e, '/') == seq![e]);
    assert(seq![e].drop_last() =~= Seq::<Seq<char>>::empty());
    assert(non_empty(Seq::<Seq<char>>::empty()) == Seq::<Seq<char>>::empty());
    assert(non_empty(seq![e]) == non_empty(seq![e].drop_last()));
    assert(non_empty(split(e, '/')) =~= Seq::<Seq<char>>::empty());
    let dc = p.preset == "bitbucket-data-center"@;
    let remote0 = split(r.path, '/');
    let remote = if dc { remote0.update(0, strip_tilde(remote0[0])) } else { remote0 };
    assert(provider_segments(e, dc, r.path) =~= remote);
    lemma_join_all_append(root, non_empty(split(p.prefix, '/')), remote);
}

/// Where a concrete reference is checked out under the configured root.
pub open spec fn spec_destination(c: ConfigView, r: RefView, home: Seq<char>) -> Result<Seq<char>, Seq<char>> {
    match spec_resolve_portable_path(c.root, home) {
        Err(e) => Err(config_error_text(e)),
        Ok(root) => Ok(spec_configured_destination(c, r, root)),
    }
}

fn join_all(root: &[char], segs: &Vec<Vec<char>>) -> (r: Vec<char>)
    ensures
        r@ == path_join_all(root@, segs@.map_values(|v: Vec<char>| v@)),
{
    let ghost views = segs@.map_values(|v: Vec<char>| v@);
    let mut path = slice(root, 0, root.len());
    let mut i: usize = 0;
    assert(path@ =~= root@);
    assert(views.subrange(0, 0) =~= Seq::<Seq<char>>::empty());
    while i < segs.len()
        invariant
            i <= segs@.len(),
            views == segs@.map_values(|v: Vec<char>| v@),
            path@ == path_join_all(root@, views.subrange(0, i as int)),
        decreases segs.len() - i,
    {
        assert(views.subrange(0, i + 1).drop_last() =~= views.subrange(0, i as int));
        path = push_path(&path, &segs[i]);
        i += 1;
    }
    assert(views.subrange(0, segs@.len() as int) =~= views);
    path
}

fn strip_tilde_of(s: &[char]) -> (r: Vec<char>)
    ensures
        r@ == strip_tilde(s@),
{
    if s.len() > 0 && s[0] == '~' {
        slice(s, 1, s.len())
    } else {
        slice(s, 0, s.len())
    }
}

/// Where a reference is checked out below `root`.
pub fn configured_destination(config: &Config, reference: &RepositoryRef, root: &[char]) -> (r: Vec<char>)
    ensures
        r@ == spec_configured_destination(config@, reference@, root@),
{
    match config.find_provider(reference.host.as_str()) {
        None => chars(reference.destination(string_of(root).as_str()).as_str()),
        Some(i) => {
            let provider = &config.providers[i].provider;
            assert(config@.providers[i as int].1 == provider@);
            let data_center = equal(&chars(provider.preset.as_str()), &chars("bitbucket-data-center"));
            let prefix = keep_non_empty(&split_char(&chars(provider.prefix.as_str()), '/'));
            let mut remote = split_char(&chars(reference.path.as_str()), '/');
            if data_center {
                let first = strip_tilde_of(&remote[0]);
                let ghost before = remote@.map_values(|v: Vec<char>| v@);
                remote.set(0, first);
                assert(remote@.map_values(|v: Vec<char>| v@) =~= before.update(0, strip_tilde(before[0])));
            }
            let mut segs = prefix;
            let ghost start = segs@.map_values(|v: Vec<char>| v@);
            let mut k: usize = 0;
            while k < remote.len()
                invariant
                    k <= remote@.len(),
                    segs@.map_values(|v: Vec<char>| v@) =~= start + remote@.map_values(|v: Vec<char>| v@).subrange(0, k as int),
                decreases remote.len() - k,
            {
                let piece = slice(&remote[k], 0, remote[k].len());
                assert(piece@ =~= remote@[k as int]@);
                let ghost before = segs@.map_values(|v: Vec<char>| v@);
                segs.push(piece);
                assert(segs@.map_values(|v: Vec<char>| v@) =~= before.push(piece@));
                k += 1;
            }
            assert(remote@.map_values(|v: Vec<char>| v@).subrange(0, remote@.len() as int) =~= remote@.map_values(|v: Vec<char>| v@));
            join_all(root, &segs)
        },
    }
}

/// Where a concrete reference is checked out under the configured root.
pub fn destination(config: &Config, reference: &RepositoryRef, home: &str) -> (r: Result<String, String>)
    ensures
        match r {
            Ok(p) => spec_destination(config@, reference@, home@) == Ok::<Seq<char>, Seq<char>>(p@),
            Err(e) => spec_destination(config@, reference@, home@) == Err::<Seq<char>, Seq<char>>(e@),
        },
{
    let root = match config.resolve_root(home) {
        Ok(root) => chars(root.as_str()),
        Err(error) => return Err(error.message()),
    };
    Ok(string_of(&configured_destination(config, reference, &root)))
}


// ---------------------------------------------------------------------------
// Removal
// ---------------------------------------------------------------------------

fn removal_failed(input: &str, error: &str) -> (r: RemovalOutcome)
    ensures
        r.reference@ == input@,
        r.status matches RemovalStatus::Failed(m) && m@ == error@,
{
    RemovalOutcome { reference: string_of(&chars(input)), status: RemovalStatus::Failed(string_of(&chars(error))) }
}

fn removal_outcome(input: &str, status: RemovalStatus) -> (r: RemovalOutcome)
    ensures
        r.reference@ == input@,
        r.status == status,
{
    RemovalOutcome { reference: string_of(&chars(input)), status }
}

fn selected_path(exact_destination: Option<&str>) -> (r: Option<String>)
    ensures
        match exact_destination {
            Some(p) => r matches Some(s) && s@ == p@,
            None => r is None,
        },
{
    match exact_destination {
        Some(path) => Some(string_of(&chars(path))),
        None => None,
    }
}

/// Guards a deletion target: it must not be a symlink, must resolve strictly below the
/// canonical root and must contain no symlink. Yields the canonical target.
/// Where a canonical deletion target lies: the root itself is refused, and so is anything
/// outside it.
pub fn removal_placement(canonical: &str, root: &str) -> (r: Result<(), String>)
    ensures
        same_path(canonical@, root@) ==> (r matches Err(m) && m@ == "refusing to remove configured root"@),
        !same_path(canonical@, root@) && !path_starts_with(canonical@, root@) ==> (r matches Err(m) && m@ == "destination escapes configured root"@),
        r is Ok <==> strictly_below(canonical@, root@),
{
    if paths_equal(canonical, root) {
        return Err(string_of(&chars("refusing to remove configured root")));
    }
    if !starts_with_path(canonical, root) {
        return Err(string_of(&chars("destination escapes configured root")));
    }
    Ok(())
}

pub fn validate_removal_path<F: RemovalFilesystem>(filesystem: &F, root: &str, destination: &str) -> (r: Result<String, String>)
    ensures
        r matches Ok(p) ==> strictly_below(p@, root@),
{
    match filesystem.is_symlink(destination) {
        Err(e) => return Err(e),
        Ok(true) => return Err(string_of(&chars("destination is a symlink"))),
        Ok(false) => {},
    }
    let canonical = filesystem.canonicalize(destination)?;
    removal_placement(canonical.as_str(), root)?;
    match filesystem.contains_symlink(destination) {
        Err(e) => return Err(e),
        Ok(true) => return Err(string_of(&chars("destination contains a symlink"))),
        Ok(false) => {},
    }
    Ok(canonical)
}

pub open spec fn unregister_question(input: Seq<char>) -> Seq<char> {
    "Unregister "@ + input + "?"@
}

/// Whether to drop the declaration too: the supplied choice, or the answer to a question.
fn unregister_after_handling<I: Interaction>(interaction: &mut I, input: &str, unregister: Option<bool>) -> (r: Result<bool, String>)
    ensures
        unregister matches Some(b) ==> r == Ok::<bool, String>(b),
{
    match unregister {
        Some(unregister) => Ok(unregister),
        None => {
            let question = string_of(&concat(&concat(&chars("Unregister "), &chars(input)), &chars("?")));
            match interaction.confirm(question.as_str(), true) {
                Ok(answer) => Ok(answer),
                Err(InteractionError::Cancelled) => Err(string_of(&chars("cancelled"))),
                Err(InteractionError::Failed(message)) => Err(message),
            }
        },
    }
}

fn same_warnings(a: &Vec<String>, b: &Vec<String>) -> (r: bool)
    ensures
        r == (a.deep_view() == b.deep_view()),
{
    if a.len() != b.len() {
        assert(a.deep_view().len() != b.deep_view().len());
        return false;
    }
    let mut i: usize = 0;
    while i < a.len()
        invariant
            a@.len() == b@.len(),
            i <= a@.len(),
            forall|j: int| 0 <= j < i ==> a.deep_view()[j] == b.deep_view()[j],
        decreases a.len() - i,
    {
        if !equal(&chars(a[i].as_str()), &chars(b[i].as_str())) {
            assert(a.deep_view()[i as int] != b.deep_view()[i as int]);
            return false;
        }
        i += 1;
    }
    assert(a.deep_view() =~= b.deep_view());
    true
}

/// The warnings in their order, separated by `, `.
fn join_warnings(warnings: &Vec<String>) -> (r: Vec<char>)
    ensures
        r@ == join(warnings.deep_view(), ", "@),
{
    let mut out: Vec<char> = Vec::new();
    let mut i: usize = 0;
    let ghost parts = warnings.deep_view();
    assert(parts.subrange(0, 0) =~= Seq::<Seq<char>>::empty());
    while i < warnings.len()
        invariant
            i <= warnings@.len(),
            parts == warnings.deep_view(),
            out@ == join(parts.subrange(0, i as int), ", "@),
        decreases warnings.len() - i,
    {
        proof {
            reveal_strlit(", ");
        }
        assert(parts.subrange(0, i + 1).drop_last() =~= parts.subrange(0, i as int));
        assert(parts.subrange(0, i + 1).last() == warnings@[i as int]@);
        if i > 0 {
            out = concat(&out, &chars(", "));
        }
        out = concat(&out, &chars(warnings[i].as_str()));
        proof {
            if i == 0 {
                assert(out@ =~= parts.subrange(0, 1)[0]);
            }
        }
        i += 1;
    }
    assert(parts.subrange(0, parts.len() as int) =~= parts);
    out
}

/// A removal that failed because the user cancelled it.
pub open spec fn cancelled_status(status: RemovalStatus) -> bool {
    status matches RemovalStatus::Failed(m) && m@ == "cancelled"@
}

fn is_cancelled_text(status: &RemovalStatus) -> (r: bool)
    ensures
        r == cancelled_status(*status),
{
    match status {
        RemovalStatus::Failed(error) => equal(&chars(error.as_str()), &chars("cancelled")),
        _ => false,
    }
}

// ---------------------------------------------------------------------------
// Removal, one answer at a time
// ---------------------------------------------------------------------------

/// Where a removal stands when an outside answer comes in.
pub enum RemovalStage {
    /// Whether the destination exists was asked; `selected` when it was chosen from a listing.
    Located { selected: bool },
    /// Whether to drop the declaration of an absent destination was settled.
    AbsentChoice,
    /// The store dropped (or failed to drop) the declaration of an absent destination.
    AbsentStored,
    /// The path guard answered before any question; `selected` is the path chosen, if any.
    Guarded { selected: Option<String> },
    /// The first inspection answered.
    Inspected { force: bool },
    /// The person answered a question.
    Confirmed,
    /// The path guard answered again, just before deletion.
    Reguarded { selected: Option<String> },
    /// The second inspection answered; `reviewed` are the warnings the person saw.
    Reinspected { force: bool, reviewed: Vec<String> },
    /// The checkout was deleted (or not).
    Deleted,
    /// Whether to drop the declaration of a deleted checkout was settled.
    RemovedChoice,
    /// The store dropped (or failed to drop) the declaration of a deleted checkout.
    RemovedStored,
}

/// An outside answer during a removal.
pub enum RemovalAnswer {
    Exists(Result<bool, String>),
    Choice(Result<bool, String>),
    Stored(Result<Vec<Mutation>, String>),
    Path(Result<String, String>),
    Warnings(Result<Vec<String>, String>),
    Confirmed(Result<bool, InteractionError>),
    Done(Result<(), String>),
}

/// What a removal does after an answer.
pub enum RemovalNext {
    /// Go on to the next step in order.
    Go,
    /// The destination is absent: settle the declaration.
    Absent,
    /// The inspection found local state: ask whether to force removal.
    AskForce,
    /// The removal ends with this status.
    Stop(RemovalStatus),
}

/// The removal stops with a failure carrying exactly `text`.
pub open spec fn stops_failed(r: RemovalNext, text: Seq<char>) -> bool {
    r matches RemovalNext::Stop(RemovalStatus::Failed(m)) && m@ == text
}

fn stop_failed(text: &str) -> (r: RemovalNext)
    ensures
        stops_failed(r, text@),
{
    RemovalNext::Stop(RemovalStatus::Failed(string_of(&chars(text))))
}

/// A removal's decision on one outside answer: the whole of what a removal decides.
pub fn removal_step(stage: &RemovalStage, answer: &RemovalAnswer) -> (r: RemovalNext)
    ensures
        *stage matches RemovalStage::Located { selected } ==> match *answer {
            RemovalAnswer::Exists(Err(e)) => stops_failed(r, e@),
            RemovalAnswer::Exists(Ok(true)) => r is Go,
            RemovalAnswer::Exists(Ok(false)) => if selected {
                stops_failed(r, "selected clone path no longer exists"@)
            } else {
                r is Absent
            },
            _ => r is Stop,
        },
        *stage matches RemovalStage::AbsentChoice ==> match *answer {
            RemovalAnswer::Choice(Err(e)) => stops_failed(r, e@),
            RemovalAnswer::Choice(Ok(drop)) => if drop { r is Go } else { r == RemovalNext::Stop(RemovalStatus::Absent) },
            _ => r is Stop,
        },
        *stage matches RemovalStage::AbsentStored ==> match *answer {
            RemovalAnswer::Stored(Err(e)) => stops_failed(r, e@),
            RemovalAnswer::Stored(Ok(_)) => r == RemovalNext::Stop(RemovalStatus::Absent),
            _ => r is Stop,
        },
        *stage matches RemovalStage::Guarded { selected } ==> match *answer {
            RemovalAnswer::Path(Err(e)) => stops_failed(r, e@),
            RemovalAnswer::Path(Ok(p)) => if selected matches Some(s) && !same_path(p@, s@) {
                stops_failed(r, "selected clone path changed after discovery"@)
            } else {
                r is Go
            },
            _ => r is Stop,
        },
        *stage matches RemovalStage::Inspected { force } ==> match *answer {
            RemovalAnswer::Warnings(Err(e)) => stops_failed(r, e@),
            RemovalAnswer::Warnings(Ok(w)) => if w@.len() > 0 && !force { r is AskForce } else { r is Go },
            _ => r is Stop,
        },
        *stage matches RemovalStage::Confirmed ==> match *answer {
            RemovalAnswer::Confirmed(Ok(true)) => r is Go,
            RemovalAnswer::Confirmed(Ok(false)) => r == RemovalNext::Stop(RemovalStatus::Skipped),
            RemovalAnswer::Confirmed(Err(InteractionError::Cancelled)) => stops_failed(r, "cancelled"@),
            RemovalAnswer::Confirmed(Err(InteractionError::Failed(e))) => stops_failed(r, e@),
            _ => r is Stop,
        },
        *stage matches RemovalStage::Reguarded { selected } ==> match *answer {
            RemovalAnswer::Path(Err(e)) => stops_failed(r, e@),
            RemovalAnswer::Path(Ok(p)) => if selected matches Some(s) && !same_path(p@, s@) {
                stops_failed(r, "selected clone path changed before deletion"@)
            } else {
                r is Go
            },
            _ => r is Stop,
        },
        *stage matches RemovalStage::Reinspected { force, reviewed } ==> match *answer {
            RemovalAnswer::Warnings(Err(e)) => stops_failed(r, e@),
            RemovalAnswer::Warnings(Ok(w)) => if force || w.deep_view() == reviewed.deep_view() {
                r is Go
            } else {
                stops_failed(r, "local state changed before deletion"@)
            },
            _ => r is Stop,
        },
        *stage matches RemovalStage::Deleted ==> match *answer {
            RemovalAnswer::Done(Err(e)) => stops_failed(r, e@),
            RemovalAnswer::Done(Ok(())) => r is Go,
            _ => r is Stop,
        },
        *stage matches RemovalStage::RemovedChoice ==> match *answer {
            RemovalAnswer::Choice(Err(e)) => stops_failed(r, e@),
            RemovalAnswer::Choice(Ok(drop)) => if drop { r is Go } else { r == RemovalNext::Stop(RemovalStatus::Removed) },
            _ => r is Stop,
        },
        *stage matches RemovalStage::RemovedStored ==> match *answer {
            RemovalAnswer::Stored(Err(e)) => stops_failed(r, e@),
            RemovalAnswer::Stored(Ok(_)) => r == RemovalNext::Stop(RemovalStatus::Removed),
            _ => r is Stop,
        },
{
    match (stage, answer) {
        (RemovalStage::Located { selected }, RemovalAnswer::Exists(a)) => match a {
            Err(e) => stop_failed(e.as_str()),
            Ok(true) => RemovalNext::Go,
            Ok(false) => if *selected {
                stop_failed("selected clone path no longer exists")
            } else {
                RemovalNext::Absent
            },
        },
        (RemovalStage::AbsentChoice, RemovalAnswer::Choice(a)) => match a {
            Err(e) => stop_failed(e.as_str()),
            Ok(drop) => if *drop { RemovalNext::Go } else { RemovalNext::Stop(RemovalStatus::Absent) },
        },
        (RemovalStage::AbsentStored, RemovalAnswer::Stored(a)) => match a {
            Err(e) => stop_failed(e.as_str()),
            Ok(_) => RemovalNext::Stop(RemovalStatus::Absent),
        },
        (RemovalStage::Guarded { selected }, RemovalAnswer::Path(a)) | (RemovalStage::Reguarded { selected }, RemovalAnswer::Path(a)) => {
            let early = match stage {
                RemovalStage::Guarded { .. } => true,
                _ => false,
            };
            match a {
                Err(e) => stop_failed(e.as_str()),
                Ok(p) => match selected {
                    Some(s) => if !paths_equal(p.as_str(), s.as_str()) {
                        if early {
                            stop_failed("selected clone path changed after discovery")
                        } else {
                            stop_failed("selected clone path changed before deletion")
                        }
                    } else {
                        RemovalNext::Go
                    },
                    None => RemovalNext::Go,
                },
            }
        },
        (RemovalStage::Inspected { force }, RemovalAnswer::Warnings(a)) => match a {
            Err(e) => stop_failed(e.as_str()),
            Ok(w) => if w.len() > 0 && !*force { RemovalNext::AskForce } else { RemovalNext::Go },
        },
        (RemovalStage::Confirmed, RemovalAnswer::Confirmed(a)) => match a {
            Ok(true) => RemovalNext::Go,
            Ok(false) => RemovalNext::Stop(RemovalStatus::Skipped),
            Err(InteractionError::Cancelled) => stop_failed("cancelled"),
            Err(InteractionError::Failed(e)) => stop_failed(e.as_str()),
        },
        (RemovalStage::Reinspected { force, reviewed }, RemovalAnswer::Warnings(a)) => match a {
            Err(e) => stop_failed(e.as_str()),
            Ok(w) => if *force || same_warnings(w, reviewed) {
                RemovalNext::Go
            } else {
                stop_failed("local state changed before deletion")
            },
        },
        (RemovalStage::Deleted, RemovalAnswer::Done(a)) => match a {
            Err(e) => stop_failed(e.as_str()),
            Ok(()) => RemovalNext::Go,
        },
        (RemovalStage::RemovedChoice, RemovalAnswer::Choice(a)) => match a {
            Err(e) => stop_failed(e.as_str()),
            Ok(drop) => if *drop { RemovalNext::Go } else { RemovalNext::Stop(RemovalStatus::Removed) },
        },
        (RemovalStage::RemovedStored, RemovalAnswer::Stored(a)) => match a {
            Err(e) => stop_failed(e.as_str()),
            Ok(_) => RemovalNext::Stop(RemovalStatus::Removed),
        },
        _ => stop_failed("removal answered out of turn"),
    }
}

/// The one place a checkout is deleted. Safe removal: only a canonical path strictly below
/// the configured root, whose inspection just before deletion found the local state that was
/// reviewed, unless removal was forced.
pub fn delete_below_root<F: RemovalFilesystem>(
    filesystem: &F,
    root: &str,
    target: &str,
    reviewed: &Vec<String>,
    inspected: &Vec<String>,
    force: bool,
) -> (r: Result<(), String>)
    requires
        strictly_below(target@, root@),
        force || inspected.deep_view() == reviewed.deep_view(),
{
    filesystem.remove_dir_all(target)
}

/// Removes one checkout after its guards, asking where the choices were not supplied.
#[verifier::rlimit(40)]
fn remove_one<S: ConfigStore, G: GitRemoval, F: RemovalFilesystem, I: Interaction>(
    store: &S,
    git: &G,
    filesystem: &F,
    interaction: &mut I,
    config_path: &str,
    config: &Config,
    root: Option<&str>,
    input: &str,
    exact_destination: Option<&str>,
    unregister: Option<bool>,
    yes: bool,
    force: bool,
    interactive: bool,
    home: &str,
) -> (r: RemovalOutcome)
    ensures
        r.reference@ == input@,
        spec_parse(input@) matches Err(e) ==> (r.status matches RemovalStatus::Failed(m) && m@ == ref_error_text(e)),
        spec_parse(input@) matches Ok(v) ==> ((v.wildcard ==> (r.status matches RemovalStatus::Failed(m) && m@
            == "wildcard references cannot be removed"@)) && ((!v.wildcard && exact_destination.is_none()
            && spec_destination(config@, v, home@) is Err) ==> (r.status matches RemovalStatus::Failed(m)
            && spec_destination(config@, v, home@) == Err::<Seq<char>, Seq<char>>(m@)))),
        r.status is Removed ==> root is Some,
        r.status is Absent ==> exact_destination is None,
{
    let reference = match RepositoryRef::parse(input) {
        Ok(reference) => reference,
        Err(error) => return removal_failed(input, error.message().as_str()),
    };
    if reference.wildcard {
        return removal_failed(input, "wildcard references cannot be removed");
    }
    let destination = match exact_destination {
        Some(path) => string_of(&chars(path)),
        None => match destination(config, &reference, home) {
            Ok(path) => path,
            Err(error) => return removal_failed(input, error.as_str()),
        },
    };
    let mut one: Vec<String> = Vec::new();
    one.push(string_of(&chars(input)));
    let located = RemovalAnswer::Exists(filesystem.metadata_exists(destination.as_str()));
    match removal_step(&RemovalStage::Located { selected: exact_destination.is_some() }, &located) {
        RemovalNext::Stop(status) => return removal_outcome(input, status),
        RemovalNext::Absent => {
            let choice = RemovalAnswer::Choice(unregister_after_handling(interaction, input, unregister));
            if let RemovalNext::Stop(status) = removal_step(&RemovalStage::AbsentChoice, &choice) {
                return removal_outcome(input, status);
            }
            let stored = RemovalAnswer::Stored(store.remove(config_path, &one));
            return match removal_step(&RemovalStage::AbsentStored, &stored) {
                RemovalNext::Stop(status) => removal_outcome(input, status),
                _ => removal_failed(input, "removal answered out of turn"),
            };
        },
        _ => {},
    }
    let root = match root {
        Some(root) => root,
        None => return removal_failed(input, "configured root is unreadable"),
    };
    let guarded = RemovalAnswer::Path(validate_removal_path(filesystem, root, destination.as_str()));
    if let RemovalNext::Stop(status) = removal_step(&RemovalStage::Guarded { selected: selected_path(exact_destination) }, &guarded) {
        return removal_outcome(input, status);
    }
    let checked = match guarded {
        RemovalAnswer::Path(Ok(path)) => path,
        _ => return removal_failed(input, "removal answered out of turn"),
    };
    let inspected = RemovalAnswer::Warnings(git.inspect_removal(checked.as_str(), reference.clone_url.as_str()));
    let next = removal_step(&RemovalStage::Inspected { force }, &inspected);
    let warnings = match inspected {
        RemovalAnswer::Warnings(Ok(warnings)) => warnings,
        _ => match next {
            RemovalNext::Stop(status) => return removal_outcome(input, status),
            _ => return removal_failed(input, "removal answered out of turn"),
        },
    };
    match next {
        RemovalNext::Stop(status) => return removal_outcome(input, status),
        RemovalNext::AskForce => {
            let prompt = string_of(&concat(
                &concat(&concat(&concat(&chars("Unsafe local state at "), &chars(destination.as_str())), &chars(" (")), &join_warnings(&warnings)),
                &chars("). Force removal?"),
            ));
            let answer = RemovalAnswer::Confirmed(interaction.confirm(prompt.as_str(), false));
            if let RemovalNext::Stop(status) = removal_step(&RemovalStage::Confirmed, &answer) {
                return removal_outcome(input, status);
            }
        },
        _ => {},
    }
    if interactive && !yes {
        let prompt = string_of(&concat(&concat(&chars("Remove "), &chars(destination.as_str())), &chars(" permanently?")));
        let answer = RemovalAnswer::Confirmed(interaction.confirm(prompt.as_str(), false));
        if let RemovalNext::Stop(status) = removal_step(&RemovalStage::Confirmed, &answer) {
            return removal_outcome(input, status);
        }
    }
    let reguarded = RemovalAnswer::Path(validate_removal_path(filesystem, root, destination.as_str()));
    if let RemovalNext::Stop(status) = removal_step(&RemovalStage::Reguarded { selected: selected_path(exact_destination) }, &reguarded) {
        return removal_outcome(input, status);
    }
    let target = match reguarded {
        RemovalAnswer::Path(Ok(path)) => path,
        _ => return removal_failed(input, "removal answered out of turn"),
    };
    let reinspected = RemovalAnswer::Warnings(git.inspect_removal(target.as_str(), reference.clone_url.as_str()));
    let stage = RemovalStage::Reinspected { force, reviewed: warnings };
    if let RemovalNext::Stop(status) = removal_step(&stage, &reinspected) {
        return removal_outcome(input, status);
    }
    let reviewed = match stage {
        RemovalStage::Reinspected { reviewed, .. } => reviewed,
        _ => return removal_failed(input, "removal answered out of turn"),
    };
    let final_warnings = match reinspected {
        RemovalAnswer::Warnings(Ok(warnings)) => warnings,
        _ => return removal_failed(input, "removal answered out of turn"),
    };
    let deleted = RemovalAnswer::Done(delete_below_root(filesystem, root, target.as_str(), &reviewed, &final_warnings, force));
    if let RemovalNext::Stop(status) = removal_step(&RemovalStage::Deleted, &deleted) {
        return removal_outcome(input, status);
    }
    let choice = RemovalAnswer::Choice(unregister_after_handling(interaction, input, unregister));
    if let RemovalNext::Stop(status) = removal_step(&RemovalStage::RemovedChoice, &choice) {
        return removal_outcome(input, status);
    }
    let stored = RemovalAnswer::Stored(store.remove(config_path, &one));
    match removal_step(&RemovalStage::RemovedStored, &stored) {
        RemovalNext::Stop(status) => removal_outcome(input, status),
        _ => removal_failed(input, "removal answered out of turn"),
    }
}

/// No reference is one that must not be acted on at all.
pub open spec fn all_safe(refs: Seq<Seq<char>>) -> bool {
    forall|i: int| 0 <= i < refs.len() ==> !#[trigger] reference_unsafe(refs[i])
}

/// Refuses the whole batch when a reference must not be acted on, with the first one's reason.
fn validate_references(references: &Vec<String>) -> (r: Result<(), String>)
    ensures
        r is Ok <==> all_safe(references.deep_view()),
{
    let mut i: usize = 0;
    while i < references.len()
        invariant
            i <= references@.len(),
            forall|j: int| 0 <= j < i ==> !#[trigger] reference_unsafe(references.deep_view()[j]),
        decreases references.len() - i,
    {
        assert(references.deep_view()[i as int] == references@[i as int]@);
        match crate::domain::repository::validate_reference_safety(references[i].as_str()) {
            Err(error) => return Err(error.message()),
            Ok(()) => {},
        }
        i += 1;
    }
    Ok(())
}

fn load_config<S: ConfigStore>(store: &S, path: &str) -> (r: Result<Config, String>) {
    store.load(path)
}

/// Removes the named checkouts in order; a cancellation stops the batch.
pub fn remove_many<S: ConfigStore, G: GitRemoval, F: RemovalFilesystem, I: Interaction>(
    store: &S,
    git: &G,
    filesystem: &F,
    interaction: &mut I,
    config_path: &str,
    references: &Vec<String>,
    unregister: Option<bool>,
    yes: bool,
    force: bool,
    interactive: bool,
    home: &str,
) -> (r: Result<RemovalBatchOutcome, String>)
    ensures
        !all_safe(references.deep_view()) ==> r is Err,
        r matches Ok(b) ==> b.outcomes@.len() <= references@.len() && (forall|i: int| 0 <= i < b.outcomes@.len()
            ==> (#[trigger] b.outcomes@[i]).reference@ == references@[i]@) && (b.outcomes@.len() < references@.len()
            ==> b.cancelled) && (b.cancelled ==> b.outcomes@.len() > 0 && cancelled_status(b.outcomes@.last().status)),
{
    validate_references(references)?;
    let config = load_config(store, config_path)?;
    let root = match config.resolve_root(home) {
        Ok(root) => root,
        Err(error) => return Err(error.message()),
    };
    let canonical = match filesystem.canonicalize(root.as_str()) {
        Ok(root) => Some(root),
        Err(_) => None,
    };
    let mut result = RemovalBatchOutcome { outcomes: Vec::new(), cancelled: false };
    let mut i: usize = 0;
    while i < references.len()
        invariant
            i <= references@.len(),
            all_safe(references.deep_view()),
            result.outcomes@.len() == i,
            !result.cancelled,
            forall|j: int| 0 <= j < i ==> (#[trigger] result.outcomes@[j]).reference@ == references@[j]@,
        decreases references.len() - i,
    {
        let root_ref = match &canonical {
            Some(root) => Some(root.as_str()),
            None => None,
        };
        let outcome = remove_one(
            store, git, filesystem, interaction, config_path, &config, root_ref, references[i].as_str(), None,
            unregister, yes, force, interactive, home,
        );
        let cancelled = is_cancelled_text(&outcome.status);
        result.outcomes.push(outcome);
        if cancelled {
            result.cancelled = true;
            return Ok(result);
        }
        i += 1;
    }
    Ok(result)
}

/// Removes checkouts chosen from discovered candidates, each at its exact discovered path.
pub fn remove_selected_many<S: ConfigStore, G: GitRemoval, F: RemovalFilesystem, I: Interaction>(
    store: &S,
    git: &G,
    filesystem: &F,
    interaction: &mut I,
    config_path: &str,
    selections: &Vec<SelectionCandidate>,
    unregister: Option<bool>,
    yes: bool,
    force: bool,
    interactive: bool,
    home: &str,
) -> (r: Result<RemovalBatchOutcome, String>)
    ensures
        r matches Ok(b) ==> b.outcomes@.len() <= selections@.len() && (forall|i: int| 0 <= i < b.outcomes@.len()
            ==> (#[trigger] b.outcomes@[i]).reference@ == selections@[i].reference.clone_url@) && (
        b.outcomes@.len() < selections@.len() ==> b.cancelled) && (b.cancelled ==> b.outcomes@.len() > 0
            && cancelled_status(b.outcomes@.last().status)),
        r matches Ok(b) ==> forall|i: int| 0 <= i < b.outcomes@.len() && (#[trigger] selections@[i]).exact_path is None
            ==> (b.outcomes@[i].status matches RemovalStatus::Failed(m) && m@ == "selected clone omitted its exact path"@),
        r matches Ok(b) ==> forall|i: int| 0 <= i < b.outcomes@.len() ==> !((#[trigger] b.outcomes@[i]).status is Absent),
{
    let mut urls: Vec<String> = Vec::new();
    let mut k: usize = 0;
    while k < selections.len()
        invariant
            k <= selections@.len(),
        decreases selections.len() - k,
    {
        urls.push(string_of(&chars(selections[k].reference.clone_url.as_str())));
        k += 1;
    }
    validate_references(&urls)?;
    let config = load_config(store, config_path)?;
    let configured_root = match config.resolve_root(home) {
        Ok(root) => root,
        Err(error) => return Err(error.message()),
    };
    let canonical = match filesystem.canonicalize(configured_root.as_str()) {
        Ok(root) => Some(root),
        Err(_) => None,
    };
    let mut result = RemovalBatchOutcome { outcomes: Vec::new(), cancelled: false };
    let mut i: usize = 0;
    while i < selections.len()
        invariant
            i <= selections@.len(),
            result.outcomes@.len() == i,
            !result.cancelled,
            forall|j: int| 0 <= j < i ==> (#[trigger] result.outcomes@[j]).reference@ == selections@[j].reference.clone_url@,
            forall|j: int| 0 <= j < i && (#[trigger] selections@[j]).exact_path is None ==> (result.outcomes@[j].status
                matches RemovalStatus::Failed(m) && m@ == "selected clone omitted its exact path"@),
            forall|j: int| 0 <= j < i ==> !((#[trigger] result.outcomes@[j]).status is Absent),
        decreases selections.len() - i,
    {
        let selection = &selections[i];
        let input = selection.reference.clone_url.as_str();
        let exact = match &selection.exact_path {
            Some(path) => path.as_str(),
            None => {
                result.outcomes.push(removal_failed(input, "selected clone omitted its exact path"));
                i += 1;
                continue;
            },
        };
        let root_ref = match &canonical {
            Some(root) => Some(root.as_str()),
            None => None,
        };
        let outcome = remove_one(
            store, git, filesystem, interaction, config_path, &config, root_ref, input, Some(exact), unregister,
            yes, force, interactive, home,
        );
        let cancelled = is_cancelled_text(&outcome.status);
        result.outcomes.push(outcome);
        if cancelled {
            result.cancelled = true;
            return Ok(result);
        }
        i += 1;
    }
    Ok(result)
}

// ---------------------------------------------------------------------------
// Cloning
// ---------------------------------------------------------------------------

/// Drops every progress event: the clone paths other than `ensure` report nothing.
struct Quiet;

impl EnsureReporter for Quiet {
    fn report(&mut self, event: EnsureEvent<'_>) {
    }
}

fn failed(input: &str, error: &str) -> (r: RepositoryOutcome)
    ensures
        r.reference@ == input@,
        r.status matches OperationStatus::Failed(m) && m@ == error@,
{
    RepositoryOutcome { reference: string_of(&chars(input)), status: OperationStatus::Failed(string_of(&chars(error))) }
}

/// The outcome is a failure with exactly this text.
pub open spec fn failed_with(status: OperationStatus, text: Seq<char>) -> bool {
    status matches OperationStatus::Failed(m) && m@ == text
}

fn plain_failure(input: &str, error: &str) -> (r: CloneOutcome)
    ensures
        r.outcome.reference@ == input@,
        failed_with(r.outcome.status, error@),
        !r.cancelled,
{
    CloneOutcome { outcome: failed(input, error), cancelled: false }
}

fn reported_failure<R: EnsureReporter>(reporter: &mut R, input: &str, error: &str) -> (r: CloneOutcome)
    ensures
        r.outcome.reference@ == input@,
        failed_with(r.outcome.status, error@),
        !r.cancelled,
{
    reporter.report(EnsureEvent::CloneFailed { reference: input, error });
    plain_failure(input, error)
}

/// Appends an outcome to the batch; says whether the batch is now cancelled.
fn record_clone(result: &mut BatchOutcome, outcome: CloneOutcome) -> (stop: bool)
    ensures
        final(result).outcomes@ == old(result).outcomes@.push(outcome.outcome),
        final(result).provider_errors@ == old(result).provider_errors@,
        final(result).cancelled == (old(result).cancelled || outcome.cancelled),
        stop == final(result).cancelled,
{
    result.cancelled = result.cancelled || outcome.cancelled;
    result.outcomes.push(outcome.outcome);
    result.cancelled
}

/// Replaces the status of the last outcome by a failure.
fn fail_last(result: &mut BatchOutcome, error: String)
    requires
        old(result).outcomes@.len() > 0,
    ensures
        final(result).outcomes@.len() == old(result).outcomes@.len(),
        forall|i: int| 0 <= i < old(result).outcomes@.len() - 1 ==> final(result).outcomes@[i] == old(result).outcomes@[i],
        final(result).outcomes@.last().reference == old(result).outcomes@.last().reference,
        final(result).outcomes@.last().status == OperationStatus::Failed(error),
        final(result).provider_errors@ == old(result).provider_errors@,
        final(result).cancelled == old(result).cancelled,
{
    let last = result.outcomes.pop().unwrap();
    result.outcomes.push(RepositoryOutcome { reference: last.reference, status: OperationStatus::Failed(error) });
}

/// A batch without questions is cancelled only by the failure it ends with.
pub open spec fn stopped_by_failure(outcomes: Seq<RepositoryOutcome>, cancelled: bool) -> bool {
    cancelled ==> outcomes.len() > 0 && outcomes.last().status is Failed
}

/// What a clone of a concrete reference must come to whatever the outside work did:
/// the input is kept, the refusals that need no outside answer are exact, only a failure
/// cancels, and nothing but a fresh clone or a no-op succeeds.
pub open spec fn clone_settled(
    config: ConfigView,
    parsed: RefView,
    input: Seq<char>,
    home: Seq<char>,
    reference: Seq<char>,
    status: OperationStatus,
    cancelled: bool,
) -> bool {
    &&& reference == input
    &&& parsed.wildcard ==> failed_with(status, "wildcard references cannot be cloned directly"@) && !cancelled
    &&& !parsed.wildcard ==> (spec_destination(config, parsed, home) matches Err(e) ==> failed_with(status, e) && !cancelled)
    &&& cancelled ==> status is Failed
    &&& !(status is Hooked)
}

// ---------------------------------------------------------------------------
// Cloning, one answer at a time
// ---------------------------------------------------------------------------

/// Where bringing one repository to its destination stands when an outside answer comes in.
pub enum CloneStage {
    /// The destination was classified.
    Classified,
    /// The clone ran.
    Cloned,
    /// The declaration was persisted (when one was asked for).
    Registered,
    /// The hook ran after a fresh clone.
    Hooked,
}

/// An outside answer while bringing a repository to its destination. A failure carries, beside
/// its text, whether the port reports it as a cancellation.
pub enum CloneAnswer {
    State(LocalState),
    Clone(Result<(), String>, bool),
    Register(Result<Vec<Mutation>, String>),
    Hook(Result<(), String>, bool),
}

/// What bringing a repository to its destination does after an answer.
pub enum CloneNext {
    /// The destination is missing: clone it.
    CloneNow,
    /// Go on to the next step in order (after the classification: the destination already
    /// holds the repository).
    Go,
    /// The repository ends with this status; `cancelled` when the failure stops the batch.
    Stop(OperationStatus, bool),
}

fn clone_stop_failed(text: &str, cancelled: bool) -> (r: CloneNext)
    ensures
        r matches CloneNext::Stop(OperationStatus::Failed(m), c) && m@ == text@ && c == cancelled,
{
    CloneNext::Stop(OperationStatus::Failed(string_of(&chars(text))), cancelled)
}

/// The decision on one outside answer while bringing a repository to its destination: only
/// a failure the port reports as a cancellation cancels, and a failure keeps the port's text.
pub fn clone_step(stage: &CloneStage, answer: &CloneAnswer) -> (r: CloneNext)
    ensures
        *stage is Classified ==> match *answer {
            CloneAnswer::State(LocalState::Missing) => r is CloneNow,
            CloneAnswer::State(LocalState::Cloned) => r is Go,
            CloneAnswer::State(LocalState::Conflict) => r matches CloneNext::Stop(OperationStatus::Failed(m), c)
                && m@ == "destination conflicts with repository"@ && !c,
            CloneAnswer::State(LocalState::Unreadable) => r matches CloneNext::Stop(OperationStatus::Failed(m), c)
                && m@ == "destination is unreadable"@ && !c,
            _ => r is Stop,
        },
        *stage is Cloned ==> match *answer {
            CloneAnswer::Clone(Ok(()), _) => r is Go,
            CloneAnswer::Clone(Err(e), cancelled) => r matches CloneNext::Stop(OperationStatus::Failed(m), c) && m@ == e@ && c == cancelled,
            _ => r is Stop,
        },
        *stage is Registered ==> match *answer {
            CloneAnswer::Register(Ok(_)) => r is Go,
            CloneAnswer::Register(Err(e)) => r matches CloneNext::Stop(OperationStatus::Failed(m), c)
                && m@ == "could not persist declaration: "@ + e@ && !c,
            _ => r is Stop,
        },
        *stage is Hooked ==> match *answer {
            CloneAnswer::Hook(Ok(()), _) => r == CloneNext::Stop(OperationStatus::Cloned, false),
            CloneAnswer::Hook(Err(e), cancelled) => r matches CloneNext::Stop(OperationStatus::Failed(m), c) && m@ == e@ && c == cancelled,
            _ => r is Stop,
        },
{
    match (stage, answer) {
        (CloneStage::Classified, CloneAnswer::State(state)) => match state {
            LocalState::Missing => CloneNext::CloneNow,
            LocalState::Cloned => CloneNext::Go,
            LocalState::Conflict => clone_stop_failed("destination conflicts with repository", false),
            LocalState::Unreadable => clone_stop_failed("destination is unreadable", false),
        },
        (CloneStage::Cloned, CloneAnswer::Clone(result, cancelled)) => match result {
            Ok(()) => CloneNext::Go,
            Err(e) => clone_stop_failed(e.as_str(), *cancelled),
        },
        (CloneStage::Registered, CloneAnswer::Register(result)) => match result {
            Ok(_) => CloneNext::Go,
            Err(e) => CloneNext::Stop(
                OperationStatus::Failed(string_of(&concat(&chars("could not persist declaration: "), &chars(e.as_str())))),
                false,
            ),
        },
        (CloneStage::Hooked, CloneAnswer::Hook(result, cancelled)) => match result {
            Ok(()) => CloneNext::Stop(OperationStatus::Cloned, false),
            Err(e) => clone_stop_failed(e.as_str(), *cancelled),
        },
        _ => clone_stop_failed("clone answered out of turn", false),
    }
}

/// Brings one concrete reference to its destination: clones it when missing, registers it
/// when asked and runs the requested (or else the configured) hook after a fresh clone.
fn clone_reference<S: ConfigStore, G: GitClient + GitState, H: HookRunner, R: EnsureReporter>(
    store: &S,
    git: &G,
    hooks: &H,
    config_path: &str,
    config: &Config,
    parsed: &RepositoryRef,
    input: &str,
    add: bool,
    requested_hook: Option<&str>,
    home: &str,
    reporter: &mut R,
) -> (r: CloneOutcome)
    ensures
        clone_settled(config@, parsed@, input@, home@, r.outcome.reference@, r.outcome.status, r.cancelled),
{
    if parsed.wildcard {
        return reported_failure(reporter, input, "wildcard references cannot be cloned directly");
    }
    let root = match config.resolve_root(home) {
        Ok(root) => root,
        Err(error) => return reported_failure(reporter, input, error.message().as_str()),
    };
    let destination = match destination(config, parsed, home) {
        Ok(destination) => destination,
        Err(error) => return reported_failure(reporter, input, error.as_str()),
    };
    let state = CloneAnswer::State(git.classify_destination(destination.as_str(), parsed.clone_url.as_str()));
    let fresh = match clone_step(&CloneStage::Classified, &state) {
        CloneNext::CloneNow => {
            reporter.report(EnsureEvent::CloneStarted { reference: input, destination: destination.as_str() });
            let result = git.clone_repository(parsed.clone_url.as_str(), home, root.as_str(), destination.as_str());
            let cancelled = match &result {
                Ok(()) => false,
                Err(error) => git.is_cancelled(error),
            };
            if let CloneNext::Stop(status, cancelled) = clone_step(&CloneStage::Cloned, &CloneAnswer::Clone(result, cancelled)) {
                return finish_clone(reporter, input, status, cancelled);
            }
            true
        },
        CloneNext::Go => false,
        CloneNext::Stop(status, cancelled) => return finish_clone(reporter, input, status, cancelled),
    };
    if add {
        let mut one: Vec<String> = Vec::new();
        one.push(string_of(&chars(input)));
        let answer = CloneAnswer::Register(store.register(config_path, &one, requested_hook));
        if let CloneNext::Stop(status, cancelled) = clone_step(&CloneStage::Registered, &answer) {
            return finish_clone(reporter, input, status, cancelled);
        }
    }
    if !fresh {
        return CloneOutcome {
            outcome: RepositoryOutcome { reference: string_of(&chars(input)), status: OperationStatus::Noop },
            cancelled: false,
        };
    }
    let configured = configured_hook(config, &chars(parsed.identity().as_str()));
    let command = match requested_hook {
        Some(command) => Some(string_of(&chars(command))),
        None => configured,
    };
    match command {
        Some(command) => {
            let result = hooks.run_hook(command.as_str(), destination.as_str());
            let cancelled = match &result {
                Ok(()) => false,
                Err(error) => hooks.is_cancelled(error),
            };
            match clone_step(&CloneStage::Hooked, &CloneAnswer::Hook(result, cancelled)) {
                CloneNext::Stop(status, cancelled) => finish_clone(reporter, input, status, cancelled),
                _ => finish_clone(reporter, input, OperationStatus::Failed(string_of(&chars("clone answered out of turn"))), false),
            }
        },
        None => finish_clone(reporter, input, OperationStatus::Cloned, false),
    }
}

/// Reports how a repository ended (a failure, or a fresh clone) and gives its outcome.
fn finish_clone<R: EnsureReporter>(reporter: &mut R, input: &str, status: OperationStatus, cancelled: bool) -> (r: CloneOutcome)
    ensures
        r.outcome.reference@ == input@,
        r.outcome.status == status,
        r.cancelled == cancelled,
{
    match &status {
        OperationStatus::Failed(error) => reporter.report(EnsureEvent::CloneFailed { reference: input, error: error.as_str() }),
        OperationStatus::Cloned => reporter.report(EnsureEvent::CloneSucceeded { reference: input }),
        _ => {},
    }
    CloneOutcome { outcome: RepositoryOutcome { reference: string_of(&chars(input)), status }, cancelled }
}

/// `clone_reference` for a reference still to be read from its text.
pub open spec fn candidate_settled(
    config: ConfigView,
    input: Seq<char>,
    home: Seq<char>,
    reference: Seq<char>,
    status: OperationStatus,
    cancelled: bool,
) -> bool {
    match spec_parse(input) {
        Err(e) => reference == input && failed_with(status, ref_error_text(e)) && !cancelled,
        Ok(v) => clone_settled(config, v, input, home, reference, status, cancelled),
    }
}

fn clone_candidate<S: ConfigStore, G: GitClient + GitState, H: HookRunner, R: EnsureReporter>(
    store: &S,
    git: &G,
    hooks: &H,
    config_path: &str,
    config: &Config,
    input: &str,
    add: bool,
    requested_hook: Option<&str>,
    home: &str,
    reporter: &mut R,
) -> (r: CloneOutcome)
    ensures
        candidate_settled(config@, input@, home@, r.outcome.reference@, r.outcome.status, r.cancelled),
{
    let parsed = match RepositoryRef::parse(input) {
        Ok(reference) => reference,
        Err(error) => return plain_failure(input, error.message().as_str()),
    };
    if parsed.wildcard {
        return plain_failure(input, "wildcard references cannot be cloned directly");
    }
    clone_reference(store, git, hooks, config_path, config, &parsed, input, add, requested_hook, home, reporter)
}

/// What an outcome owes its input alone: a reference that does not parse or names a wildcard
/// fails with the exact reason, and nothing is reported as hooked.
pub open spec fn input_settled(input: Seq<char>, status: OperationStatus) -> bool {
    &&& !(status is Hooked)
    &&& match spec_parse(input) {
        Err(e) => failed_with(status, ref_error_text(e)),
        Ok(v) => v.wildcard ==> failed_with(status, "wildcard references cannot be cloned directly"@),
    }
}

/// A batch that stopped early was cancelled, a batch is cancelled only while handling some
/// input, and each outcome answers the input at its position.
pub open spec fn batch_follows(outcomes: Seq<RepositoryOutcome>, inputs: Seq<Seq<char>>, cancelled: bool) -> bool {
    &&& outcomes.len() <= inputs.len()
    &&& outcomes.len() < inputs.len() ==> cancelled
    &&& cancelled ==> outcomes.len() > 0
    &&& forall|i: int| 0 <= i < outcomes.len() ==> (#[trigger] outcomes[i]).reference@ == inputs[i]
}

/// Clones each reference in turn, registering each when `add` or a hook is given, and
/// reports progress; a cancellation stops the batch.
pub fn clone_many_with_reporter<S: ConfigStore, G: GitClient + GitState, H: HookRunner, R: EnsureReporter>(
    store: &S,
    git: &G,
    hooks: &H,
    config_path: &str,
    references: &Vec<String>,
    add: bool,
    post_clone: Option<&str>,
    home: &str,
    reporter: &mut R,
) -> (r: Result<BatchOutcome, String>)
    ensures
        !all_safe(references.deep_view()) ==> r is Err,
        r matches Ok(b) ==> {
            &&& batch_follows(b.outcomes@, references.deep_view(), b.cancelled)
            &&& stopped_by_failure(b.outcomes@, b.cancelled)
            &&& b.provider_errors@.len() == 0
            &&& forall|i: int| 0 <= i < b.outcomes@.len() ==> input_settled(references.deep_view()[i], (#[trigger] b.outcomes@[i]).status)
        },
{
    validate_references(references)?;
    let config = load_config(store, config_path)?;
    let mut result = empty_batch();
    let mut i: usize = 0;
    while i < references.len()
        invariant
            i <= references@.len(),
            all_safe(references.deep_view()),
            result.outcomes@.len() == i,
            !result.cancelled,
            result.provider_errors@.len() == 0,
            forall|j: int| 0 <= j < i ==> (#[trigger] result.outcomes@[j]).reference@ == references.deep_view()[j],
            forall|j: int| 0 <= j < i ==> input_settled(references.deep_view()[j], (#[trigger] result.outcomes@[j]).status),
        decreases references.len() - i,
    {
        assert(references.deep_view()[i as int] == references@[i as int]@);
        let outcome = clone_candidate(
            store, git, hooks, config_path, &config, references[i].as_str(), add || post_clone.is_some(), post_clone, home, reporter,
        );
        assert(outcome.outcome.reference@ == references.deep_view()[i as int]
            && input_settled(references.deep_view()[i as int], outcome.outcome.status)) by {
            match spec_parse(references@[i as int]@) {
                Ok(v) => {},
                Err(e) => {},
            }
        }
        if record_clone(&mut result, outcome) {
            return Ok(result);
        }
        i += 1;
    }
    Ok(result)
}

/// Clones each reference in turn, registering each when `add` or a hook is given; a
/// cancellation stops the batch.
pub fn clone_many<S: ConfigStore, G: GitClient + GitState, H: HookRunner>(
    store: &S,
    git: &G,
    hooks: &H,
    config_path: &str,
    references: &Vec<String>,
    add: bool,
    post_clone: Option<&str>,
    home: &str,
) -> (r: Result<BatchOutcome, String>)
    ensures
        !all_safe(references.deep_view()) ==> r is Err,
        r matches Ok(b) ==> {
            &&& batch_follows(b.outcomes@, references.deep_view(), b.cancelled)
            &&& stopped_by_failure(b.outcomes@, b.cancelled)
            &&& b.provider_errors@.len() == 0
            &&& forall|i: int| 0 <= i < b.outcomes@.len() ==> input_settled(references.deep_view()[i], (#[trigger] b.outcomes@[i]).status)
        },
{
    let mut quiet = Quiet;
    clone_many_with_reporter(store, git, hooks, config_path, references, add, post_clone, home, &mut quiet)
}

pub open spec fn clone_urls(refs: Seq<RepositoryRef>) -> Seq<Seq<char>> {
    refs.map_values(|r: RepositoryRef| r.clone_url@)
}

fn urls_of(references: &Vec<RepositoryRef>) -> (r: Vec<String>)
    ensures
        r.deep_view() == clone_urls(references@),
        r@.len() == references@.len(),
{
    let mut urls: Vec<String> = Vec::new();
    let mut k: usize = 0;
    while k < references.len()
        invariant
            k <= references@.len(),
            urls.deep_view() == clone_urls(references@).subrange(0, k as int),
        decreases references.len() - k,
    {
        let ghost before = urls.deep_view();
        urls.push(string_of(&chars(references[k].clone_url.as_str())));
        assert(urls.deep_view() =~= before.push(references@[k as int].clone_url@));
        assert(clone_urls(references@).subrange(0, k + 1) =~= clone_urls(references@).subrange(0, k as int).push(references@[k as int].clone_url@));
        k += 1;
    }
    assert(clone_urls(references@).subrange(0, references@.len() as int) =~= clone_urls(references@));
    assert(urls.deep_view().len() == urls@.len());
    urls
}

/// Clones already-read references in turn, registering each when `add` or a hook is given;
/// a cancellation stops the batch.
pub fn clone_references<S: ConfigStore, G: GitClient + GitState, H: HookRunner>(
    store: &S,
    git: &G,
    hooks: &H,
    config_path: &str,
    references: &Vec<RepositoryRef>,
    add: bool,
    post_clone: Option<&str>,
    home: &str,
) -> (r: Result<BatchOutcome, String>)
    ensures
        !all_safe(clone_urls(references@)) ==> r is Err,
        r matches Ok(b) ==> {
            &&& batch_follows(b.outcomes@, clone_urls(references@), b.cancelled)
            &&& stopped_by_failure(b.outcomes@, b.cancelled)
            &&& b.provider_errors@.len() == 0
            &&& forall|i: int| 0 <= i < b.outcomes@.len() ==> !((#[trigger] b.outcomes@[i]).status is Hooked) && (references@[i].wildcard
                ==> failed_with(b.outcomes@[i].status, "wildcard references cannot be cloned directly"@))
        },
{
    let urls = urls_of(references);
    validate_references(&urls)?;
    let config = load_config(store, config_path)?;
    let mut result = empty_batch();
    let mut i: usize = 0;
    while i < references.len()
        invariant
            i <= references@.len(),
            all_safe(clone_urls(references@)),
            result.outcomes@.len() == i,
            !result.cancelled,
            result.provider_errors@.len() == 0,
            forall|j: int| 0 <= j < i ==> (#[trigger] result.outcomes@[j]).reference@ == clone_urls(references@)[j],
            forall|j: int| 0 <= j < i ==> !((#[trigger] result.outcomes@[j]).status is Hooked) && (references@[j].wildcard
                ==> failed_with(result.outcomes@[j].status, "wildcard references cannot be cloned directly"@)),
        decreases references.len() - i,
    {
        let reference = &references[i];
        let mut quiet = Quiet;
        let outcome = clone_reference(
            store, git, hooks, config_path, &config, reference, reference.clone_url.as_str(), add || post_clone.is_some(),
            post_clone, home, &mut quiet,
        );
        if record_clone(&mut result, outcome) {
            return Ok(result);
        }
        i += 1;
    }
    Ok(result)
}

/// Clones one reference that must not be checked out yet.
pub fn clone_one<S: ConfigStore, G: GitClient, F: RemovalFilesystem>(
    store: &S,
    git: &G,
    filesystem: &F,
    config_path: &str,
    reference: &str,
    home: &str,
) -> (r: Result<(), String>)
    ensures
        r is Ok ==> (spec_parse(reference@) matches Ok(v) && !v.wildcard),
{
    let config = load_config(store, config_path)?;
    let parsed = match RepositoryRef::parse(reference) {
        Ok(parsed) => parsed,
        Err(error) => return Err(error.message()),
    };
    if parsed.wildcard {
        return Err(string_of(&chars("wildcard references cannot be cloned directly")));
    }
    let root = match config.resolve_root(home) {
        Ok(root) => root,
        Err(error) => return Err(error.message()),
    };
    let destination = destination(&config, &parsed, home)?;
    if filesystem.exists_at(destination.as_str()) {
        return Err(string_of(&concat(&chars("destination already exists: "), &chars(destination.as_str()))));
    }
    git.clone_repository(parsed.clone_url.as_str(), home, root.as_str(), destination.as_str())
}

/// What an interactive batch owes a named reference: one that does not read fails under a
/// placeholder name with the parser's reason; the others keep their input and are settled
/// as for any batch.
pub open spec fn interactive_settled(input: Seq<char>, outcome: RepositoryOutcome) -> bool {
    match spec_parse(input) {
        Err(e) => outcome.reference@ == "invalid repository reference"@ && failed_with(outcome.status, ref_error_text(e)),
        Ok(_) => outcome.reference@ == input && input_settled(input, outcome.status),
    }
}

/// Each outcome of an interactive batch: a reference that did not read fails under a
/// placeholder name with the parser's reason; the others keep their input.
pub open spec fn parsed_batch_settled(outcomes: Seq<RepositoryOutcome>, parsed: Seq<Result<RepositoryRef, String>>, inputs: Seq<Seq<char>>) -> bool {
    forall|i: int| 0 <= i < outcomes.len() ==> !((#[trigger] outcomes[i]).status is Hooked) && match parsed[i] {
        Ok(r) => outcomes[i].reference@ == inputs[i] && (r@.wildcard ==> failed_with(outcomes[i].status, "wildcard references cannot be cloned directly"@)),
        Err(e) => outcomes[i].reference@ == "invalid repository reference"@ && failed_with(outcomes[i].status, e@),
    }
}

pub open spec fn clone_batch_settled(outcomes: Seq<RepositoryOutcome>, refs: Seq<RepositoryRef>) -> bool {
    forall|i: int| 0 <= i < outcomes.len() ==> !((#[trigger] outcomes[i]).status is Hooked) && (refs[i].wildcard
        ==> failed_with(outcomes[i].status, "wildcard references cannot be cloned directly"@))
}

/// Clones each reference and, after each success, asks whether to register it and with
/// which hook; a fresh clone then runs the hook chosen. A cancellation stops the batch.
/// Where registering a freshly handled repository stands in an interactive session.
pub enum AddStage {
    /// The person answered whether to register the repository.
    Asked,
    /// The person chose a hook (or none).
    HookChosen,
    /// The store persisted (or failed to persist) the declaration; `fresh` when the clone is
    /// new, `hooked` when a hook was chosen.
    Persisted { fresh: bool, hooked: bool },
    /// The chosen hook ran after the fresh clone.
    HookRan,
}

/// An outside answer while registering a repository in an interactive session.
pub enum AddAnswer {
    Register(Result<bool, InteractionError>),
    Hook(Result<Option<String>, InteractionError>),
    Stored(Result<Vec<Mutation>, String>),
    Ran(Result<(), String>, bool),
}

/// What the session does for the repository after an answer.
pub enum AddNext {
    /// Go on to the next step in order.
    Go,
    /// Nothing more for this repository.
    Done,
    /// The session is cancelled; the repository's outcome stays.
    Cancel,
    /// The repository's outcome becomes this failure, and the session goes on.
    Fail(String),
    /// The repository's outcome becomes this failure, and the session is cancelled.
    FailAndCancel(String),
}

/// The decision on one answer while registering a repository in an interactive session:
/// declining ends it, a cancelled question cancels the session, a failed answer fails the
/// repository, and the chosen hook runs only after a fresh clone.
pub fn add_step(stage: &AddStage, answer: &AddAnswer) -> (r: AddNext)
    ensures
        *stage is Asked ==> match *answer {
            AddAnswer::Register(Ok(true)) => r is Go,
            AddAnswer::Register(Ok(false)) => r is Done,
            AddAnswer::Register(Err(InteractionError::Cancelled)) => r is Cancel,
            AddAnswer::Register(Err(InteractionError::Failed(e))) => r == AddNext::Fail(e),
            _ => r is Fail,
        },
        *stage is HookChosen ==> match *answer {
            AddAnswer::Hook(Ok(_)) => r is Go,
            AddAnswer::Hook(Err(InteractionError::Cancelled)) => r is Cancel,
            AddAnswer::Hook(Err(InteractionError::Failed(e))) => r == AddNext::Fail(e),
            _ => r is Fail,
        },
        *stage matches AddStage::Persisted { fresh, hooked } ==> match *answer {
            AddAnswer::Stored(Ok(_)) => if fresh && hooked { r is Go } else { r is Done },
            AddAnswer::Stored(Err(e)) => r matches AddNext::Fail(m) && m@ == "could not persist declaration: "@ + e@,
            _ => r is Fail,
        },
        *stage is HookRan ==> match *answer {
            AddAnswer::Ran(Ok(()), _) => r is Done,
            AddAnswer::Ran(Err(e), cancelled) => if cancelled { r == AddNext::FailAndCancel(e) } else { r == AddNext::Fail(e) },
            _ => r is Fail,
        },
{
    match (stage, answer) {
        (AddStage::Asked, AddAnswer::Register(a)) => match a {
            Ok(true) => AddNext::Go,
            Ok(false) => AddNext::Done,
            Err(InteractionError::Cancelled) => AddNext::Cancel,
            Err(InteractionError::Failed(e)) => AddNext::Fail(e.clone()),
        },
        (AddStage::HookChosen, AddAnswer::Hook(a)) => match a {
            Ok(_) => AddNext::Go,
            Err(InteractionError::Cancelled) => AddNext::Cancel,
            Err(InteractionError::Failed(e)) => AddNext::Fail(e.clone()),
        },
        (AddStage::Persisted { fresh, hooked }, AddAnswer::Stored(a)) => match a {
            Ok(_) => if *fresh && *hooked { AddNext::Go } else { AddNext::Done },
            Err(e) => AddNext::Fail(string_of(&concat(&chars("could not persist declaration: "), &chars(e.as_str())))),
        },
        (AddStage::HookRan, AddAnswer::Ran(a, cancelled)) => match a {
            Ok(()) => AddNext::Done,
            Err(e) => if *cancelled { AddNext::FailAndCancel(e.clone()) } else { AddNext::Fail(e.clone()) },
        },
        _ => AddNext::Fail(string_of(&chars("registration answered out of turn"))),
    }
}

fn clone_parsed_with_interaction<S: ConfigStore, G: GitClient + GitState, H: HookRunner, I: Interaction, R: EnsureReporter>(
    store: &S,
    git: &G,
    hooks: &H,
    interaction: &mut I,
    config_path: &str,
    references: &Vec<Result<RepositoryRef, String>>,
    inputs: &Vec<String>,
    home: &str,
    reporter: &mut R,
) -> (r: Result<BatchOutcome, String>)
    requires
        references@.len() == inputs@.len(),
    ensures
        r matches Ok(b) ==> {
            &&& b.outcomes@.len() <= references@.len()
            &&& b.outcomes@.len() < references@.len() ==> b.cancelled
            &&& b.cancelled ==> b.outcomes@.len() > 0
            &&& b.provider_errors@.len() == 0
            &&& parsed_batch_settled(b.outcomes@, references@, inputs.deep_view())
        },
{
    let config = load_config(store, config_path)?;
    let mut result = empty_batch();
    let mut i: usize = 0;
    while i < references.len()
        invariant
            i <= references@.len(),
            references@.len() == inputs@.len(),
            result.outcomes@.len() == i,
            !result.cancelled,
            result.provider_errors@.len() == 0,
            parsed_batch_settled(result.outcomes@, references@, inputs.deep_view()),
        decreases references.len() - i,
    {
        assert(inputs.deep_view()[i as int] == inputs@[i as int]@);
        let reference = match &references[i] {
            Ok(reference) => reference,
            Err(error) => {
                result.outcomes.push(failed("invalid repository reference", error.as_str()));
                i += 1;
                continue;
            },
        };
        let input = inputs[i].as_str();
        let outcome = clone_reference(store, git, hooks, config_path, &config, reference, input, false, None, home, reporter);
        let succeeded = match &outcome.outcome.status {
            OperationStatus::Failed(_) => false,
            _ => true,
        };
        let fresh = match &outcome.outcome.status {
            OperationStatus::Cloned => true,
            _ => false,
        };
        if record_clone(&mut result, outcome) {
            return Ok(result);
        }
        i += 1;
        if !succeeded {
            continue;
        }
        assert(!reference@.wildcard);
        let question = string_of(&concat(&concat(&chars("Register "), &chars(input)), &chars("?")));
        let asked = AddAnswer::Register(interaction.confirm(question.as_str(), true));
        match add_step(&AddStage::Asked, &asked) {
            AddNext::Go => {},
            AddNext::Cancel => {
                result.cancelled = true;
                return Ok(result);
            },
            AddNext::Fail(error) => {
                fail_last(&mut result, error);
                continue;
            },
            _ => continue,
        }
        let chosen = AddAnswer::Hook(crate::application::registry::registration_choice(input, None, true, interaction));
        match add_step(&AddStage::HookChosen, &chosen) {
            AddNext::Go => {},
            AddNext::Cancel => {
                result.cancelled = true;
                return Ok(result);
            },
            AddNext::Fail(error) => {
                fail_last(&mut result, error);
                continue;
            },
            _ => continue,
        }
        let post_clone = match chosen {
            AddAnswer::Hook(Ok(post_clone)) => post_clone,
            _ => continue,
        };
        let mut one: Vec<String> = Vec::new();
        one.push(string_of(&chars(input)));
        let hook_ref = match &post_clone {
            Some(command) => Some(command.as_str()),
            None => None,
        };
        let stored = AddAnswer::Stored(store.register(config_path, &one, hook_ref));
        match add_step(&AddStage::Persisted { fresh, hooked: post_clone.is_some() }, &stored) {
            AddNext::Go => {},
            AddNext::Fail(error) => {
                fail_last(&mut result, error);
                continue;
            },
            _ => continue,
        }
        let command = match post_clone {
            Some(command) => command,
            None => continue,
        };
        let path = match destination(&config, reference, home) {
            Ok(path) => path,
            Err(error) => {
                fail_last(&mut result, error);
                continue;
            },
        };
        let ran = hooks.run_hook(command.as_str(), path.as_str());
        let cancelled = match &ran {
            Ok(()) => false,
            Err(error) => hooks.is_cancelled(error),
        };
        match add_step(&AddStage::HookRan, &AddAnswer::Ran(ran, cancelled)) {
            AddNext::FailAndCancel(error) => {
                fail_last(&mut result, error);
                result.cancelled = true;
                return Ok(result);
            },
            AddNext::Fail(error) => {
                fail_last(&mut result, error);
            },
            _ => {},
        }
    }
    Ok(result)
}

/// Clones the named references with the questions of an interactive session, and reports
/// progress.
pub fn clone_many_with_interaction_reporter<S: ConfigStore, G: GitClient + GitState, H: HookRunner, I: Interaction, R: EnsureReporter>(
    store: &S,
    git: &G,
    hooks: &H,
    interaction: &mut I,
    config_path: &str,
    references: &Vec<String>,
    home: &str,
    reporter: &mut R,
) -> (r: Result<BatchOutcome, String>)
    ensures
        !all_safe(references.deep_view()) ==> r is Err,
        r matches Ok(b) ==> {
            &&& b.outcomes@.len() <= references@.len()
            &&& b.outcomes@.len() < references@.len() ==> b.cancelled
            &&& b.cancelled ==> b.outcomes@.len() > 0
            &&& b.provider_errors@.len() == 0
            &&& forall|i: int| 0 <= i < b.outcomes@.len() ==> #[trigger] interactive_settled(references.deep_view()[i], b.outcomes@[i])
        },
{
    validate_references(references)?;
    let mut parsed: Vec<Result<RepositoryRef, String>> = Vec::new();
    let mut i: usize = 0;
    while i < references.len()
        invariant
            i <= references@.len(),
            parsed@.len() == i,
            forall|j: int| 0 <= j < i ==> match #[trigger] parsed@[j] {
                Ok(r) => spec_parse(references.deep_view()[j]) == Ok::<RefView, RefErrView>(r@),
                Err(e) => spec_parse(references.deep_view()[j]) matches Err(x) && e@ == ref_error_text(x),
            },
        decreases references.len() - i,
    {
        assert(references.deep_view()[i as int] == references@[i as int]@);
        match RepositoryRef::parse(references[i].as_str()) {
            Ok(reference) => parsed.push(Ok(reference)),
            Err(error) => parsed.push(Err(error.message())),
        }
        i += 1;
    }
    let r = clone_parsed_with_interaction(store, git, hooks, interaction, config_path, &parsed, references, home, reporter);
    proof {
        if r is Ok {
            let b = r->Ok_0;
            assert forall|i: int| 0 <= i < b.outcomes@.len() implies #[trigger] interactive_settled(references.deep_view()[i], b.outcomes@[i]) by {
                match parsed@[i] {
                    Ok(rf) => {},
                    Err(e) => {},
                }
            }
        }
    }
    r
}

/// Clones the named references with the questions of an interactive session.
pub fn clone_many_with_interaction<S: ConfigStore, G: GitClient + GitState, H: HookRunner, I: Interaction>(
    store: &S,
    git: &G,
    hooks: &H,
    interaction: &mut I,
    config_path: &str,
    references: &Vec<String>,
    home: &str,
) -> (r: Result<BatchOutcome, String>)
    ensures
        !all_safe(references.deep_view()) ==> r is Err,
        r matches Ok(b) ==> {
            &&& b.outcomes@.len() <= references@.len()
            &&& b.outcomes@.len() < references@.len() ==> b.cancelled
            &&& b.cancelled ==> b.outcomes@.len() > 0
            &&& b.provider_errors@.len() == 0
            &&& forall|i: int| 0 <= i < b.outcomes@.len() ==> #[trigger] interactive_settled(references.deep_view()[i], b.outcomes@[i])
        },
{
    let mut quiet = Quiet;
    clone_many_with_interaction_reporter(store, git, hooks, interaction, config_path, references, home, &mut quiet)
}

/// A copy of a reference.
fn copy_reference(reference: &RepositoryRef) -> (r: RepositoryRef)
    ensures
        r@ == reference@,
{
    let segments = copy_strings(&reference.destination_segments);
    proof {
        let a = segments.deep_view();
        let b = reference.destination_segments.deep_view();
        assert(a.len() == segments@.len());
        assert(b.len() == reference.destination_segments@.len());
        assert forall|k: int| 0 <= k < segments@.len() implies #[trigger] segments@[k]@ == reference.destination_segments@[k]@ by {
            assert(a[k] == segments@[k].deep_view());
            assert(b[k] == reference.destination_segments@[k].deep_view());
        }
        assert(strings_view(segments@) =~= strings_view(reference.destination_segments@));
    }
    RepositoryRef {
        clone_url: string_of(&chars(reference.clone_url.as_str())),
        host: string_of(&chars(reference.host.as_str())),
        path: string_of(&chars(reference.path.as_str())),
        destination_segments: segments,
        wildcard: reference.wildcard,
    }
}

/// Clones already-read references with the questions of an interactive session.
pub fn clone_references_with_interaction<S: ConfigStore, G: GitClient + GitState, H: HookRunner, I: Interaction>(
    store: &S,
    git: &G,
    hooks: &H,
    interaction: &mut I,
    config_path: &str,
    references: &Vec<RepositoryRef>,
    home: &str,
) -> (r: Result<BatchOutcome, String>)
    ensures
        !all_safe(clone_urls(references@)) ==> r is Err,
        r matches Ok(b) ==> {
            &&& batch_follows(b.outcomes@, clone_urls(references@), b.cancelled)
            &&& b.provider_errors@.len() == 0
            &&& clone_batch_settled(b.outcomes@, references@)
        },
{
    let urls = urls_of(references);
    validate_references(&urls)?;
    let mut parsed: Vec<Result<RepositoryRef, String>> = Vec::new();
    let mut i: usize = 0;
    while i < references.len()
        invariant
            i <= references@.len(),
            parsed@.len() == i,
            forall|j: int| 0 <= j < i ==> ((#[trigger] parsed@[j]) is Ok && parsed@[j]->Ok_0@ == references@[j]@),
        decreases references.len() - i,
    {
        parsed.push(Ok(copy_reference(&references[i])));
        i += 1;
    }
    let mut quiet = Quiet;
    let r = clone_parsed_with_interaction(store, git, hooks, interaction, config_path, &parsed, &urls, home, &mut quiet);
    proof {
        if r is Ok {
            let b = r->Ok_0;
            assert forall|i: int| 0 <= i < b.outcomes@.len() implies (#[trigger] b.outcomes@[i]).reference@ == clone_urls(references@)[i] by {
                assert(parsed@[i] is Ok && parsed@[i]->Ok_0@ == references@[i]@);
            }
            assert forall|i: int| 0 <= i < b.outcomes@.len() implies !((#[trigger] b.outcomes@[i]).status is Hooked) && (references@[i].wildcard
                ==> failed_with(b.outcomes@[i].status, "wildcard references cannot be cloned directly"@)) by {
                assert(parsed@[i] is Ok && parsed@[i]->Ok_0@ == references@[i]@);
            }
        }
    }
    r
}

// ---------------------------------------------------------------------------
// The effective declarations
// ---------------------------------------------------------------------------

pub open spec fn summary_urls(v: Seq<RepositorySummary>) -> Seq<Seq<char>> {
    v.map_values(|s: RepositorySummary| s.reference.clone_url@)
}

fn urls_of_summaries(summaries: &Vec<RepositorySummary>) -> (r: Vec<String>)
    ensures
        r.deep_view() == summary_urls(summaries@),
{
    let mut urls: Vec<String> = Vec::new();
    let mut k: usize = 0;
    while k < summaries.len()
        invariant
            k <= summaries@.len(),
            urls.deep_view() == summary_urls(summaries@).subrange(0, k as int),
        decreases summaries.len() - k,
    {
        let ghost before = urls.deep_view();
        urls.push(string_of(&chars(summaries[k].reference.clone_url.as_str())));
        assert(urls.deep_view() =~= before.push(summaries@[k as int].reference.clone_url@));
        assert(summary_urls(summaries@).subrange(0, k + 1) =~= summary_urls(summaries@).subrange(0, k as int).push(summaries@[k as int].reference.clone_url@));
        k += 1;
    }
    assert(summary_urls(summaries@).subrange(0, summaries@.len() as int) =~= summary_urls(summaries@));
    urls
}

pub open spec fn candidate_ids(v: Seq<(RepositoryRef, Option<String>)>) -> Seq<Seq<char>> {
    v.map_values(|c: (RepositoryRef, Option<String>)| spec_identity(c.0@))
}

pub open spec fn distinct_candidates(cands: Seq<(RepositoryRef, Option<String>)>) -> bool {
    forall|a: int, b: int| 0 <= a < b < cands.len() ==> spec_identity((#[trigger] cands[a]).0@) != spec_identity((#[trigger] cands[b]).0@)
}

/// A candidate's hook is that of an explicit declaration of its repository.
pub open spec fn hooks_declared(c: ConfigView, cands: Seq<(RepositoryRef, Option<String>)>) -> bool {
    forall|k: int| 0 <= k < cands.len() && (#[trigger] cands[k]).1 is Some ==> exists|j: int| 0 <= j < c.repositories.len()
        && declares(#[trigger] c.repositories[j], spec_identity(cands[k].0@)) && option_view(cands[k].1) == c.repositories[j].post_clone
}

/// What `ensure` works through: each explicit declaration once, then the members of each
/// wildcard in identity order, without exclusions, explicit declarations or repeats.
pub open spec fn effective_settled(c: ConfigView, cands: Seq<(RepositoryRef, Option<String>)>) -> bool {
    &&& distinct_candidates(cands)
    &&& forall|id: Seq<char>| is_explicit(c, id) ==> #[trigger] candidate_ids(cands).contains(id)
    &&& hooks_declared(c, cands)
}

pub open spec fn some_declaration_unreadable(c: ConfigView) -> bool {
    exists|i: int| 0 <= i < c.repositories.len() && spec_parse((#[trigger] c.repositories[i]).url) is Err
}

/// Takes an explicit declaration as a candidate unless its repository is one already.
fn take_explicit(
    seen: &mut Vec<Vec<char>>,
    candidates: &mut Vec<(RepositoryRef, Option<String>)>,
    pattern: RepositoryRef,
    hook: Option<String>,
)
    requires
        candidate_ids(old(candidates)@) == texts(old(seen)@),
        distinct_candidates(old(candidates)@),
    ensures
        candidate_ids(final(candidates)@) == texts(final(seen)@),
        distinct_candidates(final(candidates)@),
        texts(final(seen)@).contains(spec_identity(pattern@)),
        forall|x: Seq<char>| texts(old(seen)@).contains(x) ==> #[trigger] texts(final(seen)@).contains(x),
        final(candidates)@ == old(candidates)@ || final(candidates)@ == old(candidates)@.push((pattern, hook)),
{
    let id = chars(pattern.identity().as_str());
    let ghost before = candidates@;
    let ghost seen_before = texts(seen@);
    let fresh = insert_new(seen, &id);
    if fresh {
        candidates.push((pattern, hook));
        proof {
            assert(candidate_ids(candidates@) =~= candidate_ids(before).push(id@));
            assert forall|a: int, b: int| 0 <= a < b < candidates@.len() implies spec_identity((#[trigger] candidates@[a]).0@) != spec_identity((#[trigger] candidates@[b]).0@) by {
                if b == before.len() {
                    assert(seen_before[a] == spec_identity(candidates@[a].0@));
                }
            }
            assert(texts(seen@)[seen_before.len() as int] == id@);
            assert forall|x: Seq<char>| seen_before.contains(x) implies #[trigger] texts(seen@).contains(x) by {
                let k = choose|k: int| 0 <= k < seen_before.len() && seen_before[k] == x;
                assert(texts(seen@)[k] == x);
            }
        }
    }
}

/// `r` is what `admit_members` admits of `expanded`: the members neither dropped nor seen,
/// each identity once, in identity order.
pub open spec fn admits(
    r: Seq<RepositorySummary>,
    expanded: Seq<RepositorySummary>,
    pattern_path: Seq<char>,
    exclude: Seq<Seq<char>>,
    explicit: Seq<Seq<char>>,
    seen: Seq<Seq<char>>,
) -> bool {
    &&& crate::application::membership::identities_sorted(r)
    &&& forall|k: int| 0 <= k < r.len() ==> expanded.contains(#[trigger] r[k])
    &&& forall|k: int| 0 <= k < r.len() ==> !crate::application::membership::member_dropped(#[trigger] r[k], pattern_path, exclude, true, explicit)
        && !seen.contains(crate::application::membership::summary_identity(r[k]))
    &&& forall|a: int, b: int| 0 <= a < b < r.len() ==> crate::application::membership::summary_identity(#[trigger] r[a])
        != crate::application::membership::summary_identity(#[trigger] r[b])
    &&& forall|j: int| 0 <= j < expanded.len() && !crate::application::membership::member_dropped(#[trigger] expanded[j], pattern_path, exclude, true, explicit)
        && !seen.contains(crate::application::membership::summary_identity(expanded[j])) ==> crate::application::membership::summary_identities(r).contains(
        crate::application::membership::summary_identity(expanded[j]))
}

/// Takes the admitted members of one wildcard as candidates, without hooks.
fn take_members(
    seen: &mut Vec<Vec<char>>,
    candidates: &mut Vec<(RepositoryRef, Option<String>)>,
    expanded: Vec<RepositorySummary>,
    pattern_path: &str,
    exclude: &Vec<String>,
    explicit: &Vec<Vec<char>>,
)
    requires
        candidate_ids(old(candidates)@) == texts(old(seen)@),
        distinct_candidates(old(candidates)@),
    ensures
        candidate_ids(final(candidates)@) == texts(final(seen)@),
        distinct_candidates(final(candidates)@),
        forall|x: Seq<char>| texts(old(seen)@).contains(x) ==> #[trigger] texts(final(seen)@).contains(x),
        final(candidates)@.len() >= old(candidates)@.len(),
        forall|k: int| 0 <= k < old(candidates)@.len() ==> #[trigger] final(candidates)@[k] == old(candidates)@[k],
        forall|k: int| old(candidates)@.len() <= k < final(candidates)@.len() ==> (#[trigger] final(candidates)@[k]).1 is None,
        exists|adm: Seq<RepositorySummary>| admits(adm, expanded@, pattern_path@, exclude.deep_view(), texts(explicit@), texts(old(seen)@))
            && final(candidates)@.len() == old(candidates)@.len() + adm.len()
            && forall|q: int| 0 <= q < adm.len() ==> #[trigger] final(candidates)@[old(candidates)@.len() + q] == (adm[q].reference, None::<String>),
{
    let ghost before = candidates@;
    let ghost seen_before = texts(seen@);
    let members = admit_members(expanded, pattern_path, exclude, explicit, true, seen);
    let ghost admitted = members@;
    let ghost ids = crate::application::membership::summary_identities(admitted);
    let mut rest = members;
    assert(admitted.subrange(0, 0) =~= Seq::<RepositorySummary>::empty());
    assert(candidate_ids(candidates@) =~= seen_before + crate::application::membership::summary_identities(admitted.subrange(0, 0)));
    while rest.len() > 0
        invariant
            candidates@.len() - before.len() + rest@.len() == admitted.len(),
            candidates@.len() >= before.len(),
            rest@ == admitted.subrange(candidates@.len() - before.len(), admitted.len() as int),
            candidate_ids(candidates@) == seen_before + crate::application::membership::summary_identities(admitted.subrange(0, candidates@.len() - before.len())),
            forall|k: int| 0 <= k < before.len() ==> #[trigger] candidates@[k] == before[k],
            forall|k: int| before.len() <= k < candidates@.len() ==> (#[trigger] candidates@[k]).1 is None,
            forall|q: int| 0 <= q < candidates@.len() - before.len() ==> #[trigger] candidates@[before.len() + q] == (admitted[q].reference, None::<String>),
        decreases rest@.len(),
    {
        let summary = rest.remove(0);
        let ghost n = candidates@.len() - before.len();
        let ghost before_ids = candidate_ids(candidates@);
        candidates.push((summary.reference, None));
        proof {
            assert(admitted[n] == summary);
            assert(candidate_ids(candidates@) =~= before_ids.push(spec_identity(summary.reference@)));
            assert(admitted.subrange(0, n + 1) =~= admitted.subrange(0, n).push(summary));
            assert(crate::application::membership::summary_identities(admitted.subrange(0, n + 1))
                =~= crate::application::membership::summary_identities(admitted.subrange(0, n)).push(spec_identity(summary.reference@)));
        }
    }
    proof {
        assert(admitted.subrange(0, admitted.len() as int) =~= admitted);
        assert(admits(admitted, expanded@, pattern_path@, exclude.deep_view(), texts(explicit@), seen_before));
        assert(candidate_ids(candidates@) == seen_before + ids);
        assert forall|a: int, b: int| 0 <= a < b < candidates@.len() implies spec_identity((#[trigger] candidates@[a]).0@) != spec_identity((#[trigger] candidates@[b]).0@) by {
            assert(candidate_ids(candidates@)[a] == spec_identity(candidates@[a].0@));
            assert(candidate_ids(candidates@)[b] == spec_identity(candidates@[b].0@));
            if b >= before.len() {
                let bb = b - before.len();
                assert(ids[bb] == crate::application::membership::summary_identity(admitted[bb]));
                assert(!seen_before.contains(ids[bb]));
                if a >= before.len() {
                    let aa = a - before.len();
                    assert(ids[aa] == crate::application::membership::summary_identity(admitted[aa]));
                } else {
                    assert(seen_before[a] == spec_identity(candidates@[a].0@));
                }
            } else {
                assert(candidates@[a] == before[a] && candidates@[b] == before[b]);
            }
        }
        assert forall|x: Seq<char>| seen_before.contains(x) implies #[trigger] texts(seen@).contains(x) by {
            let k = choose|k: int| 0 <= k < seen_before.len() && seen_before[k] == x;
            assert(texts(seen@)[k] == x);
        }
    }
}

/// Some declaration is a wildcard, whose members only the providers know.
pub open spec fn some_wildcard_declaration(c: ConfigView) -> bool {
    exists|i: int| 0 <= i < c.repositories.len() && (spec_parse((#[trigger] c.repositories[i]).url) matches Ok(p) && p.wildcard)
}

/// The repositories the declarations stand for: each explicit one, and the admitted members
/// of each wildcard, with the providers that could not expand theirs. Without wildcards no
/// provider is asked, and every readable configuration succeeds.
fn effective_declarations<P: ProviderCatalog>(
    config: &Config,
    providers: &P,
    include_archived: bool,
) -> (r: Result<(Vec<(RepositoryRef, Option<String>)>, Vec<ProviderError>), String>)
    ensures
        some_declaration_unreadable(config@) ==> r is Err,
        !some_declaration_unreadable(config@) && !some_wildcard_declaration(config@) ==> (r matches Ok(found) && found.1@.len() == 0),
        r matches Ok(found) ==> effective_settled(config@, found.0@),
{
    let ghost decls = config@.repositories;
    let explicit = explicit_identities(config);
    let mut seen: Vec<Vec<char>> = Vec::new();
    let mut candidates: Vec<(RepositoryRef, Option<String>)> = Vec::new();
    let mut provider_errors: Vec<ProviderError> = Vec::new();
    let mut i: usize = 0;
    assert(decls.subrange(0, 0) =~= Seq::<DeclView>::empty());
    assert(candidate_ids(candidates@) =~= texts(seen@));
    while i < config.repositories.len()
        invariant
            i <= config.repositories@.len(),
            decls == config@.repositories,
            decls.len() == config.repositories@.len(),
            candidate_ids(candidates@) == texts(seen@),
            forall|j: int| 0 <= j < i ==> spec_parse((#[trigger] decls[j]).url) is Ok,
            distinct_candidates(candidates@),
            forall|id: Seq<char>| explicit_list(decls.subrange(0, i as int)).contains(id) ==> #[trigger] texts(seen@).contains(id),
            hooks_declared(config@, candidates@),
            !some_wildcard_declaration(config@) ==> provider_errors@.len() == 0,
        decreases config.repositories.len() - i,
    {
        let declaration = &config.repositories[i];
        assert(decls[i as int] == declaration@);
        assert(decls.subrange(0, i + 1).drop_last() =~= decls.subrange(0, i as int));
        assert(decls.subrange(0, i + 1).last() == decls[i as int]);
        let pattern = match RepositoryRef::parse(declaration.url.as_str()) {
            Ok(pattern) => pattern,
            Err(error) => {
                assert(spec_parse(config@.repositories[i as int].url) is Err);
                return Err(error.message());
            },
        };
        if !pattern.wildcard {
            let hook = match &declaration.post_clone {
                Some(command) => Some(string_of(&chars(command.as_str()))),
                None => None,
            };
            assert(option_view(hook) == decls[i as int].post_clone);
            assert(declares(decls[i as int], spec_identity(pattern@)));
            let ghost old_seen = texts(seen@);
            take_explicit(&mut seen, &mut candidates, pattern, hook);
            proof {
                assert forall|x: Seq<char>| explicit_list(decls.subrange(0, i + 1)).contains(x) implies #[trigger] texts(seen@).contains(x) by {
                    if explicit_list(decls.subrange(0, i as int)).contains(x) {
                        assert(old_seen.contains(x));
                    }
                }
            }
            i += 1;
            continue;
        }
        assert(explicit_list(decls.subrange(0, i + 1)) == explicit_list(decls.subrange(0, i as int)));
        assert(spec_parse(config@.repositories[i as int].url) matches Ok(p) && p.wildcard);
        assert(some_wildcard_declaration(config@));
        let expanded = match providers.expand(&pattern, include_archived) {
            Ok(expanded) => expanded,
            Err(error) => {
                provider_errors.push(ProviderError { provider: string_of(&chars(pattern.host.as_str())), error });
                i += 1;
                continue;
            },
        };
        validate_references(&urls_of_summaries(&expanded))?;
        let ghost old_seen = texts(seen@);
        take_members(&mut seen, &mut candidates, expanded, pattern.path.as_str(), &declaration.exclude, &explicit);
        proof {
            assert forall|x: Seq<char>| explicit_list(decls.subrange(0, i + 1)).contains(x) implies #[trigger] texts(seen@).contains(x) by {
                assert(old_seen.contains(x));
            }
        }
        i += 1;
    }
    assert(decls.subrange(0, decls.len() as int) =~= decls);
    Ok((candidates, provider_errors))
}

/// Brings every effective declaration to its destination, reporting progress; a
/// cancellation stops the run.
pub fn ensure<S: ConfigStore, G: GitClient + GitState, H: HookRunner, P: ProviderCatalog, R: EnsureReporter>(
    store: &S,
    git: &G,
    hooks: &H,
    providers: &P,
    config_path: &str,
    include_archived: bool,
    home: &str,
    reporter: &mut R,
) -> (r: Result<BatchOutcome, String>)
    ensures
        r matches Ok(b) ==> {
            &&& forall|k: int| 0 <= k < b.outcomes@.len() ==> !((#[trigger] b.outcomes@[k]).status is Hooked)
            &&& stopped_by_failure(b.outcomes@, b.cancelled)
        },
{
    let config = load_config(store, config_path)?;
    let (candidates, provider_errors) = effective_declarations(&config, providers, include_archived)?;
    Ok(ensure_declarations(store, git, hooks, config_path, &config, &candidates, provider_errors, home, reporter))
}

/// The clone URLs of the declarations to bring, in order.
pub open spec fn candidate_urls(c: Seq<(RepositoryRef, Option<String>)>) -> Seq<Seq<char>> {
    c.map_values(|p: (RepositoryRef, Option<String>)| p.0.clone_url@)
}

/// What bringing one declaration to its destination comes to where no outside answer decides:
/// a wildcard or a destination that cannot be placed fails with its reason, and no hook is
/// reported as the outcome.
pub open spec fn declaration_settled(c: ConfigView, v: RefView, home: Seq<char>, status: OperationStatus) -> bool {
    &&& !(status is Hooked)
    &&& v.wildcard ==> failed_with(status, "wildcard references cannot be cloned directly"@)
    &&& !v.wildcard ==> (spec_destination(c, v, home) matches Err(e) ==> failed_with(status, e))
}

/// Reconciliation: brings each given declaration to its destination, in order and with the
/// hook it carries, one outcome for each; only a failure that cancels stops the run early.
pub fn ensure_declarations<S: ConfigStore, G: GitClient + GitState, H: HookRunner, R: EnsureReporter>(
    store: &S,
    git: &G,
    hooks: &H,
    config_path: &str,
    config: &Config,
    candidates: &Vec<(RepositoryRef, Option<String>)>,
    provider_errors: Vec<ProviderError>,
    home: &str,
    reporter: &mut R,
) -> (b: BatchOutcome)
    ensures
        b.provider_errors@ == provider_errors@,
        batch_follows(b.outcomes@, candidate_urls(candidates@), b.cancelled),
        stopped_by_failure(b.outcomes@, b.cancelled),
        forall|k: int| 0 <= k < b.outcomes@.len() ==> declaration_settled(config@, candidates@[k].0@, home@, (#[trigger] b.outcomes@[k]).status),
{
    let ghost errors = provider_errors@;
    let mut result = BatchOutcome { outcomes: Vec::new(), provider_errors, cancelled: false };
    let mut i: usize = 0;
    while i < candidates.len()
        invariant
            i <= candidates@.len(),
            result.outcomes@.len() == i,
            result.provider_errors@ == errors,
            errors == provider_errors@,
            !result.cancelled,
            forall|k: int| 0 <= k < result.outcomes@.len() ==> (#[trigger] result.outcomes@[k]).reference@ == candidate_urls(candidates@)[k]
                && declaration_settled(config@, candidates@[k].0@, home@, result.outcomes@[k].status),
        decreases candidates.len() - i,
    {
        let (reference, hook) = (&candidates[i].0, &candidates[i].1);
        let requested = match hook {
            Some(command) => Some(command.as_str()),
            None => None,
        };
        let outcome = clone_reference(
            store, git, hooks, config_path, config, reference, reference.clone_url.as_str(), false, requested, home, reporter,
        );
        if record_clone(&mut result, outcome) {
            return result;
        }
        i += 1;
    }
    result
}

/// Where running a declared hook stands when an outside answer comes in.
pub enum HookStage {
    /// The destination was classified.
    Classified,
    /// The hook ran.
    Ran,
}

/// The decision on one outside answer while running a declared hook: only a matching clone
/// runs it, and its answer gives the status.
pub fn hook_step(stage: &HookStage, answer: &CloneAnswer) -> (r: CloneNext)
    ensures
        *stage is Classified ==> match *answer {
            CloneAnswer::State(LocalState::Cloned) => r is Go,
            CloneAnswer::State(_) => r matches CloneNext::Stop(OperationStatus::Failed(m), c)
                && m@ == "destination is not a matching clone"@ && !c,
            _ => r is Stop,
        },
        *stage is Ran ==> match *answer {
            CloneAnswer::Hook(Ok(()), _) => r == CloneNext::Stop(OperationStatus::Hooked, false),
            CloneAnswer::Hook(Err(e), cancelled) => r matches CloneNext::Stop(OperationStatus::Failed(m), c) && m@ == e@ && c == cancelled,
            _ => r is Stop,
        },
{
    match (stage, answer) {
        (HookStage::Classified, CloneAnswer::State(state)) => match state {
            LocalState::Cloned => CloneNext::Go,
            _ => clone_stop_failed("destination is not a matching clone", false),
        },
        (HookStage::Ran, CloneAnswer::Hook(result, cancelled)) => match result {
            Ok(()) => CloneNext::Stop(OperationStatus::Hooked, false),
            Err(e) => clone_stop_failed(e.as_str(), *cancelled),
        },
        _ => clone_stop_failed("hook answered out of turn", false),
    }
}

/// What running the hook of one named repository comes to, where no outside answer decides it.
pub open spec fn hook_settled(c: ConfigView, input: Seq<char>, home: Seq<char>, status: OperationStatus) -> bool {
    match spec_parse(input) {
        Err(e) => failed_with(status, ref_error_text(e)),
        Ok(v) => if v.wildcard {
            failed_with(status, "wildcard references cannot be hooked directly"@)
        } else if forall|j: int| 0 <= j < c.repositories.len() ==> !declares(#[trigger] c.repositories[j], spec_identity(v)) {
            failed_with(status, "repository is not an explicit declaration"@)
        } else {
            &&& spec_destination(c, v, home) matches Err(e) ==> failed_with(status, e)
            &&& status is Hooked ==> first_declaration_hooked(c, spec_identity(v))
            &&& status is Noop ==> !first_declaration_hooked(c, spec_identity(v))
            &&& !(status is Cloned)
        },
    }
}

/// The first explicit declaration of `id` carries a hook.
pub open spec fn first_declaration_hooked(c: ConfigView, id: Seq<char>) -> bool {
    exists|i: int| 0 <= i < c.repositories.len() && declares(#[trigger] c.repositories[i], id) && c.repositories[i].post_clone is Some
        && forall|j: int| 0 <= j < i ==> !declares(#[trigger] c.repositories[j], id)
}

/// Every outcome of a hook batch is settled against one configuration.
pub open spec fn hooks_settled(c: ConfigView, inputs: Seq<Seq<char>>, home: Seq<char>, outcomes: Seq<RepositoryOutcome>) -> bool {
    forall|i: int| 0 <= i < outcomes.len() ==> hook_settled(c, inputs[i], home, (#[trigger] outcomes[i]).status)
}

pub fn hook_one<G: GitState, H: HookRunner>(git: &G, hooks: &H, config: &Config, input: &str, home: &str) -> (r: (OperationStatus, bool))
    ensures
        hook_settled(config@, input@, home@, r.0),
        r.1 ==> r.0 is Failed,
{
    let reference = match RepositoryRef::parse(input) {
        Ok(reference) => reference,
        Err(error) => return (OperationStatus::Failed(error.message()), false),
    };
    if reference.wildcard {
        return (OperationStatus::Failed(string_of(&chars("wildcard references cannot be hooked directly"))), false);
    }
    let index = match declaration_of(config, &chars(reference.identity().as_str())) {
        Some(index) => index,
        None => return (OperationStatus::Failed(string_of(&chars("repository is not an explicit declaration"))), false),
    };
    let ghost id = spec_identity(reference@);
    assert(config@.repositories[index as int] == config.repositories@[index as int]@);
    let path = match destination(config, &reference, home) {
        Ok(path) => path,
        Err(error) => return (OperationStatus::Failed(error), false),
    };
    let state = CloneAnswer::State(git.classify_destination(path.as_str(), reference.clone_url.as_str()));
    if let CloneNext::Stop(status, cancelled) = hook_step(&HookStage::Classified, &state) {
        return (status, cancelled);
    }
    match &config.repositories[index].post_clone {
        Some(command) => {
            assert(first_declaration_hooked(config@, id));
            let result = hooks.run_hook(command.as_str(), path.as_str());
            let cancelled = match &result {
                Ok(()) => false,
                Err(error) => hooks.is_cancelled(error),
            };
            match hook_step(&HookStage::Ran, &CloneAnswer::Hook(result, cancelled)) {
                CloneNext::Stop(status, cancelled) => (status, cancelled),
                _ => (OperationStatus::Failed(string_of(&chars("hook answered out of turn"))), false),
            }
        },
        None => {
            proof {
                if first_declaration_hooked(config@, id) {
                    let i = choose|i: int| 0 <= i < config@.repositories.len() && declares(#[trigger] config@.repositories[i], id)
                        && config@.repositories[i].post_clone is Some && forall|j: int| 0 <= j < i ==> !declares(#[trigger] config@.repositories[j], id);
                    assert(i == index);
                }
            }
            (OperationStatus::Noop, false)
        },
    }
}

/// Runs the configured hook of each named, explicitly declared checkout; a cancellation
/// stops the batch.
pub fn hook<S: ConfigStore, G: GitState, H: HookRunner>(
    store: &S,
    git: &G,
    hooks: &H,
    config_path: &str,
    references: &Vec<String>,
    home: &str,
) -> (r: Result<BatchOutcome, String>)
    ensures
        !all_safe(references.deep_view()) ==> r is Err,
        r matches Ok(b) ==> {
            &&& batch_follows(b.outcomes@, references.deep_view(), b.cancelled)
            &&& stopped_by_failure(b.outcomes@, b.cancelled)
            &&& b.provider_errors@.len() == 0
            &&& exists|c: ConfigView| #[trigger] hooks_settled(c, references.deep_view(), home@, b.outcomes@)
        },
{
    validate_references(references)?;
    let config = load_config(store, config_path)?;
    let b = hook_config(git, hooks, &config, references, home);
    assert(hooks_settled(config@, references.deep_view(), home@, b.outcomes@));
    Ok(b)
}

/// Runs the hook of each named checkout against a loaded configuration, in order; a
/// cancellation stops the batch.
pub fn hook_config<G: GitState, H: HookRunner>(
    git: &G,
    hooks: &H,
    config: &Config,
    references: &Vec<String>,
    home: &str,
) -> (b: BatchOutcome)
    ensures
        batch_follows(b.outcomes@, references.deep_view(), b.cancelled),
        stopped_by_failure(b.outcomes@, b.cancelled),
        b.provider_errors@.len() == 0,
        hooks_settled(config@, references.deep_view(), home@, b.outcomes@),
{
    let mut result = empty_batch();
    let mut i: usize = 0;
    while i < references.len()
        invariant
            i <= references@.len(),
            result.outcomes@.len() == i,
            !result.cancelled,
            result.provider_errors@.len() == 0,
            forall|j: int| 0 <= j < i ==> (#[trigger] result.outcomes@[j]).reference@ == references.deep_view()[j],
            forall|j: int| 0 <= j < i ==> hook_settled(config@, references.deep_view()[j], home@, (#[trigger] result.outcomes@[j]).status),
        decreases references.len() - i,
    {
        assert(references.deep_view()[i as int] == references@[i as int]@);
        let (status, cancelled) = hook_one(git, hooks, config, references[i].as_str(), home);
        result.outcomes.push(RepositoryOutcome { reference: string_of(&chars(references[i].as_str())), status });
        if cancelled {
            result.cancelled = true;
            assert(hooks_settled(config@, references.deep_view(), home@, result.outcomes@));
            return result;
        }
        i += 1;
    }
    assert(hooks_settled(config@, references.deep_view(), home@, result.outcomes@));
    result
}

// ---------------------------------------------------------------------------
// Listing
// ---------------------------------------------------------------------------

/// A listed checkout of one concrete reference.
pub open spec fn concrete_row_settled(
    c: ConfigView,
    reference: RefView,
    source: Seq<char>,
    archived: bool,
    hook: bool,
    home: Seq<char>,
    row: ListRow,
) -> bool {
    &&& row.identity@ == spec_identity(reference)
    &&& row.clone_url@ == reference.clone_url
    &&& row.source@ == source
    &&& spec_destination(c, reference, home) matches Ok(p) && row.destination matches Some(d) && d@ == p
    &&& row.hook == hook
    &&& row.archived == archived
    &&& row.state is Some
    &&& row.pattern is None
    &&& row.exclusions@.len() == 0
}

fn concrete_row<G: GitState>(
    config: &Config,
    git: &G,
    reference: &RepositoryRef,
    source: &str,
    archived: bool,
    hook: bool,
    home: &str,
) -> (r: Result<ListRow, String>)
    ensures
        match r {
            Ok(row) => concrete_row_settled(config@, reference@, source@, archived, hook, home@, row),
            Err(e) => spec_destination(config@, reference@, home@) == Err::<Seq<char>, Seq<char>>(e@),
        },
{
    let path = destination(config, reference, home)?;
    let state = git.classify_destination(path.as_str(), reference.clone_url.as_str());
    Ok(ListRow {
        identity: reference.identity(),
        clone_url: string_of(&chars(reference.clone_url.as_str())),
        source: string_of(&chars(source)),
        destination: Some(path),
        hook,
        archived,
        state: Some(state),
        pattern: None,
        exclusions: Vec::new(),
    })
}

/// Rows of single repositories name each repository once.
pub open spec fn concrete_rows_distinct(rows: Seq<ListRow>) -> bool {
    forall|a: int, b: int| 0 <= a < b < rows.len() && (#[trigger] rows[a]).pattern is None && (#[trigger] rows[b]).pattern is None
        ==> rows[a].identity@ != rows[b].identity@
}

/// The shape of a listing: single repositories carry a local state, wildcards listed
/// without asking the providers carry their pattern and no state.
pub open spec fn list_settled(remote: bool, rows: Seq<ListRow>) -> bool {
    &&& concrete_rows_distinct(rows)
    &&& forall|k: int| 0 <= k < rows.len() ==> ((#[trigger] rows[k]).pattern is None <==> rows[k].state is Some)
    &&& forall|k: int| 0 <= k < rows.len() ==> (#[trigger] rows[k]).source@ == "explicit"@ || rows[k].source@ == "wildcard"@
    &&& remote ==> forall|k: int| 0 <= k < rows.len() ==> (#[trigger] rows[k]).pattern is None
}

/// A listed row apart from the local state the git port reports.
pub struct RowShape {
    pub identity: Seq<char>,
    pub clone_url: Seq<char>,
    pub source: Seq<char>,
    pub destination: Option<Seq<char>>,
    pub hook: bool,
    pub archived: bool,
    pub pattern: Option<Seq<char>>,
    pub exclusions: Seq<Seq<char>>,
}

pub open spec fn row_shape(row: ListRow) -> RowShape {
    RowShape {
        identity: row.identity@,
        clone_url: row.clone_url@,
        source: row.source@,
        destination: option_view(row.destination),
        hook: row.hook,
        archived: row.archived,
        pattern: option_view(row.pattern),
        exclusions: row.exclusions.deep_view(),
    }
}

pub open spec fn error_view(e: ProviderError) -> (Seq<char>, Seq<char>) {
    (e.provider@, e.error@)
}

/// Some single-repository row names `id`.
pub open spec fn listed_identity(rows: Seq<RowShape>, id: Seq<char>) -> bool {
    exists|k: int| 0 <= k < rows.len() && (#[trigger] rows[k]).pattern is None && rows[k].identity == id
}

/// The listing without the providers, over the first `n` declarations: each readable explicit
/// repository once (its first declaration), each wildcard as its pattern with its exclusions,
/// and an unreadable declaration as an error of `config`; or the first destination that
/// cannot be resolved.
pub open spec fn offline_listing(c: ConfigView, home: Seq<char>, n: int) -> Result<(Seq<RowShape>, Seq<(Seq<char>, Seq<char>)>), Seq<char>>
    decreases n,
{
    if n <= 0 {
        Ok((Seq::empty(), Seq::empty()))
    } else {
        match offline_listing(c, home, n - 1) {
            Err(m) => Err(m),
            Ok((rows, errors)) => {
                let d = c.repositories[n - 1];
                match spec_parse(d.url) {
                    Err(e) => Ok((rows, errors.push(("config"@, ref_error_text(e))))),
                    Ok(v) => if !v.wildcard {
                        if listed_identity(rows, spec_identity(v)) {
                            Ok((rows, errors))
                        } else {
                            match spec_destination(c, v, home) {
                                Err(m) => Err(m),
                                Ok(p) => Ok((rows.push(RowShape {
                                    identity: spec_identity(v),
                                    clone_url: v.clone_url,
                                    source: "explicit"@,
                                    destination: Some(p),
                                    hook: d.post_clone is Some,
                                    archived: false,
                                    pattern: None,
                                    exclusions: Seq::empty(),
                                }), errors)),
                            }
                        }
                    } else {
                        match spec_destination(c, v, home) {
                            Err(m) => Err(m),
                            Ok(p) => Ok((rows.push(RowShape {
                                identity: spec_identity(v) + "/*"@,
                                clone_url: v.clone_url,
                                source: "wildcard"@,
                                destination: Some(p),
                                hook: d.post_clone is Some,
                                archived: false,
                                pattern: Some(d.url),
                                exclusions: d.exclude,
                            }), errors)),
                        }
                    },
                }
            },
        }
    }
}

proof fn lemma_offline_error_stays(c: ConfigView, home: Seq<char>, k: int, n: int)
    requires
        0 <= k <= n,
        offline_listing(c, home, k) is Err,
    ensures
        offline_listing(c, home, n) == offline_listing(c, home, k),
    decreases n - k,
{
    if n > k {
        lemma_offline_error_stays(c, home, k, n - 1);
    }
}

/// `members` are the admitted members of a wildcard's expansion: each from the expansion,
/// in identity order, each identity once, none archived unless kept, excluded, explicitly
/// declared or already seen, and none of the others left out.
pub open spec fn admitted_from(
    members: Seq<RepositorySummary>,
    expanded: Seq<RepositorySummary>,
    pattern_path: Seq<char>,
    exclude: Seq<Seq<char>>,
    keep_archived: bool,
    explicit: Seq<Seq<char>>,
    seen: Seq<Seq<char>>,
) -> bool {
    &&& crate::application::membership::identities_sorted(members)
    &&& forall|k: int| 0 <= k < members.len() ==> expanded.contains(#[trigger] members[k])
    &&& forall|k: int| 0 <= k < members.len() ==> !crate::application::membership::member_dropped(#[trigger] members[k], pattern_path, exclude, keep_archived, explicit)
        && !seen.contains(crate::application::membership::summary_identity(members[k]))
    &&& forall|a: int, b: int| 0 <= a < b < members.len() ==> crate::application::membership::summary_identity(#[trigger] members[a])
        != crate::application::membership::summary_identity(#[trigger] members[b])
    &&& forall|j: int| 0 <= j < expanded.len() && !crate::application::membership::member_dropped(#[trigger] expanded[j], pattern_path, exclude, keep_archived, explicit)
        && !seen.contains(crate::application::membership::summary_identity(expanded[j]))
        ==> crate::application::membership::summary_identities(members).contains(crate::application::membership::summary_identity(expanded[j]))
}

/// What a listing does with a provider's answer for one wildcard: a failure is reported as
/// an error under the wildcard's host and the listing goes on; an expansion naming a
/// reference that must not be acted on stops the listing with its reason; otherwise its
/// admitted members are listed, and join `seen`.
pub fn listed_members(
    host: &str,
    answer: Result<Vec<RepositorySummary>, String>,
    pattern_path: &str,
    exclude: &Vec<String>,
    explicit: &Vec<Vec<char>>,
    include_archived: bool,
    seen: &mut Vec<Vec<char>>,
) -> (r: Result<Result<Vec<RepositorySummary>, ProviderError>, String>)
    ensures
        answer matches Err(e) ==> r matches Ok(Err(p)) && p.provider@ == host@ && p.error@ == e@ && final(seen)@ == old(seen)@,
        answer matches Ok(x) ==> (r is Err <==> !all_safe(summary_urls(x@))),
        answer matches Ok(x) ==> (r matches Ok(Ok(m)) ==> admitted_from(m@, x@, pattern_path@, exclude.deep_view(), include_archived, texts(explicit@), texts(old(seen)@))
            && texts(final(seen)@) == texts(old(seen)@) + crate::application::membership::summary_identities(m@)),
        answer is Ok ==> !(r matches Ok(Err(_))),
{
    match answer {
        Err(error) => Ok(Err(ProviderError { provider: string_of(&chars(host)), error })),
        Ok(expanded) => {
            validate_references(&urls_of_summaries(&expanded))?;
            let ghost x = expanded@;
            let ghost before = texts(seen@);
            assert(before == texts(old(seen)@));
            let members = admit_members(expanded, pattern_path, exclude, explicit, include_archived, seen);
            assert(crate::application::membership::identities_sorted(members@));
            assert(forall|k: int| 0 <= k < members@.len() ==> x.contains(#[trigger] members@[k]));
            assert(forall|a: int, b: int| 0 <= a < b < members@.len() ==> crate::application::membership::summary_identity(#[trigger] members@[a])
                != crate::application::membership::summary_identity(#[trigger] members@[b]));
            assert(admitted_from(members@, x, pattern_path@, exclude.deep_view(), include_archived, texts(explicit@), before));
            assert(texts(seen@) == before + crate::application::membership::summary_identities(members@));
            Ok(Ok(members))
        },
    }
}

proof fn lemma_explicit_in_list(ds: Seq<DeclView>, j: int)
    requires
        0 <= j < ds.len(),
        crate::application::membership::explicit_identity(ds[j]) is Some,
    ensures
        explicit_list(ds).contains(crate::application::membership::explicit_identity(ds[j])->Some_0),
    decreases ds.len(),
{
    let x = crate::application::membership::explicit_identity(ds[j])->Some_0;
    let prev = explicit_list(ds.drop_last());
    if j == ds.len() - 1 {
        assert(explicit_list(ds) == prev.push(x));
        assert(explicit_list(ds)[prev.len() as int] == x);
    } else {
        assert(ds.drop_last()[j] == ds[j]);
        lemma_explicit_in_list(ds.drop_last(), j);
        let m = choose|m: int| 0 <= m < prev.len() && prev[m] == x;
        assert(explicit_list(ds)[m] == x);
    }
}

/// Every readable explicit declaration's repository is listed as explicit.
pub open spec fn explicit_listed(c: ConfigView, rows: Seq<ListRow>, n: int) -> bool {
    forall|j: int| 0 <= j < n ==> (crate::application::membership::explicit_identity(#[trigger] c.repositories[j]) matches Some(x)
        ==> exists|k: int| 0 <= k < rows.len() && (#[trigger] rows[k]).identity@ == x && rows[k].source@ == "explicit"@)
}

/// No repository listed from a wildcard is one that a declaration names explicitly.
pub open spec fn wildcard_rows_implicit(c: ConfigView, rows: Seq<ListRow>) -> bool {
    forall|k: int| 0 <= k < rows.len() && (#[trigger] rows[k]).source@ == "wildcard"@ && rows[k].pattern is None
        ==> !explicit_list(c.repositories).contains(rows[k].identity@)
}

/// Lists the declared repositories with their local state; with `remote`, wildcards are
/// expanded through the providers.
pub fn list<S: ConfigStore, G: GitState, P: ProviderCatalog>(
    store: &S,
    git: &G,
    providers: &P,
    config_path: &str,
    remote: bool,
    include_archived: bool,
    home: &str,
) -> (r: Result<ListReport, String>)
    ensures
        r is Ok ==> !(include_archived && !remote),
        r matches Ok(report) ==> report.schema_version == 1 && list_settled(remote, report.repositories@),
{
    let config = load_config(store, config_path)?;
    list_config(&config, git, providers, remote, include_archived, home)
}

/// The listing of a loaded configuration. Without `remote` no provider is asked: the rows
/// and errors are `offline_listing`'s, each single repository with the state the git port
/// gave, and it fails only where a destination cannot be resolved. With `remote`, each
/// wildcard's admitted members are listed, and a provider that cannot expand one is reported
/// among the errors.
#[verifier::spinoff_prover]
#[verifier::rlimit(100)]
pub fn list_config<G: GitState, P: ProviderCatalog>(
    config: &Config,
    git: &G,
    providers: &P,
    remote: bool,
    include_archived: bool,
    home: &str,
) -> (r: Result<ListReport, String>)
    ensures
        include_archived && !remote ==> (r matches Err(m) && m@ == "--include-archived requires --remote"@),
        r matches Ok(report) ==> report.schema_version == 1 && list_settled(remote, report.repositories@),
        r matches Ok(report) ==> explicit_listed(config@, report.repositories@, config@.repositories.len() as int)
            && wildcard_rows_implicit(config@, report.repositories@),
        !remote && !include_archived ==> match offline_listing(config@, home@, config@.repositories.len() as int) {
            Ok((rows, errors)) => r matches Ok(report) && report.repositories@.map_values(|x: ListRow| row_shape(x)) == rows
                && report.provider_errors@.map_values(|e: ProviderError| error_view(e)) == errors,
            Err(m) => r matches Err(x) && x@ == m,
        },
{
    if include_archived && !remote {
        return Err(string_of(&chars("--include-archived requires --remote")));
    }
    let explicit = explicit_identities(&config);
    let mut seen: Vec<Vec<char>> = Vec::new();
    let mut rows: Vec<ListRow> = Vec::new();
    let mut provider_errors: Vec<ProviderError> = Vec::new();
    let mut i: usize = 0;
    assert(rows@.map_values(|x: ListRow| row_shape(x)) =~= Seq::<RowShape>::empty());
    assert(provider_errors@.map_values(|e: ProviderError| error_view(e)) =~= Seq::<(Seq<char>, Seq<char>)>::empty());
    while i < config.repositories.len()
        invariant
            i <= config.repositories@.len(),
            !(include_archived && !remote),
            list_settled(remote, rows@),
            forall|k: int| 0 <= k < rows@.len() && (#[trigger] rows@[k]).pattern is None ==> texts(seen@).contains(rows@[k].identity@),
            !remote ==> offline_listing(config@, home@, i as int) == Ok::<(Seq<RowShape>, Seq<(Seq<char>, Seq<char>)>), Seq<char>>(
                (rows@.map_values(|x: ListRow| row_shape(x)), provider_errors@.map_values(|e: ProviderError| error_view(e))),
            ),
            !remote ==> forall|x: Seq<char>| #[trigger] texts(seen@).contains(x) ==> listed_identity(rows@.map_values(|x: ListRow| row_shape(x)), x),
            texts(explicit@) == explicit_list(config@.repositories),
            wildcard_rows_implicit(config@, rows@),
            forall|j: int| 0 <= j < i ==> (crate::application::membership::explicit_identity(#[trigger] config@.repositories[j]) matches Some(x) ==> texts(seen@).contains(x)),
            forall|x: Seq<char>| #[trigger] texts(seen@).contains(x) && explicit_list(config@.repositories).contains(x)
                ==> exists|k: int| 0 <= k < rows@.len() && (#[trigger] rows@[k]).identity@ == x && rows@[k].source@ == "explicit"@,
        decreases config.repositories.len() - i,
    {
        let declaration = &config.repositories[i];
        let ghost shapes = rows@.map_values(|x: ListRow| row_shape(x));
        let ghost errs = provider_errors@.map_values(|e: ProviderError| error_view(e));
        let ghost d = declaration@;
        assert(config@.repositories[i as int] == d);
        i += 1;
        let reference = match RepositoryRef::parse(declaration.url.as_str()) {
            Ok(reference) => reference,
            Err(error) => {
                let ghost before_errors = provider_errors@;
                provider_errors.push(ProviderError { provider: string_of(&chars("config")), error: error.message() });
                assert(provider_errors@.map_values(|e: ProviderError| error_view(e)) =~= errs.push(("config"@, ref_error_text(error@))));
                assert(crate::application::membership::explicit_identity(config@.repositories[i - 1]) is None);
                continue;
            },
        };
        if !reference.wildcard {
            let id = chars(reference.identity().as_str());
            let ghost seen_before = texts(seen@);
            assert(crate::application::membership::explicit_identity(config@.repositories[i - 1]) == Some(id@));
            if !insert_new(&mut seen, &id) {
                continue;
            }
            proof {
                if listed_identity(shapes, id@) {
                    let k = choose|k: int| 0 <= k < shapes.len() && (#[trigger] shapes[k]).pattern is None && shapes[k].identity == id@;
                    assert(rows@[k].pattern is None);
                    assert(seen_before.contains(rows@[k].identity@));
                }
            }
            let row = match concrete_row(&config, git, &reference, "explicit", false, declaration.post_clone.is_some(), home) {
                Ok(row) => row,
                Err(error) => {
                    proof {
                        if !remote {
                            lemma_offline_error_stays(config@, home@, i as int, config@.repositories.len() as int);
                        }
                    }
                    return Err(error);
                },
            };
            let ghost rows_before = rows@;
            rows.push(row);
            proof {
                reveal_strlit("explicit");
                reveal_strlit("wildcard");
                assert(rows@[rows_before.len() as int].source@ == "explicit"@);
                assert("explicit"@[0] != "wildcard"@[0]);
                assert(rows@[rows_before.len() as int].source@ != "wildcard"@);
                assert forall|j: int| 0 <= j < i implies (crate::application::membership::explicit_identity(#[trigger] config@.repositories[j])
                    matches Some(x) ==> texts(seen@).contains(x)) by {
                    if let Some(x) = crate::application::membership::explicit_identity(config@.repositories[j]) {
                        if j < i - 1 {
                            let m = choose|m: int| 0 <= m < seen_before.len() && seen_before[m] == x;
                            assert(texts(seen@)[m] == x);
                        } else {
                            assert(texts(seen@)[seen_before.len() as int] == x);
                        }
                    }
                }
                assert forall|k: int| 0 <= k < rows@.len() && (#[trigger] rows@[k]).source@ == "wildcard"@ && rows@[k].pattern is None
                    implies !explicit_list(config@.repositories).contains(rows@[k].identity@) by {
                    assert(k < rows_before.len());
                    assert(rows@[k] == rows_before[k]);
                }
                assert forall|x: Seq<char>| #[trigger] texts(seen@).contains(x) && explicit_list(config@.repositories).contains(x)
                    implies exists|k: int| 0 <= k < rows@.len() && (#[trigger] rows@[k]).identity@ == x && rows@[k].source@ == "explicit"@ by {
                    if x == id@ {
                        assert(rows@[rows_before.len() as int].identity@ == x);
                    } else {
                        assert(seen_before.contains(x));
                        let k = choose|k: int| 0 <= k < rows_before.len() && (#[trigger] rows_before[k]).identity@ == x && rows_before[k].source@ == "explicit"@;
                        assert(rows@[k] == rows_before[k]);
                    }
                }
                assert(row.exclusions.deep_view() =~= Seq::<Seq<char>>::empty());
                assert(declaration.post_clone.is_some() == (d.post_clone is Some));
                assert(rows@.map_values(|x: ListRow| row_shape(x)) =~= shapes.push(row_shape(row)));
                if !remote {
                    assert forall|x: Seq<char>| #[trigger] texts(seen@).contains(x) implies listed_identity(rows@.map_values(|x: ListRow| row_shape(x)), x) by {
                        let sh = rows@.map_values(|x: ListRow| row_shape(x));
                        if x == id@ {
                            assert(sh[rows_before.len() as int].pattern is None);
                        } else {
                            assert(seen_before.contains(x));
                            let k = choose|k: int| 0 <= k < shapes.len() && (#[trigger] shapes[k]).pattern is None && shapes[k].identity == x;
                            assert(sh[k] == shapes[k]);
                        }
                    }
                }
                assert(texts(seen@)[seen_before.len() as int] == id@);
                assert forall|k: int| 0 <= k < rows@.len() && (#[trigger] rows@[k]).pattern is None implies texts(seen@).contains(rows@[k].identity@) by {
                    if k < rows_before.len() {
                        let m = choose|m: int| 0 <= m < seen_before.len() && seen_before[m] == rows@[k].identity@;
                        assert(texts(seen@)[m] == rows@[k].identity@);
                    }
                }
                assert forall|a: int, b: int| 0 <= a < b < rows@.len() && (#[trigger] rows@[a]).pattern is None && (#[trigger] rows@[b]).pattern is None
                    implies rows@[a].identity@ != rows@[b].identity@ by {
                    if b == rows_before.len() {
                        assert(seen_before.contains(rows@[a].identity@));
                    }
                }
            }
            continue;
        }
        if !remote {
            let identity = string_of(&concat(&chars(reference.identity().as_str()), &chars("/*")));
            let path = match destination(&config, &reference, home) {
                Ok(path) => path,
                Err(error) => {
                    proof {
                        lemma_offline_error_stays(config@, home@, i as int, config@.repositories.len() as int);
                    }
                    return Err(error);
                },
            };
            let row = ListRow {
                identity,
                clone_url: string_of(&chars(reference.clone_url.as_str())),
                source: string_of(&chars("wildcard")),
                destination: Some(path),
                hook: declaration.post_clone.is_some(),
                archived: false,
                state: None,
                pattern: Some(string_of(&chars(declaration.url.as_str()))),
                exclusions: copy_strings(&declaration.exclude),
            };
            let ghost rows_before = rows@;
            rows.push(row);
            proof {
                assert(crate::application::membership::explicit_identity(config@.repositories[i - 1]) is None);
                assert forall|k: int| 0 <= k < rows@.len() && (#[trigger] rows@[k]).source@ == "wildcard"@ && rows@[k].pattern is None
                    implies !explicit_list(config@.repositories).contains(rows@[k].identity@) by {
                    assert(k < rows_before.len());
                    assert(rows@[k] == rows_before[k]);
                }
                assert forall|x: Seq<char>| #[trigger] texts(seen@).contains(x) && explicit_list(config@.repositories).contains(x)
                    implies exists|k: int| 0 <= k < rows@.len() && (#[trigger] rows@[k]).identity@ == x && rows@[k].source@ == "explicit"@ by {
                    let k = choose|k: int| 0 <= k < rows_before.len() && (#[trigger] rows_before[k]).identity@ == x && rows_before[k].source@ == "explicit"@;
                    assert(rows@[k] == rows_before[k]);
                }
                assert(declaration.post_clone.is_some() == (d.post_clone is Some));
                assert(rows@.map_values(|x: ListRow| row_shape(x)) =~= shapes.push(row_shape(row)));
                assert forall|x: Seq<char>| #[trigger] texts(seen@).contains(x) implies listed_identity(rows@.map_values(|x: ListRow| row_shape(x)), x) by {
                    let k = choose|k: int| 0 <= k < shapes.len() && (#[trigger] shapes[k]).pattern is None && shapes[k].identity == x;
                    assert(rows@.map_values(|x: ListRow| row_shape(x))[k] == shapes[k]);
                }
                assert forall|k: int| 0 <= k < rows@.len() && (#[trigger] rows@[k]).pattern is None implies texts(seen@).contains(rows@[k].identity@) by {
                    assert(k < rows_before.len());
                    assert(rows@[k] == rows_before[k]);
                }
                assert forall|a: int, b: int| 0 <= a < b < rows@.len() && (#[trigger] rows@[a]).pattern is None && (#[trigger] rows@[b]).pattern is None
                    implies rows@[a].identity@ != rows@[b].identity@ by {
                    assert(b < rows_before.len());
                    assert(rows@[a] == rows_before[a] && rows@[b] == rows_before[b]);
                }
            }
            continue;
        }
        let answer = providers.expand(&reference, include_archived);
        let ghost seen_before = texts(seen@);
        assert(crate::application::membership::explicit_identity(config@.repositories[i - 1]) is None);
        let members = match listed_members(
            reference.host.as_str(), answer, reference.path.as_str(), &declaration.exclude, &explicit, include_archived, &mut seen,
        )? {
            Ok(members) => members,
            Err(error) => {
                provider_errors.push(error);
                continue;
            },
        };
        let ghost admitted = members@;
        let ghost ids = crate::application::membership::summary_identities(admitted);
        let ghost rows_before = rows@;
        assert forall|k: int| 0 <= k < ids.len() implies !explicit_list(config@.repositories).contains(#[trigger] ids[k]) by {
            assert(!crate::application::membership::member_dropped(admitted[k], reference.path@, declaration.exclude.deep_view(), include_archived, texts(explicit@)));
        }
        let hook = declaration.post_clone.is_some();
        let mut rest = members;
        while rest.len() > 0
            invariant
                remote,
                rows@.len() - rows_before.len() + rest@.len() == admitted.len(),
                rows@.len() >= rows_before.len(),
                rest@ == admitted.subrange(rows@.len() - rows_before.len(), admitted.len() as int),
                list_settled(remote, rows_before),
                forall|k: int| 0 <= k < rows_before.len() && (#[trigger] rows_before[k]).pattern is None ==> seen_before.contains(rows_before[k].identity@),
                forall|k: int| 0 <= k < rows_before.len() ==> #[trigger] rows@[k] == rows_before[k],
                forall|k: int| rows_before.len() <= k < rows@.len() ==> (#[trigger] rows@[k]).pattern is None && rows@[k].state is Some
                    && rows@[k].identity@ == ids[k - rows_before.len()] && rows@[k].source@ == "wildcard"@,
                texts(seen@) == seen_before + ids,
                forall|a: int, b: int| 0 <= a < b < admitted.len() ==> crate::application::membership::summary_identity(#[trigger] admitted[a])
                    != crate::application::membership::summary_identity(#[trigger] admitted[b]),
                forall|k: int| 0 <= k < admitted.len() ==> !seen_before.contains(crate::application::membership::summary_identity(#[trigger] admitted[k])),
                ids == crate::application::membership::summary_identities(admitted),
                wildcard_rows_implicit(config@, rows_before),
                forall|k: int| 0 <= k < ids.len() ==> !explicit_list(config@.repositories).contains(#[trigger] ids[k]),
                forall|k: int| rows_before.len() <= k < rows@.len() ==> (#[trigger] rows@[k]).source@ == "wildcard"@
                    && !explicit_list(config@.repositories).contains(rows@[k].identity@),
            decreases rest@.len(),
        {
            let summary = rest.remove(0);
            let ghost n = rows@.len() - rows_before.len();
            assert(admitted[n] == summary);
            let row = concrete_row(&config, git, &summary.reference, "wildcard", summary.archived, hook, home)?;
            let ghost pushed_from = rows@.len();
            rows.push(row);
            proof {
                assert(!explicit_list(config@.repositories).contains(ids[n]));
                assert(rows@[pushed_from as int] == row);
            }
        }
        proof {
            assert forall|k: int| 0 <= k < rows@.len() && (#[trigger] rows@[k]).source@ == "wildcard"@ && rows@[k].pattern is None
                implies !explicit_list(config@.repositories).contains(rows@[k].identity@) by {
                if k < rows_before.len() {
                    assert(rows@[k] == rows_before[k]);
                }
            }
            assert forall|j: int| 0 <= j < i implies (crate::application::membership::explicit_identity(#[trigger] config@.repositories[j])
                matches Some(x) ==> texts(seen@).contains(x)) by {
                if let Some(x) = crate::application::membership::explicit_identity(config@.repositories[j]) {
                    let m = choose|m: int| 0 <= m < seen_before.len() && seen_before[m] == x;
                    assert(texts(seen@)[m] == x);
                }
            }
            assert forall|x: Seq<char>| #[trigger] texts(seen@).contains(x) && explicit_list(config@.repositories).contains(x)
                implies exists|k: int| 0 <= k < rows@.len() && (#[trigger] rows@[k]).identity@ == x && rows@[k].source@ == "explicit"@ by {
                let m = choose|m: int| 0 <= m < texts(seen@).len() && texts(seen@)[m] == x;
                if m >= seen_before.len() {
                    assert(ids[m - seen_before.len()] == x);
                    assert(false);
                }
                assert(seen_before.contains(x));
                let k = choose|k: int| 0 <= k < rows_before.len() && (#[trigger] rows_before[k]).identity@ == x && rows_before[k].source@ == "explicit"@;
                assert(rows@[k] == rows_before[k]);
            }
            assert forall|k: int| 0 <= k < rows@.len() && (#[trigger] rows@[k]).pattern is None implies texts(seen@).contains(rows@[k].identity@) by {
                if k < rows_before.len() {
                    let m = choose|m: int| 0 <= m < seen_before.len() && seen_before[m] == rows@[k].identity@;
                    assert(texts(seen@)[m] == rows@[k].identity@);
                } else {
                    assert(texts(seen@)[seen_before.len() + k - rows_before.len()] == rows@[k].identity@);
                }
            }
            assert forall|a: int, b: int| 0 <= a < b < rows@.len() && (#[trigger] rows@[a]).pattern is None && (#[trigger] rows@[b]).pattern is None
                implies rows@[a].identity@ != rows@[b].identity@ by {
                if b >= rows_before.len() {
                    let bb = b - rows_before.len();
                    assert(ids[bb] == crate::application::membership::summary_identity(admitted[bb]));
                    if a >= rows_before.len() {
                        let aa = a - rows_before.len();
                        assert(ids[aa] == crate::application::membership::summary_identity(admitted[aa]));
                    } else {
                        assert(seen_before.contains(rows@[a].identity@));
                    }
                }
            }
        }
    }
    proof {
        assert forall|j: int| 0 <= j < config@.repositories.len() implies (crate::application::membership::explicit_identity(
            #[trigger] config@.repositories[j]) matches Some(x) ==> exists|k: int| 0 <= k < rows@.len() && (#[trigger] rows@[k]).identity@ == x
            && rows@[k].source@ == "explicit"@) by {
            if let Some(x) = crate::application::membership::explicit_identity(config@.repositories[j]) {
                lemma_explicit_in_list(config@.repositories, j);
                assert(texts(seen@).contains(x));
            }
        }
    }
    Ok(ListReport { schema_version: 1, repositories: rows, provider_errors })
}

// ---------------------------------------------------------------------------
// Picker candidates
// ---------------------------------------------------------------------------

/// How a candidate is shown in the picker.
pub open spec fn candidate_display(identity: Seq<char>, archived: bool) -> Seq<char> {
    if archived {
        identity + " [archived]"@
    } else {
        identity
    }
}

/// The shape of the picker's candidates: each repository once, shown by its identity,
/// archived only when asked for, and never pinned to a discovered path.
pub open spec fn picker_settled(cands: Seq<SelectionCandidate>, include_archived: bool) -> bool {
    &&& forall|a: int, b: int| 0 <= a < b < cands.len() ==> spec_identity((#[trigger] cands[a]).reference@) != spec_identity((#[trigger] cands[b]).reference@)
    &&& forall|k: int| 0 <= k < cands.len() ==> (#[trigger] cands[k]).display@ == candidate_display(spec_identity(cands[k].reference@), cands[k].archived)
        && cands[k].exact_path is None && (cands[k].archived ==> include_archived)
}

fn provider_error_of(failure: crate::application::ports::ProviderFailure) -> (r: ProviderError)
    ensures
        r.provider == failure.provider && r.error == failure.error,
{
    ProviderError { provider: failure.provider, error: failure.error }
}

/// Each text once, at its first place.
pub open spec fn first_occurrences(s: Seq<Seq<char>>) -> Seq<Seq<char>>
    decreases s.len(),
{
    if s.len() == 0 {
        Seq::empty()
    } else {
        let prev = first_occurrences(s.drop_last());
        if prev.contains(s.last()) {
            prev
        } else {
            prev.push(s.last())
        }
    }
}

/// The identities of the offered candidates, in order.
pub open spec fn offered_ids(cands: Seq<SelectionCandidate>) -> Seq<Seq<char>> {
    cands.map_values(|c: SelectionCandidate| spec_identity(c.reference@))
}

/// The identities of the summaries, in order.
pub open spec fn summary_ids(v: Seq<RepositorySummary>) -> Seq<Seq<char>> {
    v.map_values(|s: RepositorySummary| spec_identity(s.reference@))
}

/// The repositories that the declarations name explicitly, in declaration order.
pub open spec fn explicit_refs(ds: Seq<DeclView>) -> Seq<RefView>
    decreases ds.len(),
{
    if ds.len() == 0 {
        Seq::empty()
    } else {
        let prev = explicit_refs(ds.drop_last());
        match spec_parse(ds.last().url) {
            Ok(v) => if v.wildcard {
                prev
            } else {
                prev.push(v)
            },
            Err(_) => prev,
        }
    }
}

pub open spec fn ref_ids(v: Seq<RefView>) -> Seq<Seq<char>> {
    v.map_values(|r: RefView| spec_identity(r))
}

pub open spec fn ref_urls(v: Seq<RefView>) -> Seq<Seq<char>> {
    v.map_values(|r: RefView| r.clone_url)
}

pub open spec fn summary_refs(v: Seq<RepositorySummary>) -> Seq<RefView> {
    v.map_values(|s: RepositorySummary| s.reference@)
}

/// A member of a wildcard's expansion that the picker keeps: archived only when asked for,
/// and not excluded by the wildcard.
pub open spec fn picker_kept(s: RepositorySummary, exclude: Seq<Seq<char>>, pattern_path: Seq<char>, include_archived: bool) -> bool {
    !(s.archived && !include_archived) && !crate::application::membership::member_excluded(exclude, pattern_path, s.reference@.path)
}

/// The members of an expansion that the picker keeps, in order.
pub open spec fn kept_members(x: Seq<RepositorySummary>, exclude: Seq<Seq<char>>, pattern_path: Seq<char>, include_archived: bool) -> Seq<RepositorySummary>
    decreases x.len(),
{
    if x.len() == 0 {
        Seq::empty()
    } else {
        let prev = kept_members(x.drop_last(), exclude, pattern_path, include_archived);
        if picker_kept(x.last(), exclude, pattern_path, include_archived) {
            prev.push(x.last())
        } else {
            prev
        }
    }
}

/// What the picker does with a provider's answer for one wildcard: a failure is reported
/// under the wildcard's host and changes nothing; otherwise the kept members are offered for
/// `Unregister`, and for the other contexts their identities join the effective ones.
pub fn picker_expansion(
    context: PickerContext,
    host: &str,
    answer: Result<Vec<RepositorySummary>, String>,
    exclude: &Vec<String>,
    pattern_path: &str,
    include_archived: bool,
    summaries: &mut Vec<RepositorySummary>,
    effective: &mut Vec<Vec<char>>,
) -> (r: Option<ProviderError>)
    ensures
        answer matches Err(e) ==> r matches Some(p) && p.provider@ == host@ && p.error@ == e@ && final(summaries)@ == old(summaries)@
            && final(effective)@ == old(effective)@,
        answer matches Ok(x) ==> r is None && (context is Unregister ==> final(summaries)@
            == old(summaries)@ + kept_members(x@, exclude.deep_view(), pattern_path@, include_archived) && final(effective)@ == old(effective)@),
        answer matches Ok(x) ==> (!(context is Unregister) ==> final(summaries)@ == old(summaries)@ && forall|id: Seq<char>|
            #[trigger] texts(final(effective)@).contains(id) <==> (texts(old(effective)@).contains(id)
            || crate::application::membership::summary_identities(kept_members(x@, exclude.deep_view(), pattern_path@, include_archived)).contains(id))),
{
    match answer {
        Err(error) => Some(ProviderError { provider: string_of(&chars(host)), error }),
        Ok(expanded) => {
            let ghost x = expanded@;
            let ghost excl = exclude.deep_view();
            let ghost start_summaries = summaries@;
            let ghost start_effective = texts(effective@);
            let ghost start_raw = effective@;
            let mut rest = expanded;
            let ghost mut done: int = 0;
            assert(x.subrange(0, 0) =~= Seq::<RepositorySummary>::empty());
            assert(summaries@ =~= start_summaries + kept_members(x.subrange(0, 0), excl, pattern_path@, include_archived));
            while rest.len() > 0
                invariant
                    0 <= done <= x.len(),
                    rest@ == x.subrange(done, x.len() as int),
                    excl == exclude.deep_view(),
                    context is Unregister ==> summaries@ == start_summaries + kept_members(x.subrange(0, done), excl, pattern_path@, include_archived)
                        && effective@ == start_raw,
                    !(context is Unregister) ==> summaries@ == start_summaries && forall|id: Seq<char>| #[trigger] texts(effective@).contains(id)
                        <==> (start_effective.contains(id) || crate::application::membership::summary_identities(
                            kept_members(x.subrange(0, done), excl, pattern_path@, include_archived)).contains(id)),
                decreases rest@.len(),
            {
                let summary = rest.remove(0);
                let ghost kept_before = kept_members(x.subrange(0, done), excl, pattern_path@, include_archived);
                proof {
                    assert(summary == x[done]);
                    assert(x.subrange(0, done + 1).drop_last() =~= x.subrange(0, done));
                    assert(x.subrange(0, done + 1).last() == summary);
                    done = done + 1;
                    assert(rest@ =~= x.subrange(done, x.len() as int));
                }
                let kept = !(summary.archived && !include_archived)
                    && !crate::application::membership::is_excluded(exclude, pattern_path, summary.reference.path.as_str());
                if kept {
                    match context {
                        PickerContext::Unregister => {
                            let ghost before = summaries@;
                            summaries.push(summary);
                            assert(summaries@ =~= start_summaries + kept_before.push(summary));
                        },
                        _ => {
                            let id = chars(summary.reference.identity().as_str());
                            let ghost before = texts(effective@);
                            insert_new(effective, &id);
                            proof {
                                let ids_before = crate::application::membership::summary_identities(kept_before);
                                let ids_after = crate::application::membership::summary_identities(kept_before.push(summary));
                                assert(ids_after =~= ids_before.push(id@));
                                assert forall|k: Seq<char>| #[trigger] texts(effective@).contains(k) <==> (start_effective.contains(k)
                                    || ids_after.contains(k)) by {
                                    if texts(effective@).contains(k) && !before.contains(k) {
                                        assert(k == id@);
                                        assert(ids_after[ids_before.len() as int] == id@);
                                    }
                                    if ids_after.contains(k) && !ids_before.contains(k) {
                                        let q = choose|q: int| 0 <= q < ids_after.len() && ids_after[q] == k;
                                        assert(q == ids_before.len());
                                        assert(before.contains(id@) ==> texts(effective@).contains(id@));
                                        if !before.contains(id@) {
                                            assert(texts(effective@)[before.len() as int] == id@);
                                        }
                                    }
                                    if before.contains(k) {
                                        let q = choose|q: int| 0 <= q < before.len() && before[q] == k;
                                        assert(texts(effective@)[q] == k);
                                    }
                                    if ids_before.contains(k) {
                                        let q = choose|q: int| 0 <= q < ids_before.len() && ids_before[q] == k;
                                        assert(ids_after[q] == k);
                                    }
                                }
                            }
                        },
                    }
                }
            }
            proof {
                assert(x.subrange(0, done) =~= x);
            }
            None
        },
    }
}

/// Collects what the picker offers in the given context.
pub fn picker_candidates<S: ConfigStore, G: GitState, P: ProviderCatalog>(
    store: &S,
    git: &G,
    providers: &P,
    config_path: &str,
    context: PickerContext,
    include_archived: bool,
    home: &str,
) -> (r: Result<CandidateReport, String>)
    ensures
        r matches Ok(report) ==> picker_settled(report.candidates@, include_archived),
{
    let config = load_config(store, config_path)?;
    picker_config(&config, git, providers, context, include_archived, home)
}

/// What the picker offers from a loaded configuration. For `Hook` no provider is asked: the
/// candidates are the explicit declarations, each repository once, in declaration order. For
/// `Register` no explicitly declared repository is offered.
pub fn picker_config<G: GitState, P: ProviderCatalog>(
    config: &Config,
    git: &G,
    providers: &P,
    context: PickerContext,
    include_archived: bool,
    home: &str,
) -> (r: Result<CandidateReport, String>)
    ensures
        r matches Ok(report) ==> picker_settled(report.candidates@, include_archived),
        context is Hook ==> (r is Ok <==> all_safe(ref_urls(explicit_refs(config@.repositories)))),
        context is Hook ==> (r matches Ok(report) ==> report.provider_errors@.len() == 0
            && offered_ids(report.candidates@) == first_occurrences(ref_ids(explicit_refs(config@.repositories)))
            && forall|k: int| 0 <= k < report.candidates@.len() ==> !(#[trigger] report.candidates@[k]).archived),
        context == PickerContext::Register ==> (r matches Ok(report) ==> forall|k: int| 0 <= k < report.candidates@.len()
            ==> !explicit_list(config@.repositories).contains(spec_identity((#[trigger] report.candidates@[k]).reference@))),
{
    let ghost decls = config@.repositories;
    let mut provider_errors: Vec<ProviderError> = Vec::new();
    let explicit = explicit_identities(&config);
    let mut effective = explicit;
    let mut summaries: Vec<RepositorySummary> = Vec::new();
    let local_only = match context {
        PickerContext::Unregister | PickerContext::Hook => true,
        _ => false,
    };
    if !local_only {
        let (catalog, failures) = providers.catalog_with_failures(include_archived);
        summaries = catalog;
        let mut rest = failures;
        while rest.len() > 0
            decreases rest@.len(),
        {
            let failure = rest.remove(0);
            provider_errors.push(provider_error_of(failure));
        }
    }
    assert(decls.subrange(0, 0) =~= Seq::<DeclView>::empty());
    proof {
        if context is Hook {
            assert(summary_refs(summaries@) =~= Seq::<RefView>::empty());
        }
    }
    let mut i: usize = 0;
    while i < config.repositories.len()
        invariant
            i <= config.repositories@.len(),
            decls == config@.repositories,
            decls.len() == config.repositories@.len(),
            local_only == (context is Unregister || context is Hook),
            context is Hook ==> summary_refs(summaries@) == explicit_refs(decls.subrange(0, i as int))
                && provider_errors@.len() == 0
                && forall|k: int| 0 <= k < summaries@.len() ==> !(#[trigger] summaries@[k]).archived,
            forall|x: Seq<char>| #[trigger] explicit_list(decls).contains(x) ==> texts(effective@).contains(x),
        decreases config.repositories.len() - i,
    {
        assert(decls[i as int] == config.repositories@[i as int]@);
        assert(decls.subrange(0, i + 1).drop_last() =~= decls.subrange(0, i as int));
        assert(decls.subrange(0, i + 1).last() == decls[i as int]);
        let declaration = &config.repositories[i];
        i += 1;
        let pattern = match RepositoryRef::parse(declaration.url.as_str()) {
            Ok(pattern) => pattern,
            Err(_) => continue,
        };
        if !pattern.wildcard {
            if local_only {
                let ghost before = summaries@;
                summaries.push(RepositorySummary { reference: pattern, archived: false });
                assert(summary_refs(summaries@) =~= summary_refs(before).push(pattern@));
            }
            continue;
        }
        match context {
            PickerContext::Hook => continue,
            _ => {},
        }
        let answer = providers.expand(&pattern, include_archived);
        let ghost eff_before = texts(effective@);
        let failure = picker_expansion(
            context, pattern.host.as_str(), answer, &declaration.exclude, pattern.path.as_str(), include_archived, &mut summaries,
            &mut effective,
        );
        if let Some(error) = failure {
            provider_errors.push(error);
        }
        assert forall|x: Seq<char>| #[trigger] explicit_list(decls).contains(x) implies texts(effective@).contains(x) by {
            assert(eff_before.contains(x));
        }
    }
    assert(decls.subrange(0, decls.len() as int) =~= decls);
    let ghost all = summaries@;
    assert(summary_urls(all) =~= ref_urls(summary_refs(all)));
    assert(summary_ids(all) =~= ref_ids(summary_refs(all)));
    validate_references(&urls_of_summaries(&summaries))?;
    let mut seen: Vec<Vec<char>> = Vec::new();
    let mut candidates: Vec<SelectionCandidate> = Vec::new();
    let mut rest = summaries;
    let ghost mut done: int = 0;
    assert(summary_ids(all).subrange(0, 0) =~= Seq::<Seq<char>>::empty());
    assert(offered_ids(candidates@) =~= Seq::<Seq<char>>::empty());
    assert(texts(seen@) =~= Seq::<Seq<char>>::empty());
    while rest.len() > 0
        invariant
            0 <= done <= all.len(),
            rest@ == all.subrange(done, all.len() as int),
            picker_settled(candidates@, include_archived),
            forall|k: int| 0 <= k < candidates@.len() ==> texts(seen@).contains(spec_identity((#[trigger] candidates@[k]).reference@)),
            context is Hook ==> offered_ids(candidates@) == first_occurrences(summary_ids(all).subrange(0, done))
                && texts(seen@) == offered_ids(candidates@)
                && (forall|k: int| 0 <= k < all.len() ==> !(#[trigger] all[k]).archived)
                && (forall|k: int| 0 <= k < candidates@.len() ==> !(#[trigger] candidates@[k]).archived),
            context is Register ==> forall|k: int| 0 <= k < candidates@.len()
                ==> !explicit_list(decls).contains(spec_identity((#[trigger] candidates@[k]).reference@)),
            forall|x: Seq<char>| #[trigger] explicit_list(decls).contains(x) ==> texts(effective@).contains(x),
        decreases rest@.len(),
    {
        let summary = rest.remove(0);
        proof {
            assert(summary == all[done]);
            assert(summary_ids(all).subrange(0, done + 1).drop_last() =~= summary_ids(all).subrange(0, done));
            assert(summary_ids(all).subrange(0, done + 1).last() == spec_identity(summary.reference@));
            done = done + 1;
            assert(rest@ =~= all.subrange(done, all.len() as int));
        }
        if summary.archived && !include_archived {
            continue;
        }
        let identity = chars(summary.reference.identity().as_str());
        let offered = match context {
            PickerContext::Register => !contains_text(&effective, &identity),
            PickerContext::Add => {
                let path = destination(&config, &summary.reference, home)?;
                match git.classify_destination(path.as_str(), summary.reference.clone_url.as_str()) {
                    LocalState::Cloned => false,
                    _ => true,
                }
            },
            PickerContext::Unregister | PickerContext::Hook => true,
        };
        proof {
            if context is Register && offered {
                assert(effective@.map_values(|v: Vec<char>| v@) =~= texts(effective@));
                assert(!explicit_list(decls).contains(identity@));
            }
        }
        if !offered {
            continue;
        }
        let ghost seen_before = texts(seen@);
        if insert_new(&mut seen, &identity) {
            let display = if summary.archived {
                string_of(&concat(&identity, &chars(" [archived]")))
            } else {
                string_of(&identity)
            };
            let ghost cands_before = candidates@;
            candidates.push(SelectionCandidate { reference: summary.reference, display, archived: summary.archived, exact_path: None });
            proof {
                assert(texts(seen@)[seen_before.len() as int] == identity@);
                assert forall|k: int| 0 <= k < candidates@.len() implies texts(seen@).contains(spec_identity((#[trigger] candidates@[k]).reference@)) by {
                    if k < cands_before.len() {
                        let m = choose|m: int| 0 <= m < seen_before.len() && seen_before[m] == spec_identity(candidates@[k].reference@);
                        assert(texts(seen@)[m] == spec_identity(candidates@[k].reference@));
                    }
                }
                assert forall|a: int, b: int| 0 <= a < b < candidates@.len() implies spec_identity((#[trigger] candidates@[a]).reference@)
                    != spec_identity((#[trigger] candidates@[b]).reference@) by {
                    if b == cands_before.len() {
                        assert(seen_before.contains(spec_identity(candidates@[a].reference@)));
                    }
                }
                assert(offered_ids(candidates@) =~= offered_ids(cands_before).push(identity@));
            }
        }
    }
    proof {
        assert(done == all.len());
        assert(summary_ids(all).subrange(0, done) =~= summary_ids(all));
    }
    Ok(CandidateReport { candidates, provider_errors })
}

// ---------------------------------------------------------------------------
// Removal candidates
// ---------------------------------------------------------------------------

/// A checkout offered for removal: found strictly below the root, by its exact path, shown
/// as its origin's identity and that path, and read from that identity.
pub open spec fn removal_candidate_settled(c: SelectionCandidate, root: Seq<char>) -> bool {
    &&& c.exact_path matches Some(p) && strictly_below(p@, root)
    &&& !c.archived
    &&& exists|t: Seq<char>| #[trigger] spec_parse(t) == Ok::<RefView, RefErrView>(c.reference@) && c.display@ == t + "\t"@ + c.exact_path->Some_0@
}

pub open spec fn removal_candidates_settled(cands: Seq<SelectionCandidate>, root: Seq<char>) -> bool {
    &&& forall|k: int| 0 <= k < cands.len() ==> removal_candidate_settled(#[trigger] cands[k], root)
    &&& forall|a: int, b: int| 0 <= a < b < cands.len() ==> crate::order::lex_le(spec_identity((#[trigger] cands[a]).reference@), spec_identity((#[trigger] cands[b]).reference@))
}

/// No provider is asked, and every candidate is settled against one root.
pub open spec fn removal_report_settled(report: CandidateReport) -> bool {
    &&& report.provider_errors@.len() == 0
    &&& exists|root: Seq<char>| #[trigger] removal_candidates_settled(report.candidates@, root)
}

/// What listing removal candidates does with the answer to whether the configured root
/// exists: no root offers nothing, a failed answer stops with its reason, and an existing
/// root is searched.
pub fn root_presence(answer: Result<bool, String>) -> (r: Option<Result<CandidateReport, String>>)
    ensures
        match answer {
            Ok(true) => r is None,
            Ok(false) => r matches Some(Ok(report)) && report.candidates@.len() == 0 && report.provider_errors@.len() == 0,
            Err(e) => r == Some(Err::<CandidateReport, String>(e)),
        },
{
    match answer {
        Ok(true) => None,
        Ok(false) => Some(Ok(CandidateReport { candidates: Vec::new(), provider_errors: Vec::new() })),
        Err(error) => Some(Err(error)),
    }
}

/// The checkouts found under the root whose origin reads as a repository, in identity order.
pub fn remove_candidates<S: ConfigStore, G: GitRemoval, F: RemovalFilesystem>(
    store: &S,
    git: &G,
    filesystem: &F,
    config_path: &str,
    home: &str,
) -> (r: Result<CandidateReport, String>)
    ensures
        r matches Ok(report) ==> removal_report_settled(report),
{
    let config = load_config(store, config_path)?;
    let configured = match config.resolve_root(home) {
        Ok(root) => root,
        Err(error) => return Err(error.message()),
    };
    if let Some(answer) = root_presence(filesystem.metadata_exists(configured.as_str())) {
        if let Ok(report) = &answer {
            assert(removal_candidates_settled(report.candidates@, configured@));
        }
        return answer;
    }
    let root = filesystem.canonicalize(configured.as_str())?;
    let report = removal_candidates_below(git, filesystem, root.as_str())?;
    assert(removal_candidates_settled(report.candidates@, root@));
    assert(removal_report_settled(report));
    Ok(report)
}

/// The checkouts found strictly below the canonical `root` whose origin reads as a
/// repository and whose inspection succeeds, in identity order.
pub fn removal_candidates_below<G: GitRemoval, F: RemovalFilesystem>(
    git: &G,
    filesystem: &F,
    root: &str,
) -> (r: Result<CandidateReport, String>)
    ensures
        r matches Ok(report) ==> report.provider_errors@.len() == 0 && removal_candidates_settled(report.candidates@, root@),
{
    let directories = filesystem.discover_directories(root)?;
    let mut keyed: Vec<(Vec<char>, SelectionCandidate)> = Vec::new();
    let mut i: usize = 0;
    while i < directories.len()
        invariant
            i <= directories@.len(),
            forall|k: int| 0 <= k < keyed@.len() ==> removal_candidate_settled((#[trigger] keyed@[k]).1, root@)
                && keyed@[k].0@ == spec_identity(keyed@[k].1.reference@),
        decreases directories.len() - i,
    {
        let directory = directories[i].as_str();
        i += 1;
        let unsafe_path = match filesystem.is_symlink(directory) {
            Ok(link) => link,
            Err(_) => true,
        } || match filesystem.contains_symlink(directory) {
            Ok(link) => link,
            Err(_) => true,
        };
        if unsafe_path {
            continue;
        }
        let canonical = match filesystem.canonicalize(directory) {
            Ok(canonical) => canonical,
            Err(_) => continue,
        };
        if paths_equal(canonical.as_str(), root) || !starts_with_path(canonical.as_str(), root) {
            continue;
        }
        let identity = match git.origin_identity(canonical.as_str()) {
            Ok(identity) => identity,
            Err(_) => continue,
        };
        if git.inspect_removal(canonical.as_str(), identity.as_str()).is_err() {
            continue;
        }
        let reference = match RepositoryRef::parse(identity.as_str()) {
            Ok(reference) => reference,
            Err(_) => continue,
        };
        let display = string_of(&concat(&concat(&chars(identity.as_str()), &chars("\t")), &chars(canonical.as_str())));
        let key = chars(reference.identity().as_str());
        let candidate = SelectionCandidate { reference, display, archived: false, exact_path: Some(canonical) };
        assert(spec_parse(identity@) == Ok::<RefView, RefErrView>(candidate.reference@));
        keyed.push((key, candidate));
    }
    let sorted = sort_keyed(keyed);
    let ghost all = sorted@;
    proof {
        assert forall|q: int| 0 <= q < all.len() implies removal_candidate_settled((#[trigger] all[q]).1, root@)
            && all[q].0@ == spec_identity(all[q].1.reference@) by {
            assert(all.to_multiset().count(all[q]) > 0);
            assert(keyed@.contains(all[q]));
        }
    }
    let mut candidates: Vec<SelectionCandidate> = Vec::new();
    let mut rest = sorted;
    while rest.len() > 0
        invariant
            candidates@.len() + rest@.len() == all.len(),
            rest@ == all.subrange(candidates@.len() as int, all.len() as int),
            forall|k: int| 0 <= k < candidates@.len() ==> #[trigger] candidates@[k] == all[k].1,
        decreases rest@.len(),
    {
        let (_, candidate) = rest.remove(0);
        candidates.push(candidate);
    }
    proof {
        assert forall|a: int, b: int| 0 <= a < b < candidates@.len() implies crate::order::lex_le(spec_identity((#[trigger] candidates@[a]).reference@), spec_identity((#[trigger] candidates@[b]).reference@)) by {
            assert(crate::order::keys_sorted(all));
            assert(crate::order::lex_le(all[a].0@, all[b].0@));
        }
        assert(removal_candidates_settled(candidates@, root@));
    }
    Ok(CandidateReport { candidates, provider_errors: Vec::new() })
}

} // verus!
