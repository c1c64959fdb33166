//! The inventory's background scan: what its events carry and mean, and the decisions taken
//! while walking the root and while probing each checkout with Git. The walking and the Git
//! processes belong to the embedding program; it hands each outcome to these functions.
use vstd::prelude::*;

use crate::address::option_view;
use crate::application::inventory::{
    changes_of, changes_observation, lists_origin, observation_label, origin_fact, origin_fact_of, origin_listed,
    LocalCheckout, LocalScan, ObservationField, OriginFact, ScanDiagnostic,
};
use crate::config_file::spec_digits;
use crate::inventory_view::ScanUpdate;
use crate::order::{first_where, keys_sorted, lemma_first_where_stays, lemma_multiset_map, lex_le, sort_keyed};
use crate::paths::{components, components_of, is_absolute, paths_equal, same_path};
use crate::picker::{signed_digits, signed_text};
use crate::text::{chars, concat, equal, join, join_with, starts_with, string_of, trim_white, trim_whitespace};

verus! {

broadcast use {
    vstd::seq::group_seq_axioms,
    vstd::seq_lib::group_to_multiset_ensures,
    vstd::multiset::group_multiset_axioms,
};

/// Which scan an event belongs to: its generation, the configuration it was started for,
/// and its root.
#[derive(Debug, Clone, PartialEq, Eq)]
pub struct ScanContext {
    pub generation: u64,
    pub config_revision: String,
    pub root: String,
}

/// A discovered checkout as it was when discovered: the identity of its metadata, and a
/// digest of its Git configuration.
#[derive(Debug, Clone, PartialEq, Eq)]
pub struct TargetSnapshot {
    pub path: String,
    pub receiver_token: Option<String>,
    pub content_token: Option<u64>,
}

fn same_text_option(a: &Option<String>, b: &Option<String>) -> (r: bool)
    ensures
        r == (option_view(*a) == option_view(*b)),
{
    match (a, b) {
        (Some(x), Some(y)) => equal(&chars(x.as_str()), &chars(y.as_str())),
        (None, None) => true,
        _ => false,
    }
}

impl TargetSnapshot {
    /// Whether the target's metadata identity is still the one captured; `current` is the
    /// identity read now.
    pub fn matches_current(&self, current: &Option<String>) -> (r: bool)
        ensures
            r == (option_view(self.receiver_token) == option_view(*current)),
    {
        same_text_option(&self.receiver_token, current)
    }

    /// Whether the target's Git configuration still has the digest captured.
    pub fn contents_match_current(&self, current: Option<u64>) -> (r: bool)
        ensures
            r == (self.content_token == current),
    {
        match (self.content_token, current) {
            (Some(a), Some(b)) => a == b,
            (None, None) => true,
            _ => false,
        }
    }
}

/// What the scan reports, in order.
#[derive(Debug, Clone, PartialEq, Eq)]
pub enum ScanEvent {
    Failure,
    Discovered { path: String, context: ScanContext, target: TargetSnapshot },
    Checkout { checkout: LocalCheckout, context: ScanContext, target: TargetSnapshot, content_current: bool },
    Diagnostic { diagnostic: ScanDiagnostic, context: ScanContext },
    Complete { incomplete: bool, context: ScanContext },
}

pub open spec fn context_current(c: ScanContext, generation: u64, root: Seq<char>, revision: Seq<char>) -> bool {
    c.generation == generation && same_path(c.root@, root) && c.config_revision@ == revision
}

/// An event belongs to the running scan: same generation, same root, same configuration.
pub fn event_is_current(context: &ScanContext, generation: u64, root: &str, revision: &str) -> (r: bool)
    ensures
        r == context_current(*context, generation, root@, revision@),
{
    context.generation == generation && paths_equal(context.root.as_str(), root) && equal(
        &chars(context.config_revision.as_str()),
        &chars(revision),
    )
}

/// What an event means to the running session: `current_token` is the metadata identity of
/// the event's target as read now.
pub open spec fn spec_scan_update(e: ScanEvent, generation: u64, root: Seq<char>, revision: Seq<char>, current_token: Option<Seq<char>>) -> ScanUpdate {
    match e {
        ScanEvent::Failure => ScanUpdate::Failure,
        ScanEvent::Discovered { path, context, target } => ScanUpdate::Discovered {
            path,
            current: context_current(context, generation, root, revision) && option_view(target.receiver_token) == current_token,
        },
        ScanEvent::Checkout { checkout, context, target, content_current } => ScanUpdate::Checkout {
            checkout,
            target: target.path,
            current: context_current(context, generation, root, revision),
            fresh: content_current && option_view(target.receiver_token) == current_token,
        },
        ScanEvent::Diagnostic { diagnostic, context } => ScanUpdate::Diagnostic {
            diagnostic,
            current: context_current(context, generation, root, revision),
        },
        ScanEvent::Complete { incomplete, context } => ScanUpdate::Complete {
            incomplete,
            current: context_current(context, generation, root, revision),
        },
    }
}

pub fn scan_update(event: ScanEvent, generation: u64, root: &str, revision: &str, current_token: &Option<String>) -> (r: ScanUpdate)
    ensures
        r == spec_scan_update(event, generation, root@, revision@, option_view(*current_token)),
{
    match event {
        ScanEvent::Failure => ScanUpdate::Failure,
        ScanEvent::Discovered { path, context, target } => {
            let current = event_is_current(&context, generation, root, revision) && target.matches_current(current_token);
            ScanUpdate::Discovered { path, current }
        },
        ScanEvent::Checkout { checkout, context, target, content_current } => {
            let current = event_is_current(&context, generation, root, revision);
            let fresh = content_current && target.matches_current(current_token);
            ScanUpdate::Checkout { checkout, target: target.path, current, fresh }
        },
        ScanEvent::Diagnostic { diagnostic, context } => {
            let current = event_is_current(&context, generation, root, revision);
            ScanUpdate::Diagnostic { diagnostic, current }
        },
        ScanEvent::Complete { incomplete, context } => {
            let current = event_is_current(&context, generation, root, revision);
            ScanUpdate::Complete { incomplete, current }
        },
    }
}

// ---------------------------------------------------------------------------
// Probing a checkout
// ---------------------------------------------------------------------------

/// Why a Git probe gave no output.
#[derive(Debug, Clone, PartialEq, Eq)]
pub enum ProbeError {
    Cancelled,
    Failed(String),
    Exit { code: Option<i32>, stderr: String },
}

/// `{:?}` of an exit code.
pub open spec fn code_text(code: Option<i32>) -> Seq<char> {
    match code {
        Some(n) => "Some("@ + signed_digits(n as int) + ")"@,
        None => "None"@,
    }
}

pub open spec fn probe_error_text(e: ProbeError) -> Seq<char> {
    match e {
        ProbeError::Cancelled => "cancelled"@,
        ProbeError::Failed(m) => m@,
        ProbeError::Exit { code, stderr } => "git command failed (exit "@ + code_text(code) + "): "@ + stderr@,
    }
}

impl ProbeError {
    /// The error's text.
    pub fn message(&self) -> (r: String)
        ensures
            r@ == probe_error_text(*self),
    {
        match self {
            ProbeError::Cancelled => string_of(&chars("cancelled")),
            ProbeError::Failed(m) => string_of(&chars(m.as_str())),
            ProbeError::Exit { code, stderr } => {
                let code_part = match code {
                    Some(n) => concat(&concat(&chars("Some("), &chars(signed_text(*n).as_str())), &chars(")")),
                    None => chars("None"),
                };
                string_of(&concat(&concat(&concat(&chars("git command failed (exit "), &code_part), &chars("): ")), &chars(stderr.as_str())))
            },
        }
    }
}

/// What the origin probe settled: an origin fact (and whether the probe failed), a need to
/// list the remotes first, or a cancellation.
#[derive(Debug, Clone, PartialEq, Eq)]
pub enum OriginProbe {
    Known { fact: OriginFact, failed: bool },
    ListRemotes,
    Cancelled,
}

pub open spec fn supported_or_not(output: Seq<char>, fact: OriginFact) -> bool {
    match fact {
        OriginFact::Supported { original, identity } => origin_fact_of(output) == (original@, Some(identity@)),
        OriginFact::Unsupported(original) => origin_fact_of(output) == (original@, None::<Seq<char>>),
        _ => false,
    }
}

/// Reads `git remote get-url origin`: its output is the origin; exit status 2 may mean that
/// there is no origin, which the remotes tell; any other failure is the origin's error.
pub fn origin_probe(result: &Result<String, ProbeError>) -> (r: OriginProbe)
    ensures
        match result {
            Ok(output) => r matches OriginProbe::Known { fact, failed } && !failed && supported_or_not(output@, fact),
            Err(ProbeError::Cancelled) => r is Cancelled,
            Err(ProbeError::Exit { code: Some(2), .. }) => r is ListRemotes,
            Err(e) => r == OriginProbe::Known { fact: OriginFact::Error(r->fact->Error_0), failed: true }
                && r->fact->Error_0@ == probe_error_text(*e),
        },
{
    match result {
        Ok(output) => OriginProbe::Known { fact: origin_fact(output.as_str()), failed: false },
        Err(ProbeError::Cancelled) => OriginProbe::Cancelled,
        Err(ProbeError::Exit { code: Some(2), .. }) => OriginProbe::ListRemotes,
        Err(e) => OriginProbe::Known { fact: OriginFact::Error(e.message()), failed: true },
    }
}

/// Reads `git remote` after the origin probe exited with status 2: no `origin` among the
/// remotes means there is none; otherwise the origin probe's error stands.
pub fn origin_after_remotes(origin_error: &ProbeError, remotes: &Result<String, ProbeError>) -> (r: OriginProbe)
    ensures
        match remotes {
            Ok(list) => if !lists_origin(list@) {
                r == OriginProbe::Known { fact: OriginFact::Absent, failed: false }
            } else {
                r matches OriginProbe::Known { fact: OriginFact::Error(m), failed } && failed && m@ == probe_error_text(*origin_error)
            },
            Err(ProbeError::Cancelled) => r is Cancelled,
            Err(_) => r matches OriginProbe::Known { fact: OriginFact::Error(m), failed } && failed && m@ == probe_error_text(*origin_error),
        },
{
    match remotes {
        Ok(list) => if !origin_listed(list.as_str()) {
            OriginProbe::Known { fact: OriginFact::Absent, failed: false }
        } else {
            OriginProbe::Known { fact: OriginFact::Error(origin_error.message()), failed: true }
        },
        Err(ProbeError::Cancelled) => OriginProbe::Cancelled,
        Err(_) => OriginProbe::Known { fact: OriginFact::Error(origin_error.message()), failed: true },
    }
}

/// `git symbolic-ref` failing quietly (status 1, nothing on stderr) means a detached HEAD,
/// whose commit is asked for next.
pub fn needs_commit(result: &Result<String, ProbeError>) -> (r: bool)
    ensures
        r == (result matches Err(ProbeError::Exit { code: Some(1), stderr }) && stderr@.len() == 0),
{
    match result {
        Err(ProbeError::Exit { code: Some(1), stderr }) => stderr.unicode_len() == 0,
        _ => false,
    }
}

/// The branch shown for a detached HEAD: its abbreviated commit.
pub fn detached(commit: Result<String, ProbeError>) -> (r: Result<String, ProbeError>)
    ensures
        match commit {
            Ok(c) => r matches Ok(b) && b@ == "detached HEAD "@ + trim_white(c@),
            Err(e) => r == Err::<String, ProbeError>(e),
        },
{
    match commit {
        Ok(c) => Ok(string_of(&concat(&chars("detached HEAD "), &trim_whitespace(&chars(c.as_str()))))),
        Err(e) => Err(e),
    }
}

/// An observation from a probe's result (`None` when the probe was cancelled), with whether
/// the probe failed.
pub open spec fn observed(result: Result<String, ProbeError>, field: ObservationField, failed: bool) -> bool {
    match result {
        Ok(_) => !failed,
        Err(e) => failed && field == ObservationField::Error(field->Error_0) && field->Error_0@ == probe_error_text(e),
    }
}

/// The branch observation: the trimmed branch, or the probe's error.
pub fn branch_observation(result: Result<String, ProbeError>) -> (r: Option<(ObservationField, bool)>)
    ensures
        result matches Err(ProbeError::Cancelled) ==> r is None,
        !(result matches Err(ProbeError::Cancelled)) ==> r is Some && observed(result, r->Some_0.0, r->Some_0.1),
        result matches Ok(b) ==> (r matches Some((ObservationField::Known(v), _)) && v@ == trim_white(b@)),
{
    match result {
        Ok(branch) => Some((ObservationField::Known(string_of(&trim_whitespace(&chars(branch.as_str())))), false)),
        Err(ProbeError::Cancelled) => None,
        Err(e) => Some((ObservationField::Error(e.message()), true)),
    }
}

/// The changes observation from `git status --porcelain`: clean, a count of changed paths,
/// or the probe's error.
pub fn changes_probe(result: Result<String, ProbeError>) -> (r: Option<(ObservationField, bool)>)
    requires
        result matches Ok(s) ==> s@.len() < u64::MAX,
    ensures
        result matches Err(ProbeError::Cancelled) ==> r is None,
        !(result matches Err(ProbeError::Cancelled)) ==> r is Some && observed(result, r->Some_0.0, r->Some_0.1),
        result matches Ok(s) ==> (r matches Some((field, _)) && match changes_of(s@) {
            None => field is Clean,
            Some(n) => field matches ObservationField::Dirty(m) && m@ == spec_digits(n, 10) + " modified"@,
        }),
{
    match result {
        Ok(status) => Some((changes_observation(status.as_str()), false)),
        Err(ProbeError::Cancelled) => None,
        Err(e) => Some((ObservationField::Error(e.message()), true)),
    }
}

pub open spec fn identity_of(origin: OriginFact) -> Option<Seq<char>> {
    match origin {
        OriginFact::Supported { identity, .. } => Some(identity@),
        _ => None,
    }
}

/// A probed checkout: its identity is that of a supported origin.
pub fn local_checkout(path: String, origin: OriginFact, branch: ObservationField, changes: ObservationField) -> (r: LocalCheckout)
    ensures
        r.path == path,
        option_view(r.identity) == identity_of(origin),
        r.origin == origin,
        r.branch == branch,
        r.changes == changes,
{
    let identity = match &origin {
        OriginFact::Supported { identity, .. } => Some(string_of(&chars(identity.as_str()))),
        _ => None,
    };
    LocalCheckout { path, identity, origin, branch, changes }
}

// ---------------------------------------------------------------------------
// Walking the root
// ---------------------------------------------------------------------------

/// A diagnostic that leaves the scan incomplete.
pub fn diagnostic(path: String, message: String) -> (r: ScanDiagnostic)
    ensures
        r == (ScanDiagnostic { path, message, incomplete: true }),
{
    ScanDiagnostic { path, message, incomplete: true }
}

/// A path left out on purpose: worth showing, but the scan is still complete.
pub fn exclusion(path: String, message: String) -> (r: ScanDiagnostic)
    ensures
        r == (ScanDiagnostic { path, message, incomplete: false }),
{
    ScanDiagnostic { path, message, incomplete: false }
}

/// What the walk learned of a path from its own metadata.
#[derive(Debug, Clone, PartialEq, Eq)]
pub enum PathKind {
    /// The metadata could not be read, for this reason.
    Unreadable(String),
    /// A symbolic link or anything but a directory.
    Other,
    /// A directory; `bare_layout` when it holds a `HEAD` file and `objects` and `refs` directories.
    Directory { bare_layout: bool },
}

/// What `.git` inside a directory is.
#[derive(Debug, Clone, Copy, PartialEq, Eq, Structural)]
pub enum GitMarker {
    Directory,
    File,
    Neither,
}

/// The walk's next step at a path.
#[derive(Debug, Clone, PartialEq, Eq)]
pub enum Discovery {
    /// Report this diagnostic and go on.
    Report(ScanDiagnostic),
    /// Leave the path.
    Skip,
    /// Ask Git whether the directory is a bare repository.
    CheckBare,
    /// Look at the directory's `.git`.
    CheckMarker,
    /// The directory is a checkout.
    Emit,
    /// Walk into the directory's entries.
    ReadDirectory,
    /// Stop the walk: it was cancelled.
    Stop,
}

/// The first step at a path.
pub fn discover_path(path: &str, kind: &PathKind) -> (r: Discovery)
    ensures
        match kind {
            PathKind::Unreadable(e) => r matches Discovery::Report(d) && d.incomplete && d.path@ == path@ && d.message@
                == "unreadable path: "@ + e@,
            PathKind::Other => r is Skip,
            PathKind::Directory { bare_layout } => if *bare_layout { r is CheckBare } else { r is CheckMarker },
        },
{
    match kind {
        PathKind::Unreadable(e) => Discovery::Report(
            diagnostic(string_of(&chars(path)), string_of(&concat(&chars("unreadable path: "), &chars(e.as_str())))),
        ),
        PathKind::Other => Discovery::Skip,
        PathKind::Directory { bare_layout } => if *bare_layout {
            Discovery::CheckBare
        } else {
            Discovery::CheckMarker
        },
    }
}

/// The step after `git rev-parse --is-bare-repository`: a bare repository is left out, a
/// cancelled probe stops the walk, a failed one is reported, anything else goes on to `.git`.
pub fn after_bare_check(path: &str, result: &Result<String, ProbeError>) -> (r: Discovery)
    ensures
        match result {
            Ok(v) => if trim_white(v@) == "true"@ {
                r matches Discovery::Report(d) && !d.incomplete && d.path@ == path@ && d.message@ == "bare repository ignored"@
            } else {
                r is CheckMarker
            },
            Err(ProbeError::Cancelled) => r is Stop,
            Err(e) => r matches Discovery::Report(d) && d.incomplete && d.path@ == path@ && d.message@
                == "could not inspect bare repository: "@ + probe_error_text(*e),
        },
{
    match result {
        Ok(v) => if equal(&trim_whitespace(&chars(v.as_str())), &chars("true")) {
            Discovery::Report(exclusion(string_of(&chars(path)), string_of(&chars("bare repository ignored"))))
        } else {
            Discovery::CheckMarker
        },
        Err(ProbeError::Cancelled) => Discovery::Stop,
        Err(e) => Discovery::Report(
            diagnostic(string_of(&chars(path)), string_of(&concat(&chars("could not inspect bare repository: "), &chars(e.message().as_str())))),
        ),
    }
}

/// The step after looking at `.git`: a directory makes a checkout, a file a linked worktree
/// or submodule, which is left out; otherwise the walk goes into the directory.
pub fn after_marker(path: &str, marker: GitMarker) -> (r: Discovery)
    ensures
        marker == GitMarker::Directory ==> r is Emit,
        marker == GitMarker::File ==> (r matches Discovery::Report(d) && !d.incomplete && d.path@ == path@ && d.message@
            == "linked worktree or submodule ignored"@),
        marker == GitMarker::Neither ==> r is ReadDirectory,
{
    match marker {
        GitMarker::Directory => Discovery::Emit,
        GitMarker::File => Discovery::Report(exclusion(string_of(&chars(path)), string_of(&chars("linked worktree or submodule ignored")))),
        GitMarker::Neither => Discovery::ReadDirectory,
    }
}

/// A directory entry that could not be read.
pub fn unreadable_entry(path: &str, error: &str) -> (r: ScanDiagnostic)
    ensures
        r.incomplete,
        r.path@ == path@,
        r.message@ == "unreadable directory entry: "@ + error@,
{
    diagnostic(string_of(&chars(path)), string_of(&concat(&chars("unreadable directory entry: "), &chars(error))))
}

/// A directory that could not be read.
pub fn unreadable_directory(path: &str, error: &str) -> (r: ScanDiagnostic)
    ensures
        r.incomplete,
        r.path@ == path@,
        r.message@ == "unreadable path: "@ + error@,
{
    diagnostic(string_of(&chars(path)), string_of(&concat(&chars("unreadable path: "), &chars(error))))
}


// ---------------------------------------------------------------------------
// Collecting a whole scan
// ---------------------------------------------------------------------------

pub open spec fn completes() -> spec_fn(ScanEvent) -> bool {
    |e: ScanEvent| e is Complete
}

/// The events before the first `Complete`.
pub open spec fn completed_prefix(events: Seq<ScanEvent>) -> Seq<ScanEvent> {
    let i = first_where(events, completes(), events.len() as int);
    if i < 0 {
        events
    } else {
        events.subrange(0, i)
    }
}

pub open spec fn discovered_paths(events: Seq<ScanEvent>) -> Seq<Seq<char>>
    decreases events.len(),
{
    if events.len() == 0 {
        Seq::empty()
    } else {
        match events.last() {
            ScanEvent::Discovered { path, .. } => discovered_paths(events.drop_last()).push(path@),
            _ => discovered_paths(events.drop_last()),
        }
    }
}

pub open spec fn checkouts_reported(events: Seq<ScanEvent>) -> Seq<LocalCheckout>
    decreases events.len(),
{
    if events.len() == 0 {
        Seq::empty()
    } else {
        match events.last() {
            ScanEvent::Checkout { checkout, .. } => checkouts_reported(events.drop_last()).push(checkout),
            _ => checkouts_reported(events.drop_last()),
        }
    }
}

pub open spec fn diagnostics_reported(events: Seq<ScanEvent>) -> Seq<ScanDiagnostic>
    decreases events.len(),
{
    if events.len() == 0 {
        Seq::empty()
    } else {
        match events.last() {
            ScanEvent::Diagnostic { diagnostic, .. } => diagnostics_reported(events.drop_last()).push(diagnostic),
            _ => diagnostics_reported(events.drop_last()),
        }
    }
}

pub open spec fn incompleteness_reported(events: Seq<ScanEvent>) -> bool
    decreases events.len(),
{
    if events.len() == 0 {
        false
    } else {
        incompleteness_reported(events.drop_last()) || (events.last() matches ScanEvent::Diagnostic { diagnostic, .. }
            && diagnostic.incomplete)
    }
}

/// A text that sorts as `Path` orders clean paths: the root first, then component by
/// component, a shorter path before the longer ones it begins.
pub open spec fn path_key(p: Seq<char>) -> Seq<char> {
    (if is_absolute(p) { seq!['\0'] } else { Seq::<char>::empty() }) + join(components(p), seq!['\0'])
}

pub open spec fn checkouts_sorted(v: Seq<LocalCheckout>) -> bool {
    forall|i: int, j: int| 0 <= i < j < v.len() ==> lex_le(path_key((#[trigger] v[i]).path@), path_key((#[trigger] v[j]).path@))
}

pub open spec fn diagnostics_sorted(v: Seq<ScanDiagnostic>) -> bool {
    forall|i: int, j: int| 0 <= i < j < v.len() ==> lex_le(path_key((#[trigger] v[i]).path@), path_key((#[trigger] v[j]).path@))
}

fn path_key_of(path: &str) -> (r: Vec<char>)
    ensures
        r@ == path_key(path@),
{
    let p = chars(path);
    let parts = components_of(&p);
    let mut nul: Vec<char> = Vec::new();
    nul.push('\0');
    let joined = join_with(&parts, &nul);
    assert(nul@ =~= seq!['\0']);
    if starts_with(&p, &chars("/")) {
        concat(&nul, &joined)
    } else {
        assert(Seq::<char>::empty() + joined@ =~= joined@);
        joined
    }
}

pub open spec fn keyed_by_path<T>(v: Seq<(Vec<char>, T)>, path: spec_fn(T) -> Seq<char>) -> bool {
    forall|k: int| 0 <= k < v.len() ==> (#[trigger] v[k]).0@ == path_key(path(v[k].1))
}

pub open spec fn checkout_path() -> spec_fn(LocalCheckout) -> Seq<char> {
    |c: LocalCheckout| c.path@
}

pub open spec fn diagnostic_path() -> spec_fn(ScanDiagnostic) -> Seq<char> {
    |d: ScanDiagnostic| d.path@
}

pub open spec fn seconds<T>(v: Seq<(Vec<char>, T)>) -> Seq<T> {
    v.map_values(|p: (Vec<char>, T)| p.1)
}

/// Sorts items that carry their path keys, and drops the keys.
fn sorted_by_key<T>(items: Vec<(Vec<char>, T)>, Ghost(path): Ghost<spec_fn(T) -> Seq<char>>) -> (r: Vec<T>)
    requires
        keyed_by_path(items@, path),
    ensures
        r@.to_multiset() == seconds(items@).to_multiset(),
        forall|i: int, j: int| 0 <= i < j < r@.len() ==> lex_le(path_key(path(#[trigger] r@[i])), path_key(path(#[trigger] r@[j]))),
{
    let sorted = sort_keyed(items);
    assert forall|k: int| 0 <= k < sorted@.len() implies (#[trigger] sorted@[k]).0@ == path_key(path(sorted@[k].1)) by {
        assert(sorted@.to_multiset().count(sorted@[k]) > 0);
        assert(items@.contains(sorted@[k]));
        let m = choose|m: int| 0 <= m < items@.len() && items@[m] == sorted@[k];
        assert(items@[m].0@ == path_key(path(items@[m].1)));
    }
    proof {
        lemma_multiset_map(sorted@, items@, |p: (Vec<char>, T)| p.1);
    }
    let ghost target = seconds(sorted@);
    let mut rest = sorted;
    let mut out: Vec<T> = Vec::new();
    let mut done: usize = 0;
    let ghost all = rest@;
    let _total = rest.len();
    assert(out@ =~= seconds(all).subrange(0, 0));
    while rest.len() > 0
        invariant
            done + rest@.len() == all.len(),
            all.len() <= usize::MAX,
            rest@ == all.subrange(done as int, all.len() as int),
            out@ == seconds(all).subrange(0, done as int),
            target == seconds(all),
        decreases rest@.len(),
    {
        let (_, item) = rest.remove(0);
        let ghost before = out@;
        out.push(item);
        assert(out@ =~= seconds(all).subrange(0, done + 1));
        done += 1;
    }
    assert(seconds(all).subrange(0, all.len() as int) =~= seconds(all));
    assert forall|i: int, j: int| 0 <= i < j < out@.len() implies lex_le(path_key(path(#[trigger] out@[i])), path_key(path(#[trigger] out@[j]))) by {
        assert(lex_le(all[i].0@, all[j].0@));
        assert(all[i].0@ == path_key(path(all[i].1)));
        assert(all[j].0@ == path_key(path(all[j].1)));
    }
    out
}

/// Collects a whole scan from its events: everything reported before it completed, with the
/// checkouts and diagnostics ordered by path.
pub fn scan_local_repositories(events: Vec<ScanEvent>) -> (r: LocalScan)
    ensures
        r.pending_paths.deep_view() == discovered_paths(completed_prefix(events@)),
        r.checkouts@.to_multiset() == checkouts_reported(completed_prefix(events@)).to_multiset(),
        checkouts_sorted(r.checkouts@),
        r.diagnostics@.to_multiset() == diagnostics_reported(completed_prefix(events@)).to_multiset(),
        diagnostics_sorted(r.diagnostics@),
        r.incomplete == incompleteness_reported(completed_prefix(events@)),
        r.stale_paths@.len() == 0,
        r.complete,
{
    let ghost all = events@;
    let _total = events.len();
    let mut rest = events;
    let mut pending: Vec<String> = Vec::new();
    let mut checkouts: Vec<(Vec<char>, LocalCheckout)> = Vec::new();
    let mut diagnostics: Vec<(Vec<char>, ScanDiagnostic)> = Vec::new();
    let mut incomplete = false;
    let mut done: usize = 0;
    let mut stopped = false;
    assert(seconds(checkouts@) =~= Seq::<LocalCheckout>::empty());
    assert(seconds(diagnostics@) =~= Seq::<ScanDiagnostic>::empty());
    assert(all.subrange(0, 0) =~= Seq::<ScanEvent>::empty());
    assert(pending.deep_view() =~= Seq::<Seq<char>>::empty());
    while rest.len() > 0 && !stopped
        invariant
            done + rest@.len() == all.len(),
            all.len() <= usize::MAX,
            rest@ == all.subrange(done as int, all.len() as int),
            first_where(all, completes(), done as int) == -1,
            stopped ==> first_where(all, completes(), all.len() as int) == done,
            pending.deep_view() == discovered_paths(all.subrange(0, done as int)),
            seconds(checkouts@) == checkouts_reported(all.subrange(0, done as int)),
            keyed_by_path(checkouts@, checkout_path()),
            seconds(diagnostics@) == diagnostics_reported(all.subrange(0, done as int)),
            keyed_by_path(diagnostics@, diagnostic_path()),
            incomplete == incompleteness_reported(all.subrange(0, done as int)),
        decreases rest@.len() + (if stopped { 0int } else { 1int }),
    {
        let at_end = match &rest[0] {
            ScanEvent::Complete { .. } => true,
            _ => false,
        };
        if at_end {
            assert(completes()(all[done as int]));
            proof {
                lemma_first_where_stays(all, completes(), done as int + 1, all.len() as int);
            }
            stopped = true;
        } else {
            let event = rest.remove(0);
            assert(event == all[done as int]);
            let ghost prev = all.subrange(0, done as int);
            let ghost next = all.subrange(0, done + 1);
            assert(next.drop_last() =~= prev);
            assert(next.last() == event);
            let ghost pv = pending.deep_view();
            let ghost cv = seconds(checkouts@);
            let ghost dv = seconds(diagnostics@);
            match event {
                ScanEvent::Discovered { path, .. } => {
                    pending.push(path);
                    assert(pending.deep_view() =~= pv.push(next.last()->Discovered_path@));
                    assert(seconds(checkouts@) =~= cv);
                    assert(seconds(diagnostics@) =~= dv);
                },
                ScanEvent::Checkout { checkout, .. } => {
                    let key = path_key_of(checkout.path.as_str());
                    checkouts.push((key, checkout));
                    assert(seconds(checkouts@) =~= cv.push(next.last()->Checkout_checkout));
                    assert(pending.deep_view() =~= pv);
                    assert(seconds(diagnostics@) =~= dv);
                },
                ScanEvent::Diagnostic { diagnostic, .. } => {
                    incomplete = incomplete || diagnostic.incomplete;
                    let key = path_key_of(diagnostic.path.as_str());
                    diagnostics.push((key, diagnostic));
                    assert(seconds(diagnostics@) =~= dv.push(next.last()->Diagnostic_diagnostic));
                    assert(pending.deep_view() =~= pv);
                    assert(seconds(checkouts@) =~= cv);
                },
                _ => {
                    assert(pending.deep_view() =~= pv);
                    assert(seconds(checkouts@) =~= cv);
                    assert(seconds(diagnostics@) =~= dv);
                },
            }
            assert(!completes()(all[done as int]));
            done += 1;
        }
    }
    proof {
        if !stopped {
            assert(all.subrange(0, all.len() as int) =~= all);
        }
        assert(completed_prefix(all) == all.subrange(0, done as int));
    }
    let sorted_checkouts = sorted_by_key(checkouts, Ghost(checkout_path()));
    let sorted_diagnostics = sorted_by_key(diagnostics, Ghost(diagnostic_path()));
    LocalScan {
        checkouts: sorted_checkouts,
        pending_paths: pending,
        stale_paths: Vec::new(),
        diagnostics: sorted_diagnostics,
        incomplete,
        complete: true,
    }
}

} // verus!
