//! The inventory: one row per declaration, wildcard pattern and local checkout, with what
//! the declarations say of each checkout and what was observed of it.
use vstd::prelude::*;

use crate::application::warehouse::{configured_destination, spec_configured_destination};
use crate::domain::config::{config_error_text, spec_resolve_portable_path, Config, ConfigView, DeclView};
use crate::domain::repository::{normalize_remote, ref_error_text, spec_identity, spec_normalize_remote, spec_parse, RefErrView, RefView, RepositoryRef};
use crate::application::membership::explicit_list;
use crate::domain::repository::path_push;
use crate::order::{keys_sorted, lex_le, sort_keyed};
use crate::paths::{components, components_of, is_absolute, paths_equal, same_path};
use crate::text::{after_prefix, chars, concat, contains_text, copy_strings, equal, has_prefix, join, join_with, slice, split, split_char, starts_with, string_of, trim_white, trim_whitespace};

verus! {

broadcast use {
    vstd::seq::group_seq_axioms,
    vstd::seq_lib::group_to_multiset_ensures,
    vstd::multiset::group_multiset_axioms,
};

#[derive(Debug, Clone, PartialEq, Eq)]
pub struct InventoryReport {
    pub rows: Vec<InventoryRow>,
    pub diagnostics: Vec<ScanDiagnostic>,
    pub config_revision: String,
    pub observation_generation: u64,
    pub incomplete: bool,
}

#[derive(Debug, Clone, PartialEq, Eq)]
pub struct InventoryRow {
    pub key: RowKey,
    pub repository: String,
    pub path: String,
    pub registration: RegistrationState,
    pub checkout: CheckoutState,
    pub origin: String,
    pub branch: ObservationField,
    pub changes: ObservationField,
    pub configured_destination: Option<String>,
    pub observed_path: Option<String>,
    pub declaration: Option<String>,
    pub warnings: Vec<String>,
    pub markable: bool,
}

/// What a row stands for. Rows are kept in the order of `key_text`.
#[derive(Debug, Clone, PartialEq, Eq)]
pub enum RowKey {
    Declaration { identity: String, destination: String },
    Checkout { identity: String, path: String },
    Path(String),
    Pattern(String),
}

#[derive(Debug, Clone, PartialEq, Eq)]
pub enum RegistrationState {
    Explicit,
    Wildcard { pattern: String },
    Excluded { pattern: String },
    Unregistered,
    Pattern,
}

#[derive(Debug, Clone, Copy, PartialEq, Eq, Structural)]
pub enum CheckoutState {
    Cloned,
    Missing,
    Pattern,
    Unknown,
    Conflict,
    Unreadable,
}

#[derive(Debug, Clone, PartialEq, Eq)]
pub enum ObservationField {
    Pending,
    Known(String),
    Clean,
    Dirty(String),
    Error(String),
    Stale(String),
    NotApplicable,
}

/// The raw origin is kept apart from the normalized identity: only an observed absence
/// reads as `No origin`.
#[derive(Debug, Clone, PartialEq, Eq)]
pub enum OriginFact {
    Absent,
    Supported { original: String, identity: String },
    Unsupported(String),
    Error(String),
}

#[derive(Debug, Clone, PartialEq, Eq)]
pub struct LocalCheckout {
    pub path: String,
    pub identity: Option<String>,
    pub origin: OriginFact,
    pub branch: ObservationField,
    pub changes: ObservationField,
}

#[derive(Debug, Clone, PartialEq, Eq)]
pub struct ScanDiagnostic {
    pub path: String,
    pub message: String,
    /// Exclusions are worth showing but do not mean that traversal could not finish.
    pub incomplete: bool,
}

#[derive(Debug, Clone, PartialEq, Eq)]
pub struct LocalScan {
    pub checkouts: Vec<LocalCheckout>,
    pub pending_paths: Vec<String>,
    /// A probe's target changed before its result could be applied.
    pub stale_paths: Vec<String>,
    pub diagnostics: Vec<ScanDiagnostic>,
    pub incomplete: bool,
    pub complete: bool,
}

impl Default for LocalScan {
    /// A scan that has observed nothing yet.
    fn default() -> (r: LocalScan)
        ensures
            r.checkouts@.len() == 0,
            r.pending_paths@.len() == 0,
            r.stale_paths@.len() == 0,
            r.diagnostics@.len() == 0,
            !r.incomplete,
            !r.complete,
    {
        LocalScan {
            checkouts: Vec::new(),
            pending_paths: Vec::new(),
            stale_paths: Vec::new(),
            diagnostics: Vec::new(),
            incomplete: false,
            complete: false,
        }
    }
}

/// What the inventory needs of the disk.
pub trait InventoryFilesystem {
    fn destination_state(&self, destination: &str) -> CheckoutState;

    fn config_revision(&self, path: &str) -> String;
}

// ---------------------------------------------------------------------------
// Labels
// ---------------------------------------------------------------------------

pub open spec fn registration_label(s: RegistrationState) -> Seq<char> {
    match s {
        RegistrationState::Explicit => "explicit"@,
        RegistrationState::Wildcard { .. } => "wildcard"@,
        RegistrationState::Excluded { .. } => "excluded"@,
        RegistrationState::Unregistered => "unregistered"@,
        RegistrationState::Pattern => "pattern"@,
    }
}

impl RegistrationState {
    pub fn label(&self) -> (r: &'static str)
        ensures
            r@ == registration_label(*self),
    {
        proof {
            reveal_strlit("explicit");
            reveal_strlit("wildcard");
            reveal_strlit("excluded");
            reveal_strlit("unregistered");
            reveal_strlit("pattern");
        }
        match self {
            RegistrationState::Explicit => "explicit",
            RegistrationState::Wildcard { .. } => "wildcard",
            RegistrationState::Excluded { .. } => "excluded",
            RegistrationState::Unregistered => "unregistered",
            RegistrationState::Pattern => "pattern",
        }
    }
}

pub open spec fn checkout_label(s: CheckoutState) -> Seq<char> {
    match s {
        CheckoutState::Cloned => "cloned"@,
        CheckoutState::Missing => "missing"@,
        CheckoutState::Pattern => "pattern"@,
        CheckoutState::Unknown => "unknown"@,
        CheckoutState::Conflict => "conflict"@,
        CheckoutState::Unreadable => "unreadable"@,
    }
}

impl CheckoutState {
    pub fn label(&self) -> (r: &'static str)
        ensures
            r@ == checkout_label(*self),
    {
        proof {
            reveal_strlit("cloned");
            reveal_strlit("missing");
            reveal_strlit("pattern");
            reveal_strlit("unknown");
            reveal_strlit("conflict");
            reveal_strlit("unreadable");
        }
        match self {
            CheckoutState::Cloned => "cloned",
            CheckoutState::Missing => "missing",
            CheckoutState::Pattern => "pattern",
            CheckoutState::Unknown => "unknown",
            CheckoutState::Conflict => "conflict",
            CheckoutState::Unreadable => "unreadable",
        }
    }
}

pub open spec fn observation_label(f: ObservationField) -> Seq<char> {
    match f {
        ObservationField::Pending => "pending"@,
        ObservationField::Known(v) => v@,
        ObservationField::Clean => "known clean"@,
        ObservationField::Dirty(v) => v@,
        ObservationField::Error(v) => "error: "@ + v@,
        ObservationField::Stale(v) => "stale: "@ + v@,
        ObservationField::NotApplicable => "-"@,
    }
}

impl ObservationField {
    pub fn label(&self) -> (r: String)
        ensures
            r@ == observation_label(*self),
    {
        match self {
            ObservationField::Pending => string_of(&chars("pending")),
            ObservationField::Known(value) => string_of(&chars(value.as_str())),
            ObservationField::Clean => string_of(&chars("known clean")),
            ObservationField::Dirty(value) => string_of(&chars(value.as_str())),
            ObservationField::Error(value) => string_of(&concat(&chars("error: "), &chars(value.as_str()))),
            ObservationField::Stale(value) => string_of(&concat(&chars("stale: "), &chars(value.as_str()))),
            ObservationField::NotApplicable => string_of(&chars("-")),
        }
    }
}

pub open spec fn origin_display(o: OriginFact) -> Seq<char> {
    match o {
        OriginFact::Absent => "No origin"@,
        OriginFact::Supported { original, .. } => original@,
        OriginFact::Unsupported(original) => original@,
        OriginFact::Error(error) => "origin error: "@ + error@,
    }
}

pub open spec fn origin_warning(o: OriginFact) -> Option<Seq<char>> {
    match o {
        OriginFact::Unsupported(_) => Some("Unsupported origin; identity is the exact path"@),
        OriginFact::Error(error) => Some("Could not inspect origin: "@ + error@),
        _ => None,
    }
}

impl OriginFact {
    /// How the origin is shown.
    pub fn display(&self) -> (r: String)
        ensures
            r@ == origin_display(*self),
    {
        match self {
            OriginFact::Absent => string_of(&chars("No origin")),
            OriginFact::Supported { original, .. } => string_of(&chars(original.as_str())),
            OriginFact::Unsupported(original) => string_of(&chars(original.as_str())),
            OriginFact::Error(error) => string_of(&concat(&chars("origin error: "), &chars(error.as_str()))),
        }
    }

    /// The warning an origin gives its row, if any.
    fn warning(&self) -> (r: Option<String>)
        ensures
            option_text(r) == origin_warning(*self),
    {
        match self {
            OriginFact::Unsupported(_) => Some(string_of(&chars("Unsupported origin; identity is the exact path"))),
            OriginFact::Error(error) => Some(string_of(&concat(&chars("Could not inspect origin: "), &chars(error.as_str())))),
            _ => None,
        }
    }
}

pub open spec fn option_text(o: Option<String>) -> Option<Seq<char>> {
    match o {
        Some(s) => Some(s@),
        None => None,
    }
}

// ---------------------------------------------------------------------------
// Wildcard relationships
// ---------------------------------------------------------------------------

/// The part of `identity` below the wildcard whose own identity is `pattern_id`, when
/// there is one.
pub open spec fn spec_wildcard_relative(pattern_id: Seq<char>, identity: Seq<char>) -> Option<Seq<char>> {
    let p = pattern_id + "/"@;
    if has_prefix(identity, p) && identity.len() > p.len() {
        Some(after_prefix(identity, p))
    } else {
        None
    }
}

fn wildcard_relative(pattern: &RepositoryRef, identity: &[char]) -> (r: Option<Vec<char>>)
    ensures
        match r {
            Some(v) => spec_wildcard_relative(spec_identity(pattern@), identity@) == Some(v@),
            None => spec_wildcard_relative(spec_identity(pattern@), identity@) is None,
        },
{
    let prefix = concat(&chars(pattern.identity().as_str()), &chars("/"));
    if starts_with(identity, &prefix) && identity.len() > prefix.len() {
        Some(slice(identity, prefix.len(), identity.len()))
    } else {
        None
    }
}

/// A wildcard declaration with its reference and configured destination.
pub struct Wildcard {
    pub reference: RepositoryRef,
    pub url: String,
    pub exclude: Vec<String>,
    pub destination: String,
}

/// An explicit declaration with its reference, identity and configured destination.
pub struct Concrete {
    pub reference: RepositoryRef,
    pub identity: String,
    pub url: String,
    pub destination: String,
}

pub open spec fn wild_relative(w: Wildcard, id: Seq<char>) -> Option<Seq<char>> {
    spec_wildcard_relative(spec_identity(w.reference@), id)
}

pub open spec fn wild_excludes(w: Wildcard, rel: Seq<char>) -> bool {
    w.exclude.deep_view().contains(rel)
}

/// How each wildcard that covers `id` relates to it, in declaration order.
pub open spec fn relationships(ws: Seq<Wildcard>, id: Seq<char>) -> Seq<Seq<char>>
    decreases ws.len(),
{
    if ws.len() == 0 {
        Seq::empty()
    } else {
        let prev = relationships(ws.drop_last(), id);
        match wild_relative(ws.last(), id) {
            Some(rel) => prev.push(
                (if wild_excludes(ws.last(), rel) {
                    "excluded by "@
                } else {
                    "covered by "@
                }) + ws.last().url@,
            ),
            None => prev,
        }
    }
}

/// The last wildcard that covers `id` without excluding it.
pub open spec fn last_eligible(ws: Seq<Wildcard>, id: Seq<char>) -> Option<Seq<char>>
    decreases ws.len(),
{
    if ws.len() == 0 {
        None
    } else {
        match wild_relative(ws.last(), id) {
            Some(rel) if !wild_excludes(ws.last(), rel) => Some(ws.last().url@),
            _ => last_eligible(ws.drop_last(), id),
        }
    }
}

/// The last wildcard that covers `id`.
pub open spec fn last_matching(ws: Seq<Wildcard>, id: Seq<char>) -> Option<Seq<char>>
    decreases ws.len(),
{
    if ws.len() == 0 {
        None
    } else {
        match wild_relative(ws.last(), id) {
            Some(_) => Some(ws.last().url@),
            None => last_matching(ws.drop_last(), id),
        }
    }
}

/// The registration of a checkout's identity: explicit when declared, else by the last
/// wildcard that takes it, else excluded by the last that names it, else unregistered.
pub open spec fn registration_settled(explicit: bool, ws: Seq<Wildcard>, id: Seq<char>, r: RegistrationState) -> bool {
    if explicit {
        r is Explicit
    } else if last_eligible(ws, id) is Some {
        r matches RegistrationState::Wildcard { pattern } && Some(pattern@) == last_eligible(ws, id)
    } else if last_matching(ws, id) is Some {
        r matches RegistrationState::Excluded { pattern } && Some(pattern@) == last_matching(ws, id)
    } else {
        r is Unregistered
    }
}

fn excludes(exclude: &Vec<String>, rel: &[char]) -> (r: bool)
    ensures
        r == exclude.deep_view().contains(rel@),
{
    let mut i: usize = 0;
    while i < exclude.len()
        invariant
            i <= exclude@.len(),
            forall|j: int| 0 <= j < i ==> exclude.deep_view()[j] != rel@,
        decreases exclude.len() - i,
    {
        assert(exclude.deep_view()[i as int] == exclude@[i as int]@);
        if equal(&chars(exclude[i].as_str()), rel) {
            return true;
        }
        i += 1;
    }
    false
}

fn registration_for(identity: &[char], wildcards: &Vec<Wildcard>, explicit: bool) -> (r: (RegistrationState, Vec<String>))
    ensures
        registration_settled(explicit, wildcards@, identity@, r.0),
        r.1.deep_view() == relationships(wildcards@, identity@),
{
    let ghost ws = wildcards@;
    let mut relations: Vec<String> = Vec::new();
    let mut eligible: Option<String> = None;
    let mut matching: Option<String> = None;
    let mut i: usize = 0;
    assert(ws.subrange(0, 0) =~= Seq::<Wildcard>::empty());
    while i < wildcards.len()
        invariant
            i <= ws.len(),
            ws == wildcards@,
            relations.deep_view() == relationships(ws.subrange(0, i as int), identity@),
            option_text(eligible) == last_eligible(ws.subrange(0, i as int), identity@),
            option_text(matching) == last_matching(ws.subrange(0, i as int), identity@),
        decreases wildcards.len() - i,
    {
        let wildcard = &wildcards[i];
        let ghost sub = ws.subrange(0, i + 1);
        assert(sub.drop_last() =~= ws.subrange(0, i as int));
        assert(sub.last() == *wildcard);
        if let Some(rel) = wildcard_relative(&wildcard.reference, identity) {
            let excluded = excludes(&wildcard.exclude, &rel);
            let lead = if excluded {
                chars("excluded by ")
            } else {
                chars("covered by ")
            };
            let ghost before = relations.deep_view();
            relations.push(string_of(&concat(&lead, &chars(wildcard.url.as_str()))));
            assert(relations.deep_view() =~= before.push(lead@ + wildcard.url@));
            matching = Some(string_of(&chars(wildcard.url.as_str())));
            if !excluded {
                eligible = Some(string_of(&chars(wildcard.url.as_str())));
            }
        }
        i += 1;
    }
    assert(ws.subrange(0, ws.len() as int) =~= ws);
    let state = if explicit {
        RegistrationState::Explicit
    } else {
        match eligible {
            Some(pattern) => RegistrationState::Wildcard { pattern },
            None => match matching {
                Some(pattern) => RegistrationState::Excluded { pattern },
                None => RegistrationState::Unregistered,
            },
        }
    };
    (state, relations)
}

// ---------------------------------------------------------------------------
// Row keys
// ---------------------------------------------------------------------------

/// The order of paths within keys: absolute before relative, then component by component
/// (components separated by NUL, which sorts before every other character).
pub open spec fn path_key(p: Seq<char>) -> Seq<char> {
    (if is_absolute(p) {
        seq!['\0']
    } else {
        Seq::empty()
    }) + join(components(p), seq!['\0'])
}

pub open spec fn declaration_text(identity: Seq<char>, destination: Seq<char>) -> Seq<char> {
    seq!['0'] + identity + seq!['\0'] + path_key(destination)
}

pub open spec fn checkout_text(identity: Seq<char>, path: Seq<char>) -> Seq<char> {
    seq!['1'] + identity + seq!['\0'] + path_key(path)
}

pub open spec fn path_text(path: Seq<char>) -> Seq<char> {
    seq!['2'] + path_key(path)
}

pub open spec fn pattern_text(pattern: Seq<char>) -> Seq<char> {
    seq!['3'] + pattern
}

/// A key as text: its kind first (declarations, checkouts, paths, patterns), then its fields.
/// Rows are ordered by it, and two keys with the same text are the same key.
pub open spec fn key_text(k: RowKey) -> Seq<char> {
    match k {
        RowKey::Declaration { identity, destination } => declaration_text(identity@, destination@),
        RowKey::Checkout { identity, path } => checkout_text(identity@, path@),
        RowKey::Path(p) => path_text(p@),
        RowKey::Pattern(s) => pattern_text(s@),
    }
}

pub open spec fn row_text(r: InventoryRow) -> Seq<char> {
    key_text(r.key)
}

pub open spec fn keys_distinct(rows: Seq<InventoryRow>) -> bool {
    forall|a: int, b: int| 0 <= a < b < rows.len() ==> row_text(#[trigger] rows[a]) != row_text(#[trigger] rows[b])
}

pub open spec fn has_key(rows: Seq<InventoryRow>, t: Seq<char>) -> bool {
    exists|k: int| 0 <= k < rows.len() && row_text(#[trigger] rows[k]) == t
}

/// What a row's kind fixes: a declaration's row is explicit and can be marked; a pattern's
/// row stands for the wildcard itself and cannot.
pub open spec fn row_kinded(row: InventoryRow) -> bool {
    &&& row.key is Declaration ==> row.registration is Explicit && row.markable
    &&& row.key is Pattern ==> row.registration is Pattern && row.checkout is Pattern && !row.markable
}

pub open spec fn rows_kinded(rows: Seq<InventoryRow>) -> bool {
    forall|k: int| 0 <= k < rows.len() ==> row_kinded(#[trigger] rows[k])
}

/// A checkout's row is registered as its identity's declarations decide (see
/// `registration_settled`), with `ids` the explicitly declared identities and `ws` the
/// wildcard declarations in order.
pub open spec fn row_registered(row: InventoryRow, ids: Seq<Seq<char>>, ws: Seq<Wildcard>) -> bool {
    row.key matches RowKey::Checkout { identity, .. } ==> registration_settled(ids.contains(identity@), ws, identity@, row.registration)
        && ends_with(row.warnings.deep_view(), relationships(ws, identity@))
}

/// `s` ends with `tail`.
pub open spec fn ends_with(s: Seq<Seq<char>>, tail: Seq<Seq<char>>) -> bool {
    tail.len() <= s.len() && s.subrange(s.len() - tail.len(), s.len() as int) == tail
}

pub open spec fn checkouts_registered(rows: Seq<InventoryRow>, ids: Seq<Seq<char>>, ws: Seq<Wildcard>) -> bool {
    forall|k: int| 0 <= k < rows.len() ==> row_registered(#[trigger] rows[k], ids, ws)
}

/// How a declaration's row shows a destination where no checkout was observed: not
/// applicable once the scan is complete, pending before.
pub open spec fn unobserved(complete: bool) -> ObservationField {
    if complete {
        ObservationField::NotApplicable
    } else {
        ObservationField::Pending
    }
}

/// A declaration's row stands for one of the explicit declarations, by identity and
/// destination, and shows no observation until a checkout is observed at its destination.
pub open spec fn row_declared(row: InventoryRow, concrete: Seq<Concrete>, complete: bool) -> bool {
    row.key matches RowKey::Declaration { identity, destination } ==> {
        &&& exists|j: int| 0 <= j < concrete.len() && (#[trigger] concrete[j]).identity@ == identity@ && concrete[j].destination@ == destination@
        &&& row.observed_path is None ==> row.branch == unobserved(complete) && row.changes == unobserved(complete)
    }
}

pub open spec fn rows_declared(rows: Seq<InventoryRow>, concrete: Seq<Concrete>, complete: bool) -> bool {
    forall|k: int| 0 <= k < rows.len() ==> row_declared(#[trigger] rows[k], concrete, complete)
}

/// A declaration's row whose destination holds a cloned checkout of another repository is
/// marked a conflict, with the conflict warning.
pub open spec fn conflicts_marked(rows: Seq<InventoryRow>) -> bool {
    forall|k: int, m: int| 0 <= k < rows.len() && 0 <= m < rows.len() ==> ((#[trigger] rows[k]).key matches RowKey::Declaration { identity, destination }
        && other_checkout_at(#[trigger] rows[m], destination@, identity@)
        ==> rows[k].checkout == CheckoutState::Conflict && rows[k].warnings.deep_view().contains(conflict_warning()))
}

/// Every declaration's row where no checkout was observed shows its observations as not
/// applicable (complete scan) or pending.
pub open spec fn declarations_unobserved(rows: Seq<InventoryRow>, complete: bool) -> bool {
    forall|k: int| 0 <= k < rows.len() ==> ((#[trigger] rows[k]).key is Declaration && rows[k].observed_path is None
        ==> rows[k].branch == unobserved(complete) && rows[k].changes == unobserved(complete))
}

/// A declaration's row shows a path as observed only where a checkout was found whose
/// repository the row is declared for, at a destination that is the same path.
pub open spec fn row_observed_from(row: InventoryRow, checkouts: Seq<LocalCheckout>) -> bool {
    row.key is Declaration ==> (row.observed_path matches Some(p) ==> exists|j: int|
        0 <= j < checkouts.len() && (#[trigger] checkouts[j]).path@ == p@
            && (checkouts[j].identity matches Some(id) && exists|d: Seq<char>| same_path(d, p@)
                && row_text(row) == #[trigger] declaration_text(id@, d)))
}

pub open spec fn declarations_observed_from(rows: Seq<InventoryRow>, checkouts: Seq<LocalCheckout>) -> bool {
    forall|k: int| 0 <= k < rows.len() ==> row_observed_from(#[trigger] rows[k], checkouts)
}

proof fn lemma_observed_kept(before: Seq<InventoryRow>, after: Seq<InventoryRow>, checkouts: Seq<LocalCheckout>)
    requires
        declarations_observed_from(before, checkouts),
        forall|k: int| 0 <= k < after.len() ==> before.contains(#[trigger] after[k]) || !(after[k].key is Declaration),
    ensures
        declarations_observed_from(after, checkouts),
{
    assert forall|k: int| 0 <= k < after.len() implies row_observed_from(#[trigger] after[k], checkouts) by {
        if before.contains(after[k]) {
            let j = choose|j: int| 0 <= j < before.len() && before[j] == after[k];
            assert(row_observed_from(before[j], checkouts));
        }
    }
}

/// Marking conflicts leaves declared rows declared; the rows in any order after it have
/// every conflict marked.
proof fn lemma_marking(
    observed: Seq<InventoryRow>,
    marked: Seq<InventoryRow>,
    ordered: Seq<InventoryRow>,
    concrete: Seq<Concrete>,
    complete: bool,
)
    requires
        rows_declared(observed, concrete, complete),
        marked.len() == observed.len(),
        forall|k: int| 0 <= k < observed.len() ==> if conflicted_row(observed, concrete, concrete.len() as int, #[trigger] observed[k]) {
            marked_from(observed[k], marked[k])
        } else {
            marked[k] == observed[k]
        },
        forall|k: int| 0 <= k < ordered.len() ==> marked.contains(#[trigger] ordered[k]),
    ensures
        rows_declared(ordered, concrete, complete),
        declarations_unobserved(ordered, complete),
        conflicts_marked(ordered),
{
    assert forall|q: int| 0 <= q < marked.len() implies row_declared(#[trigger] marked[q], concrete, complete)
        && marked[q].key == observed[q].key
        && (!(observed[q].key is Declaration) ==> marked[q] == observed[q]) by {
        assert(row_declared(observed[q], concrete, complete));
        if conflicted_row(observed, concrete, concrete.len() as int, observed[q]) {
            let j = choose|j: int| 0 <= j < concrete.len() && row_text(observed[q]) == concrete_text(#[trigger] concrete[j])
                && declaration_in_conflict(observed, concrete[j]);
            lemma_declaration_key(observed[q], concrete[j].identity@, concrete[j].destination@);
        }
    }
    lemma_declared_kept(marked, ordered, concrete, complete);
    assert forall|k: int| 0 <= k < ordered.len() implies ((#[trigger] ordered[k]).key is Declaration && ordered[k].observed_path is None
        ==> ordered[k].branch == unobserved(complete) && ordered[k].changes == unobserved(complete)) by {
        assert(row_declared(ordered[k], concrete, complete));
    }
    assert forall|k: int, m: int| 0 <= k < ordered.len() && 0 <= m < ordered.len() implies ((#[trigger] ordered[k]).key matches RowKey::Declaration { identity, destination }
        && other_checkout_at(#[trigger] ordered[m], destination@, identity@)
        ==> ordered[k].checkout == CheckoutState::Conflict && ordered[k].warnings.deep_view().contains(conflict_warning())) by {
        if let RowKey::Declaration { identity, destination } = ordered[k].key {
            if other_checkout_at(ordered[m], destination@, identity@) {
                let q = choose|q: int| 0 <= q < marked.len() && marked[q] == ordered[k];
                let qm = choose|qm: int| 0 <= qm < marked.len() && marked[qm] == ordered[m];
                assert(marked[qm] == observed[qm]);
                assert(row_declared(observed[q], concrete, complete));
                let j = choose|j: int| 0 <= j < concrete.len() && (#[trigger] concrete[j]).identity@ == identity@ && concrete[j].destination@ == destination@;
                assert(declaration_in_conflict(observed, concrete[j]));
                assert(row_text(observed[q]) == concrete_text(concrete[j]));
                assert(conflicted_row(observed, concrete, concrete.len() as int, observed[q]));
                let after = marked[q];
                let before = observed[q];
                assert(after.warnings@[before.warnings@.len() as int]@ == conflict_warning());
                assert(after.warnings.deep_view()[before.warnings@.len() as int] == conflict_warning());
            }
        }
    }
}

proof fn lemma_declared_kept(before: Seq<InventoryRow>, after: Seq<InventoryRow>, concrete: Seq<Concrete>, complete: bool)
    requires
        rows_declared(before, concrete, complete),
        forall|k: int| 0 <= k < after.len() ==> before.contains(#[trigger] after[k]) || row_declared(after[k], concrete, complete),
    ensures
        rows_declared(after, concrete, complete),
{
    assert forall|k: int| 0 <= k < after.len() implies row_declared(#[trigger] after[k], concrete, complete) by {
        if before.contains(after[k]) {
            let j = choose|j: int| 0 <= j < before.len() && before[j] == after[k];
            assert(row_declared(before[j], concrete, complete));
        }
    }
}

/// Rows made of earlier rows and of rows that are not a checkout's keep every checkout's
/// registration.
proof fn lemma_registered_kept(before: Seq<InventoryRow>, after: Seq<InventoryRow>, ids: Seq<Seq<char>>, ws: Seq<Wildcard>)
    requires
        checkouts_registered(before, ids, ws),
        forall|k: int| 0 <= k < after.len() ==> before.contains(#[trigger] after[k]) || row_registered(after[k], ids, ws),
    ensures
        checkouts_registered(after, ids, ws),
{
    assert forall|k: int| 0 <= k < after.len() implies row_registered(#[trigger] after[k], ids, ws) by {
        if before.contains(after[k]) {
            let j = choose|j: int| 0 <= j < before.len() && before[j] == after[k];
            assert(row_registered(before[j], ids, ws));
        }
    }
}

/// A key's text begins with its kind.
proof fn lemma_key_kind(k: RowKey)
    ensures
        key_text(k).len() > 0,
        key_text(k)[0] == '0' <==> k is Declaration,
        key_text(k)[0] == '3' <==> k is Pattern,
{
    match k {
        RowKey::Declaration { identity, destination } => {
            assert((seq!['0'] + identity@ + seq!['\0'] + path_key(destination@))[0] == '0');
        },
        RowKey::Checkout { identity, path } => {
            assert((seq!['1'] + identity@ + seq!['\0'] + path_key(path@))[0] == '1');
        },
        RowKey::Path(p) => {
            assert((seq!['2'] + path_key(p@))[0] == '2');
        },
        RowKey::Pattern(t) => {
            assert((seq!['3'] + t@)[0] == '3');
        },
    }
}

/// The row whose text is a declaration's is that declaration's row.
proof fn lemma_declaration_key(r: InventoryRow, identity: Seq<char>, destination: Seq<char>)
    requires
        row_text(r) == declaration_text(identity, destination),
    ensures
        r.key is Declaration,
{
    lemma_key_kind(r.key);
    assert(declaration_text(identity, destination)[0] == '0');
}

/// In kinded rows, the row of a declaration's key is explicit and can be marked.
pub proof fn lemma_declared_row_explicit(rows: Seq<InventoryRow>, identity: Seq<char>, destination: Seq<char>)
    requires
        rows_kinded(rows),
        has_key(rows, declaration_text(identity, destination)),
    ensures
        exists|k: int| 0 <= k < rows.len() && row_text(#[trigger] rows[k]) == declaration_text(identity, destination)
            && rows[k].registration is Explicit && rows[k].markable,
{
    let k = choose|k: int| 0 <= k < rows.len() && row_text(#[trigger] rows[k]) == declaration_text(identity, destination);
    lemma_declaration_key(rows[k], identity, destination);
    assert(row_kinded(rows[k]));
}

/// In kinded rows, the row of a pattern's key is the wildcard's own and cannot be marked.
pub proof fn lemma_pattern_row(rows: Seq<InventoryRow>, pattern: Seq<char>)
    requires
        rows_kinded(rows),
        has_key(rows, pattern_text(pattern)),
    ensures
        exists|k: int| 0 <= k < rows.len() && row_text(#[trigger] rows[k]) == pattern_text(pattern)
            && rows[k].registration is Pattern && rows[k].checkout is Pattern && !rows[k].markable,
{
    let k = choose|k: int| 0 <= k < rows.len() && row_text(#[trigger] rows[k]) == pattern_text(pattern);
    lemma_key_kind(rows[k].key);
    assert(pattern_text(pattern)[0] == '3');
    assert(row_kinded(rows[k]));
}

fn path_key_of(p: &str) -> (r: Vec<char>)
    ensures
        r@ == path_key(p@),
{
    let text = chars(p);
    let names = components_of(&text);
    let joined = join_with(&names, &['\0']);
    let lead: Vec<char> = if starts_with(&text, &chars("/")) {
        let mut v: Vec<char> = Vec::new();
        v.push('\0');
        v
    } else {
        Vec::new()
    };
    assert(['\0']@ =~= seq!['\0']);
    assert(lead@ =~= (if is_absolute(p@) { seq!['\0'] } else { Seq::<char>::empty() }));
    concat(&lead, &joined)
}

fn pair_text(kind: char, identity: &str, path: &str) -> (r: Vec<char>)
    ensures
        r@ == seq![kind] + identity@ + seq!['\0'] + path_key(path@),
{
    let mut head: Vec<char> = Vec::new();
    head.push(kind);
    let with_id = concat(&head, &chars(identity));
    let mut sep: Vec<char> = Vec::new();
    sep.push('\0');
    let r = concat(&concat(&with_id, &sep), &path_key_of(path));
    assert(r@ =~= seq![kind] + identity@ + seq!['\0'] + path_key(path@));
    r
}

pub fn key_text_of(k: &RowKey) -> (r: Vec<char>)
    ensures
        r@ == key_text(*k),
{
    match k {
        RowKey::Declaration { identity, destination } => pair_text('0', identity.as_str(), destination.as_str()),
        RowKey::Checkout { identity, path } => pair_text('1', identity.as_str(), path.as_str()),
        RowKey::Path(p) => {
            let mut head: Vec<char> = Vec::new();
            head.push('2');
            let r = concat(&head, &path_key_of(p.as_str()));
            assert(r@ =~= path_text(p@));
            r
        },
        RowKey::Pattern(s) => {
            let mut head: Vec<char> = Vec::new();
            head.push('3');
            let r = concat(&head, &chars(s.as_str()));
            assert(r@ =~= pattern_text(s@));
            r
        },
    }
}

fn find_row(rows: &Vec<InventoryRow>, text: &[char]) -> (r: Option<usize>)
    ensures
        match r {
            Some(i) => i < rows@.len() && row_text(rows@[i as int]) == text@,
            None => !has_key(rows@, text@),
        },
{
    let mut i: usize = 0;
    while i < rows.len()
        invariant
            i <= rows@.len(),
            forall|k: int| 0 <= k < i ==> row_text(#[trigger] rows@[k]) != text@,
        decreases rows.len() - i,
    {
        if equal(&key_text_of(&rows[i].key), text) {
            return Some(i);
        }
        i += 1;
    }
    None
}

/// Puts a row in place of the one with the same key, or adds it.
fn insert_row(rows: &mut Vec<InventoryRow>, row: InventoryRow)
    requires
        keys_distinct(old(rows)@),
    ensures
        keys_distinct(final(rows)@),
        has_key(final(rows)@, row_text(row)),
        forall|t: Seq<char>| has_key(old(rows)@, t) ==> #[trigger] has_key(final(rows)@, t),
        rows_kinded(old(rows)@) && row_kinded(row) ==> rows_kinded(final(rows)@),
        forall|k: int| 0 <= k < final(rows)@.len() ==> #[trigger] final(rows)@[k] == row || old(rows)@.contains(final(rows)@[k]),
{
    let text = key_text_of(&row.key);
    let ghost before = rows@;
    match find_row(rows, &text) {
        Some(i) => {
            rows.set(i, row);
            assert forall|k: int| 0 <= k < rows@.len() implies #[trigger] rows@[k] == row || before.contains(rows@[k]) by {
                if k != i {
                    assert(rows@[k] == before[k]);
                }
            }
            assert forall|t: Seq<char>| has_key(before, t) implies #[trigger] has_key(rows@, t) by {
                let k = choose|k: int| 0 <= k < before.len() && row_text(#[trigger] before[k]) == t;
                assert(row_text(rows@[k]) == t);
            }
            assert(row_text(rows@[i as int]) == text@);
        },
        None => {
            rows.push(row);
            assert forall|k: int| 0 <= k < rows@.len() implies #[trigger] rows@[k] == row || before.contains(rows@[k]) by {
                if k < before.len() {
                    assert(rows@[k] == before[k]);
                }
            }
            assert forall|t: Seq<char>| has_key(before, t) implies #[trigger] has_key(rows@, t) by {
                let k = choose|k: int| 0 <= k < before.len() && row_text(#[trigger] before[k]) == t;
                assert(rows@[k] == before[k]);
            }
            assert forall|a: int, b: int| 0 <= a < b < rows@.len() implies row_text(#[trigger] rows@[a]) != row_text(#[trigger] rows@[b]) by {
                if b == before.len() {
                    assert(rows@[a] == before[a]);
                }
            }
            assert(row_text(rows@[before.len() as int]) == text@);
        },
    }
}

/// Replaces row `i` by a row with the same key.
proof fn lemma_same_key_update(rows: Seq<InventoryRow>, i: int, row: InventoryRow)
    requires
        0 <= i < rows.len(),
        keys_distinct(rows),
        row_text(row) == row_text(rows[i]),
    ensures
        keys_distinct(rows.update(i, row)),
        forall|t: Seq<char>| has_key(rows, t) ==> #[trigger] has_key(rows.update(i, row), t),
{
    let after = rows.update(i, row);
    assert forall|a: int, b: int| 0 <= a < b < after.len() implies row_text(#[trigger] after[a]) != row_text(#[trigger] after[b]) by {
        assert(row_text(after[a]) == row_text(rows[a]));
        assert(row_text(after[b]) == row_text(rows[b]));
    }
    assert forall|t: Seq<char>| has_key(rows, t) implies #[trigger] has_key(after, t) by {
        let k = choose|k: int| 0 <= k < rows.len() && row_text(#[trigger] rows[k]) == t;
        assert(row_text(after[k]) == t);
    }
}

fn not_applicable_or_pending(complete: bool) -> (r: ObservationField)
    ensures
        if complete { r is NotApplicable } else { r is Pending },
        r == unobserved(complete),
{
    if complete {
        ObservationField::NotApplicable
    } else {
        ObservationField::Pending
    }
}

fn declaration_row<F: InventoryFilesystem>(filesystem: &F, declaration: &Concrete, complete: bool) -> (r: InventoryRow)
    ensures
        !(r.key is Checkout),
        row_kinded(r),
        row_text(r) == declaration_text(declaration.identity@, declaration.destination@),
        r.registration is Explicit,
        r.markable,
        r.key matches RowKey::Declaration { identity, destination } && identity@ == declaration.identity@
            && destination@ == declaration.destination@,
        r.observed_path is None && r.branch == unobserved(complete) && r.changes == unobserved(complete),
{
    InventoryRow {
        key: RowKey::Declaration {
            identity: string_of(&chars(declaration.identity.as_str())),
            destination: string_of(&chars(declaration.destination.as_str())),
        },
        repository: string_of(&chars(declaration.identity.as_str())),
        path: string_of(&chars(declaration.destination.as_str())),
        registration: RegistrationState::Explicit,
        checkout: filesystem.destination_state(declaration.destination.as_str()),
        origin: string_of(&chars(declaration.reference.clone_url.as_str())),
        branch: not_applicable_or_pending(complete),
        changes: not_applicable_or_pending(complete),
        configured_destination: Some(string_of(&chars(declaration.destination.as_str()))),
        observed_path: None,
        declaration: Some(string_of(&chars(declaration.url.as_str()))),
        warnings: Vec::new(),
        markable: true,
    }
}

pub open spec fn wildcard_pattern(w: Wildcard) -> Seq<char> {
    spec_identity(w.reference@) + "/*"@
}

fn pattern_row(wildcard: &Wildcard) -> (r: InventoryRow)
    ensures
        !(r.key is Checkout),
        row_kinded(r),
        row_text(r) == pattern_text(wildcard_pattern(*wildcard)),
        r.registration is Pattern,
        r.checkout is Pattern,
        !r.markable,
        r.observed_path is None,
{
    let identity = concat(&chars(wildcard.reference.identity().as_str()), &chars("/*"));
    let mut warnings: Vec<String> = Vec::new();
    let mut i: usize = 0;
    while i < wildcard.exclude.len()
        invariant
            i <= wildcard.exclude@.len(),
        decreases wildcard.exclude.len() - i,
    {
        warnings.push(string_of(&concat(&chars("excludes "), &chars(wildcard.exclude[i].as_str()))));
        i += 1;
    }
    InventoryRow {
        key: RowKey::Pattern(string_of(&identity)),
        repository: string_of(&identity),
        path: string_of(&chars(wildcard.destination.as_str())),
        registration: RegistrationState::Pattern,
        checkout: CheckoutState::Pattern,
        origin: string_of(&chars(wildcard.reference.clone_url.as_str())),
        branch: ObservationField::NotApplicable,
        changes: ObservationField::NotApplicable,
        configured_destination: Some(string_of(&chars(wildcard.destination.as_str()))),
        observed_path: None,
        declaration: Some(string_of(&chars(wildcard.url.as_str()))),
        warnings,
        markable: false,
    }
}

fn pending_row(path: &str) -> (r: InventoryRow)
    ensures
        r.key is Path,
        !(r.key is Checkout),
        row_kinded(r),
        row_text(r) == path_text(path@),
        r.registration is Unregistered,
        r.checkout is Unknown,
{
    InventoryRow {
        key: RowKey::Path(string_of(&chars(path))),
        repository: string_of(&chars(path)),
        path: string_of(&chars(path)),
        registration: RegistrationState::Unregistered,
        checkout: CheckoutState::Unknown,
        origin: string_of(&chars("pending")),
        branch: ObservationField::Pending,
        changes: ObservationField::Pending,
        configured_destination: None,
        observed_path: Some(string_of(&chars(path))),
        declaration: None,
        warnings: Vec::new(),
        markable: true,
    }
}

fn stale_row(path: &str) -> (r: InventoryRow)
    ensures
        r.key is Path,
        !(r.key is Checkout),
        row_kinded(r),
        row_text(r) == path_text(path@),
        r.registration is Unregistered,
        r.checkout is Unknown,
        r.branch is Stale && r.changes is Stale,
{
    let mut warnings: Vec<String> = Vec::new();
    warnings.push(string_of(&chars("Target changed before its Git observation completed")));
    InventoryRow {
        key: RowKey::Path(string_of(&chars(path))),
        repository: string_of(&chars(path)),
        path: string_of(&chars(path)),
        registration: RegistrationState::Unregistered,
        checkout: CheckoutState::Unknown,
        origin: string_of(&chars("stale observation")),
        branch: ObservationField::Stale(string_of(&chars("target changed during observation"))),
        changes: ObservationField::Stale(string_of(&chars("target changed during observation"))),
        configured_destination: None,
        observed_path: Some(string_of(&chars(path))),
        declaration: None,
        warnings,
        markable: true,
    }
}

/// Records what was observed of a declaration's own checkout in its row.
fn observe_declaration(
    rows: &mut Vec<InventoryRow>,
    i: usize,
    stale: bool,
    origin: String,
    branch: ObservationField,
    changes: ObservationField,
    observed: String,
)
    requires
        i < old(rows)@.len(),
        keys_distinct(old(rows)@),
    ensures
        keys_distinct(final(rows)@),
        final(rows)@.len() == old(rows)@.len(),
        forall|t: Seq<char>| has_key(old(rows)@, t) ==> #[trigger] has_key(final(rows)@, t),
        final(rows)@ == old(rows)@.update(
            i as int,
            InventoryRow {
                checkout: if stale { old(rows)@[i as int].checkout } else { CheckoutState::Cloned },
                origin,
                branch,
                changes,
                observed_path: Some(observed),
                ..old(rows)@[i as int]
            },
        ),
{
    let ghost before = rows@;
    let mut row = rows.remove(i);
    if !stale {
        row.checkout = CheckoutState::Cloned;
    }
    row.origin = origin;
    row.branch = branch;
    row.changes = changes;
    row.observed_path = Some(observed);
    rows.insert(i, row);
    proof {
        assert(rows@ =~= before.update(i as int, row));
        lemma_same_key_update(before, i as int, row);
    }
}

pub open spec fn conflict_warning() -> Seq<char> {
    "configured destination contains a different checkout"@
}

/// Some row is a cloned checkout, at the declaration's destination, of another repository.
pub open spec fn declaration_in_conflict(rows: Seq<InventoryRow>, c: Concrete) -> bool {
    exists|m: int| 0 <= m < rows.len() && other_checkout_at(#[trigger] rows[m], c.destination@, c.identity@)
}

/// The row is that of one of the first `n` declarations, and that declaration is in conflict.
pub open spec fn conflicted_row(rows: Seq<InventoryRow>, concrete: Seq<Concrete>, n: int, row: InventoryRow) -> bool {
    exists|i: int| 0 <= i < n && row_text(row) == concrete_text(#[trigger] concrete[i]) && declaration_in_conflict(rows, concrete[i])
}

/// `after` is `before` marked as a conflict: the state is a conflict, and the warnings gained
/// the conflict warning (once per declaration that found it).
pub open spec fn marked_from(before: InventoryRow, after: InventoryRow) -> bool {
    &&& after == (InventoryRow { checkout: CheckoutState::Conflict, warnings: after.warnings, ..before })
    &&& before.warnings@.len() < after.warnings@.len()
    &&& after.warnings@.subrange(0, before.warnings@.len() as int) == before.warnings@
    &&& forall|j: int| before.warnings@.len() <= j < after.warnings@.len() ==> (#[trigger] after.warnings@[j])@ == conflict_warning()
}

/// Marks a declaration's row: its destination holds a different checkout.
fn mark_conflict(rows: &mut Vec<InventoryRow>, i: usize)
    requires
        i < old(rows)@.len(),
        keys_distinct(old(rows)@),
    ensures
        keys_distinct(final(rows)@),
        final(rows)@.len() == old(rows)@.len(),
        forall|t: Seq<char>| has_key(old(rows)@, t) ==> #[trigger] has_key(final(rows)@, t),
        final(rows)@[i as int].checkout is Conflict,
        final(rows)@ == old(rows)@.update(i as int, final(rows)@[i as int]),
        final(rows)@[i as int] == (InventoryRow {
            checkout: CheckoutState::Conflict,
            warnings: final(rows)@[i as int].warnings,
            ..old(rows)@[i as int]
        }),
        final(rows)@[i as int].warnings@.drop_last() == old(rows)@[i as int].warnings@,
        final(rows)@[i as int].warnings@.len() == old(rows)@[i as int].warnings@.len() + 1,
        final(rows)@[i as int].warnings@.last()@ == conflict_warning(),
{
    let ghost before = rows@;
    let mut row = rows.remove(i);
    row.checkout = CheckoutState::Conflict;
    row.warnings.push(string_of(&chars("configured destination contains a different checkout")));
    proof {
        reveal_strlit("configured destination contains a different checkout");
    }
    assert(row.warnings@.drop_last() =~= before[i as int].warnings@);
    rows.insert(i, row);
    proof {
        assert(rows@ =~= before.update(i as int, row));
        lemma_same_key_update(before, i as int, row);
    }
}

pub open spec fn misplaced_text(observed: Seq<char>, configured: Seq<char>) -> Seq<char> {
    "misplaced checkout; found: "@ + observed + "; configured: "@ + configured
}

/// `w` warns that the checkout at `observed` belongs at one of `destinations`.
pub open spec fn misplaced_from(destinations: Seq<Vec<char>>, observed: Seq<char>, w: Seq<char>) -> bool {
    exists|j: int| 0 <= j < destinations.len() && !same_path(#[trigger] destinations[j]@, observed)
        && w == misplaced_text(observed, destinations[j]@)
}

/// The warning says the checkout at `observed` belongs at a path equal to `d`.
pub open spec fn misplaced_of(w: Seq<char>, observed: Seq<char>, d: Seq<char>) -> bool {
    exists|e: Seq<char>| same_path(e, d) && w == #[trigger] misplaced_text(observed, e)
}

/// Some warning says the checkout at `observed` belongs at a path equal to `d`.
pub open spec fn warned_about(ws: Seq<Seq<char>>, observed: Seq<char>, d: Seq<char>) -> bool {
    exists|k: int| 0 <= k < ws.len() && #[trigger] misplaced_of(ws[k], observed, d)
}

/// One warning per distinct configured destination other than the observed path, in path order.
fn misplaced_warnings(destinations: Vec<Vec<char>>, observed: &str) -> (r: Vec<String>)
    ensures
        forall|k: int| 0 <= k < r@.len() ==> misplaced_from(destinations@, observed@, (#[trigger] r@[k])@),
        forall|j: int| 0 <= j < destinations@.len() && !same_path((#[trigger] destinations@[j])@, observed@)
            ==> warned_about(r.deep_view(), observed@, destinations@[j]@),
{
    let ghost original = destinations@;
    let mut rest = destinations;
    let mut keyed: Vec<(Vec<char>, Vec<char>)> = Vec::new();
    while rest.len() > 0
        invariant
            keyed@.len() + rest@.len() == original.len(),
            rest@ == original.subrange(keyed@.len() as int, original.len() as int),
            forall|q: int| 0 <= q < keyed@.len() ==> (#[trigger] keyed@[q]).1 == original[q],
        decreases rest@.len(),
    {
        let destination = rest.remove(0);
        let key = path_key_of(string_of(&destination).as_str());
        keyed.push((key, destination));
    }
    let sorted = sort_keyed(keyed);
    let ghost all = sorted@;
    proof {
        assert forall|q: int| 0 <= q < all.len() implies original.contains((#[trigger] all[q]).1) by {
            assert(all.to_multiset().count(all[q]) > 0);
            assert(keyed@.contains(all[q]));
            let p = choose|p: int| 0 <= p < keyed@.len() && keyed@[p] == all[q];
            assert(original[p] == all[q].1);
        }
    }
    proof {
        assert forall|j: int| 0 <= j < original.len() implies exists|q: int| 0 <= q < all.len() && (#[trigger] all[q]).1 == #[trigger] original[j] by {
            assert(keyed@[j].1 == original[j]);
            assert(keyed@.contains(keyed@[j]));
            assert(keyed@.to_multiset().count(keyed@[j]) > 0);
            assert(all.contains(keyed@[j]));
        }
    }
    let mut warnings: Vec<String> = Vec::new();
    let mut previous: Option<Vec<char>> = None;
    let mut i: usize = 0;
    while i < sorted.len()
        invariant
            i <= sorted@.len(),
            all == sorted@,
            forall|q: int| 0 <= q < all.len() ==> original.contains((#[trigger] all[q]).1),
            forall|k: int| 0 <= k < warnings@.len() ==> misplaced_from(original, observed@, (#[trigger] warnings@[k])@),
            forall|q: int| 0 <= q < i && !same_path((#[trigger] all[q]).1@, observed@) ==> warned_about(warnings.deep_view(), observed@, all[q].1@),
            previous matches Some(p) ==> i > 0 && !same_path(p@, observed@) ==> warned_about(warnings.deep_view(), observed@, p@),
            previous matches Some(p) ==> i > 0 && same_path(p@, all[i - 1].1@),
            i > 0 ==> previous is Some,
        decreases sorted.len() - i,
    {
        let (key, destination) = (&sorted[i].0, &sorted[i].1);
        let repeated = match &previous {
            Some(last) => paths_equal(string_of(last).as_str(), string_of(destination).as_str()),
            None => false,
        };
        let ghost before_all = warnings.deep_view();
        if !repeated {
            let text = string_of(destination);
            if !paths_equal(text.as_str(), observed) {
                let message = concat(&concat(&concat(&chars("misplaced checkout; found: "), &chars(observed)), &chars("; configured: ")), destination);
                let ghost before = warnings@;
                warnings.push(string_of(&message));
                proof {
                    let j = choose|j: int| 0 <= j < original.len() && original[j] == all[i as int].1;
                    assert(!same_path(original[j]@, observed@));
                    assert(misplaced_from(original, observed@, message@));
                    assert forall|k: int| 0 <= k < warnings@.len() implies misplaced_from(original, observed@, (#[trigger] warnings@[k])@) by {
                        if k < before.len() {
                            assert(warnings@[k] == before[k]);
                        }
                    }
                    let now = warnings.deep_view();
                    assert(now =~= before_all.push(message@));
                    assert(now[before_all.len() as int] == message@);
                    assert(message@ =~= misplaced_text(observed@, destination@));
                    assert(same_path(destination@, destination@));
                    assert(misplaced_of(now[before_all.len() as int], observed@, destination@));
                    assert forall|d: Seq<char>| warned_about(before_all, observed@, d) implies warned_about(now, observed@, d) by {
                        let k = choose|k: int| 0 <= k < before_all.len() && #[trigger] misplaced_of(before_all[k], observed@, d);
                        assert(now[k] == before_all[k]);
                    }
                    assert(warned_about(now, observed@, all[i as int].1@));
                }
            }
            previous = Some(slice(destination, 0, destination.len()));
            assert(previous->Some_0@ =~= destination@);
            assert(destination@ == all[i as int].1@);
        } else {
            proof {
                let p = previous->Some_0;
                assert(same_path(p@, all[i as int].1@));
                if !same_path(all[i as int].1@, observed@) {
                    assert(!same_path(p@, observed@));
                    let k = choose|k: int| 0 <= k < before_all.len() && #[trigger] misplaced_of(before_all[k], observed@, p@);
                    let e = choose|e: Seq<char>| same_path(e, p@) && before_all[k] == #[trigger] misplaced_text(observed@, e);
                    assert(misplaced_of(before_all[k], observed@, all[i as int].1@));
                }
            }
        }
        i += 1;
    }
    proof {
        assert forall|j: int| 0 <= j < original.len() && !same_path((#[trigger] original[j])@, observed@)
            implies warned_about(warnings.deep_view(), observed@, original[j]@) by {
            let q = choose|q: int| 0 <= q < all.len() && (#[trigger] all[q]).1 == #[trigger] original[j];
        }
    }
    warnings
}

/// Where the last wildcard that names `id` places it: the wildcard's destination with the
/// name below the wildcard pushed on.
pub open spec fn last_relative_destination(ws: Seq<Wildcard>, id: Seq<char>) -> Option<Seq<char>>
    decreases ws.len(),
{
    if ws.len() == 0 {
        None
    } else {
        match wild_relative(ws.last(), id) {
            Some(rel) => Some(path_push(ws.last().destination@, rel)),
            None => last_relative_destination(ws.drop_last(), id),
        }
    }
}

pub open spec fn path_option_view(o: Option<String>) -> Option<Seq<char>> {
    match o {
        Some(s) => Some(s@),
        None => None,
    }
}

/// Where a checkout of `id` was configured to be: the destination of the first declaration
/// of `id`, else, when a wildcard takes it, where the last wildcard naming it places it.
pub open spec fn checkout_placed(row: InventoryRow, concrete: Seq<Concrete>, ws: Seq<Wildcard>, id: Seq<char>) -> bool {
    &&& (exists|m: int| 0 <= m < concrete.len() && (#[trigger] concrete[m]).identity@ == id) ==> (row.configured_destination matches Some(d)
        && exists|j: int| 0 <= j < concrete.len() && (#[trigger] concrete[j]).identity@ == id && d@ == concrete[j].destination@
            && forall|m: int| 0 <= m < j ==> (#[trigger] concrete[m]).identity@ != id)
    &&& (forall|m: int| 0 <= m < concrete.len() ==> (#[trigger] concrete[m]).identity@ != id) ==> path_option_view(row.configured_destination)
        == (if row.registration is Wildcard { last_relative_destination(ws, id) } else { None })
}

/// A checkout found away from where it was configured, or from another declaration of its
/// repository, is warned about for each such place.
pub open spec fn checkout_misplacement_warned(row: InventoryRow, concrete: Seq<Concrete>, id: Seq<char>, observed: Seq<char>) -> bool {
    &&& forall|m: int| 0 <= m < concrete.len() && (#[trigger] concrete[m]).identity@ == id && !same_path(concrete[m].destination@, observed)
        ==> warned_about(row.warnings.deep_view(), observed, concrete[m].destination@)
    &&& (row.configured_destination matches Some(d) ==> (!same_path(d@, observed) ==> warned_about(row.warnings.deep_view(), observed, d@)))
}

/// `d` is among the paths.
pub open spec fn lists_path(v: Seq<Vec<char>>, d: Seq<char>) -> bool {
    exists|k: int| 0 <= k < v.len() && (#[trigger] v[k])@ == d
}

/// `d` is the destination of a declaration of `identity`.
pub open spec fn declared_destination(concrete: Seq<Concrete>, identity: Seq<char>, d: Seq<char>) -> bool {
    exists|j: int| 0 <= j < concrete.len() && (#[trigger] concrete[j]).identity@ == identity && d == concrete[j].destination@
}

fn same_identity_destinations(concrete: &Vec<Concrete>, identity: &[char]) -> (r: (Vec<Vec<char>>, Option<usize>))
    ensures
        forall|k: int| 0 <= k < r.0@.len() ==> declared_destination(concrete@, identity@, (#[trigger] r.0@[k])@),
        match r.1 {
            Some(j) => j < concrete@.len() && concrete@[j as int].identity@ == identity@ && forall|m: int| 0 <= m < j ==> (#[trigger] concrete@[m]).identity@ != identity@,
            None => forall|m: int| 0 <= m < concrete@.len() ==> (#[trigger] concrete@[m]).identity@ != identity@,
        },
        forall|m: int| 0 <= m < concrete@.len() && (#[trigger] concrete@[m]).identity@ == identity@
            ==> lists_path(r.0@, concrete@[m].destination@),
{
    let mut destinations: Vec<Vec<char>> = Vec::new();
    let mut first: Option<usize> = None;
    let mut i: usize = 0;
    while i < concrete.len()
        invariant
            i <= concrete@.len(),
            forall|k: int| 0 <= k < destinations@.len() ==> declared_destination(concrete@, identity@, (#[trigger] destinations@[k])@),
            match first {
                Some(j) => j < i && concrete@[j as int].identity@ == identity@ && forall|m: int| 0 <= m < j ==> (#[trigger] concrete@[m]).identity@ != identity@,
                None => forall|m: int| 0 <= m < i ==> (#[trigger] concrete@[m]).identity@ != identity@,
            },
            forall|m: int| 0 <= m < i && (#[trigger] concrete@[m]).identity@ == identity@
                ==> exists|k: int| 0 <= k < destinations@.len() && (#[trigger] destinations@[k])@ == concrete@[m].destination@,
        decreases concrete.len() - i,
    {
        if equal(&chars(concrete[i].identity.as_str()), identity) {
            let ghost before = destinations@;
            let d = chars(concrete[i].destination.as_str());
            assert(declared_destination(concrete@, identity@, d@));
            destinations.push(d);
            assert forall|m: int| 0 <= m < i + 1 && (#[trigger] concrete@[m]).identity@ == identity@
                implies exists|k: int| 0 <= k < destinations@.len() && (#[trigger] destinations@[k])@ == concrete@[m].destination@ by {
                if m < i {
                    let k = choose|k: int| 0 <= k < before.len() && (#[trigger] before[k])@ == concrete@[m].destination@;
                    assert(destinations@[k] == before[k]);
                } else {
                    assert(destinations@[before.len() as int]@ == concrete@[m].destination@);
                }
            }
            assert forall|k: int| 0 <= k < destinations@.len() implies declared_destination(concrete@, identity@, (#[trigger] destinations@[k])@) by {
                if k < before.len() {
                    assert(destinations@[k] == before[k]);
                }
            }
            if first.is_none() {
                first = Some(i);
            }
        }
        i += 1;
    }
    assert forall|m: int| 0 <= m < concrete@.len() && (#[trigger] concrete@[m]).identity@ == identity@
        implies lists_path(destinations@, concrete@[m].destination@) by {
        assert(m < i);
    }
    (destinations, first)
}

/// The row of a checkout whose origin reads as a repository but which is not a
/// declaration's own checkout.
#[verifier::spinoff_prover]
#[verifier::rlimit(100)]
fn checkout_row(
    concrete: &Vec<Concrete>,
    wildcards: &Vec<Wildcard>,
    explicit: bool,
    identity: Vec<char>,
    observed: String,
    origin: &OriginFact,
    branch: ObservationField,
    changes: ObservationField,
    stale: bool,
) -> (r: InventoryRow)
    ensures
        r.key matches RowKey::Checkout { identity: found, path } && found@ == identity@ && path@ == observed@,
        ends_with(r.warnings.deep_view(), relationships(wildcards@, identity@)),
        row_kinded(r),
        row_text(r) == checkout_text(identity@, observed@),
        registration_settled(explicit, wildcards@, identity@, r.registration),
        r.checkout == (if stale { CheckoutState::Unknown } else { CheckoutState::Cloned }),
        r.markable,
        checkout_placed(r, concrete@, wildcards@, identity@),
        checkout_misplacement_warned(r, concrete@, identity@, observed@),
{
    let (mut destinations, first) = same_identity_destinations(concrete, &identity);
    let (registration, relationships) = registration_for(&identity, wildcards, explicit);
    let takes_wildcard = match &registration {
        RegistrationState::Wildcard { .. } => true,
        _ => false,
    };
    let mut wildcard_destination: Option<Vec<char>> = None;
    if takes_wildcard {
        let mut i: usize = 0;
        assert(wildcards@.subrange(0, 0) =~= Seq::<Wildcard>::empty());
        while i < wildcards.len()
            invariant
                i <= wildcards@.len(),
                match wildcard_destination {
                    Some(d) => last_relative_destination(wildcards@.subrange(0, i as int), identity@) == Some(d@),
                    None => last_relative_destination(wildcards@.subrange(0, i as int), identity@) is None,
                },
            decreases wildcards.len() - i,
        {
            assert(wildcards@.subrange(0, i + 1).drop_last() =~= wildcards@.subrange(0, i as int));
            assert(wildcards@.subrange(0, i + 1).last() == wildcards@[i as int]);
            if let Some(relative) = wildcard_relative(&wildcards[i].reference, &identity) {
                wildcard_destination = Some(crate::domain::repository::push_path(&chars(wildcards[i].destination.as_str()), &relative));
            }
            i += 1;
        }
        assert(wildcards@.subrange(0, wildcards@.len() as int) =~= wildcards@);
    }
    let configured: Option<Vec<char>> = match first {
        Some(j) => Some(chars(concrete[j].destination.as_str())),
        None => wildcard_destination,
    };
    let ghost declared = destinations@;
    if let Some(path) = &configured {
        destinations.push(slice(path, 0, path.len()));
        assert(destinations@[declared.len() as int]@ =~= path@);
    }
    let ghost listed = destinations@;
    let mut warnings = misplaced_warnings(destinations, observed.as_str());
    let ghost found = warnings.deep_view();
    proof {
        assert forall|m: int| 0 <= m < concrete@.len() && (#[trigger] concrete@[m]).identity@ == identity@ && !same_path(concrete@[m].destination@, observed@)
            implies warned_about(found, observed@, concrete@[m].destination@) by {
            let k = choose|k: int| 0 <= k < declared.len() && (#[trigger] declared[k])@ == concrete@[m].destination@;
            assert(listed[k] == declared[k]);
        }
        if configured is Some {
            let path = configured->Some_0;
            if !same_path(path@, observed@) {
                assert(listed[declared.len() as int]@ == path@);
            }
        }
    }
    if let Some(warning) = origin.warning() {
        warnings.push(warning);
    }
    let ghost lead = warnings.deep_view();
    let ghost rel = relationships.deep_view();
    let mut k: usize = 0;
    assert(rel.subrange(0, 0) =~= Seq::<Seq<char>>::empty());
    assert(warnings.deep_view() =~= lead + rel.subrange(0, 0));
    while k < relationships.len()
        invariant
            k <= relationships@.len(),
            rel == relationships.deep_view(),
            warnings.deep_view() == lead + rel.subrange(0, k as int),
        decreases relationships.len() - k,
    {
        let ghost before = warnings.deep_view();
        let text = string_of(&chars(relationships[k].as_str()));
        warnings.push(text);
        assert(rel[k as int] == relationships@[k as int]@);
        assert(warnings.deep_view() =~= before.push(text@));
        assert(rel.subrange(0, k + 1) =~= rel.subrange(0, k as int).push(rel[k as int]));
        k += 1;
    }
    assert(rel.subrange(0, rel.len() as int) =~= rel);
    assert((lead + rel).subrange(lead.len() as int, (lead + rel).len() as int) =~= rel);
    proof {
        let all_warnings = warnings.deep_view();
        assert(all_warnings.len() >= found.len());
        assert forall|q: int| 0 <= q < found.len() implies #[trigger] all_warnings[q] == found[q] by {
            assert(lead[q] == found[q]);
        }
        assert forall|d: Seq<char>| warned_about(found, observed@, d) implies warned_about(all_warnings, observed@, d) by {
            let q = choose|q: int| 0 <= q < found.len() && #[trigger] misplaced_of(found[q], observed@, d);
            assert(all_warnings[q] == found[q]);
        }
    }
    let declaration = match first {
        Some(j) => Some(string_of(&chars(concrete[j].url.as_str()))),
        None => None,
    };
    InventoryRow {
        key: RowKey::Checkout { identity: string_of(&identity), path: string_of(&chars(observed.as_str())) },
        repository: string_of(&identity),
        path: string_of(&chars(observed.as_str())),
        registration,
        checkout: if stale {
            CheckoutState::Unknown
        } else {
            CheckoutState::Cloned
        },
        origin: origin.display(),
        branch,
        changes,
        configured_destination: match configured {
            Some(path) => Some(string_of(&path)),
            None => None,
        },
        observed_path: Some(observed),
        declaration,
        warnings,
        markable: true,
    }
}

/// The row of a checkout whose origin does not read as a repository: its identity is its path.
fn path_row(observed: String, origin: &OriginFact, branch: ObservationField, changes: ObservationField, stale: bool) -> (r: InventoryRow)
    ensures
        !(r.key is Checkout),
        row_kinded(r),
        row_text(r) == path_text(observed@),
        r.registration is Unregistered,
        r.checkout == (if stale { CheckoutState::Unknown } else { CheckoutState::Cloned }),
{
    let mut warnings: Vec<String> = Vec::new();
    warnings.push(string_of(&chars("Identity is the exact path")));
    if let Some(warning) = origin.warning() {
        warnings.push(warning);
    }
    InventoryRow {
        key: RowKey::Path(string_of(&chars(observed.as_str()))),
        repository: origin.display(),
        path: string_of(&chars(observed.as_str())),
        registration: RegistrationState::Unregistered,
        checkout: if stale {
            CheckoutState::Unknown
        } else {
            CheckoutState::Cloned
        },
        origin: origin.display(),
        branch,
        changes,
        configured_destination: None,
        observed_path: Some(observed),
        declaration: None,
        warnings,
        markable: true,
    }
}

// ---------------------------------------------------------------------------
// Building the inventory
// ---------------------------------------------------------------------------

pub open spec fn concrete_text(c: Concrete) -> Seq<char> {
    declaration_text(c.identity@, c.destination@)
}

/// The key of the row a declaration gives, when it reads.
pub open spec fn declaration_row_text(c: ConfigView, root: Seq<char>, d: DeclView) -> Option<Seq<char>> {
    match spec_parse(d.url) {
        Ok(v) => Some(
            if v.wildcard {
                pattern_text(spec_identity(v) + "/*"@)
            } else {
                declaration_text(spec_identity(v), spec_configured_destination(c, v, root))
            },
        ),
        Err(_) => None,
    }
}

pub open spec fn listed_in(cs: Seq<Concrete>, ws: Seq<Wildcard>, t: Seq<char>) -> bool {
    ||| exists|k: int| 0 <= k < cs.len() && concrete_text(#[trigger] cs[k]) == t
    ||| exists|k: int| 0 <= k < ws.len() && pattern_text(wildcard_pattern(#[trigger] ws[k])) == t
}

pub open spec fn some_declaration_unreadable(c: ConfigView) -> bool {
    exists|i: int| 0 <= i < c.repositories.len() && spec_parse((#[trigger] c.repositories[i]).url) is Err
}

/// The wildcard declarations, in their order.
pub open spec fn wildcard_decls(ds: Seq<DeclView>) -> Seq<DeclView>
    decreases ds.len(),
{
    if ds.len() == 0 {
        Seq::empty()
    } else {
        let prev = wildcard_decls(ds.drop_last());
        match spec_parse(ds.last().url) {
            Ok(v) => if v.wildcard {
                prev.push(ds.last())
            } else {
                prev
            },
            Err(_) => prev,
        }
    }
}

/// `ws` holds the wildcard declarations of `c`, in order: each by its URL, its repository
/// and its exclusions.
pub open spec fn wildcards_of(c: ConfigView, ws: Seq<Wildcard>) -> bool {
    let wd = wildcard_decls(c.repositories);
    &&& ws.len() == wd.len()
    &&& forall|k: int| 0 <= k < ws.len() ==> (#[trigger] ws[k]).url@ == wd[k].url
        && spec_parse(wd[k].url) == Ok::<RefView, RefErrView>(ws[k].reference@)
        && ws[k].exclude.deep_view() == wd[k].exclude
}

pub open spec fn concrete_ids(cs: Seq<Concrete>) -> Seq<Seq<char>> {
    cs.map_values(|c: Concrete| c.identity@)
}

/// The repositories of the explicit declarations, in their order.
pub open spec fn explicit_refs(ds: Seq<DeclView>) -> Seq<RefView>
    decreases ds.len(),
{
    if ds.len() == 0 {
        Seq::empty()
    } else {
        let prev = explicit_refs(ds.drop_last());
        match spec_parse(ds.last().url) {
            Ok(v) => if v.wildcard {
                prev
            } else {
                prev.push(v)
            },
            Err(_) => prev,
        }
    }
}

/// `cs` holds the explicit declarations of `c`, in order: each by its repository, its
/// identity and its configured destination under `root`.
pub open spec fn concretes_of(c: ConfigView, root: Seq<char>, cs: Seq<Concrete>) -> bool {
    let refs = explicit_refs(c.repositories);
    &&& cs.len() == refs.len()
    &&& forall|k: int| 0 <= k < cs.len() ==> (#[trigger] cs[k]).reference@ == refs[k] && cs[k].identity@ == spec_identity(refs[k])
        && cs[k].destination@ == spec_configured_destination(c, refs[k], root)
}

/// Each wildcard declaration carries its configured destination under `root`.
pub open spec fn wildcards_placed(c: ConfigView, root: Seq<char>, ws: Seq<Wildcard>) -> bool {
    forall|k: int| 0 <= k < ws.len() ==> (#[trigger] ws[k]).destination@ == spec_configured_destination(c, ws[k].reference@, root)
}

/// A checkout's row carries where its repository was configured to be, and warns where it
/// was found elsewhere.
pub open spec fn row_placed(row: InventoryRow, cs: Seq<Concrete>, ws: Seq<Wildcard>) -> bool {
    row.key matches RowKey::Checkout { identity, path } ==> checkout_placed(row, cs, ws, identity@)
        && checkout_misplacement_warned(row, cs, identity@, path@)
}

pub open spec fn checkouts_placed(rows: Seq<InventoryRow>, cs: Seq<Concrete>, ws: Seq<Wildcard>) -> bool {
    forall|k: int| 0 <= k < rows.len() ==> row_placed(#[trigger] rows[k], cs, ws)
}

proof fn lemma_placed_kept(before: Seq<InventoryRow>, after: Seq<InventoryRow>, cs: Seq<Concrete>, ws: Seq<Wildcard>)
    requires
        checkouts_placed(before, cs, ws),
        forall|k: int| 0 <= k < after.len() ==> before.contains(#[trigger] after[k]) || row_placed(after[k], cs, ws),
    ensures
        checkouts_placed(after, cs, ws),
{
    assert forall|k: int| 0 <= k < after.len() implies row_placed(#[trigger] after[k], cs, ws) by {
        if before.contains(after[k]) {
            let j = choose|j: int| 0 <= j < before.len() && before[j] == after[k];
            assert(row_placed(before[j], cs, ws));
        }
    }
}

fn classify_declarations(config: &Config, root: &[char]) -> (r: Result<(Vec<Concrete>, Vec<Wildcard>), String>)
    ensures
        r matches Ok(split) ==> wildcards_of(config@, split.1@) && concrete_ids(split.0@) == explicit_list(config@.repositories),
        r is Err <==> some_declaration_unreadable(config@),
        r matches Ok(split) ==> forall|i: int| 0 <= i < config@.repositories.len() ==> (declaration_row_text(config@, root@, #[trigger] config@.repositories[i])
            matches Some(t) ==> listed_in(split.0@, split.1@, t)),
        r matches Ok(split) ==> forall|k: int| 0 <= k < split.0@.len() ==> (#[trigger] split.0@[k]).identity@ == spec_identity(split.0@[k].reference@),
        r matches Ok(split) ==> concretes_of(config@, root@, split.0@) && wildcards_placed(config@, root@, split.1@),
{
    let ghost decls = config@.repositories;
    let mut concrete: Vec<Concrete> = Vec::new();
    let mut wildcards: Vec<Wildcard> = Vec::new();
    let mut i: usize = 0;
    while i < config.repositories.len()
        invariant
            i <= config.repositories@.len(),
            decls == config@.repositories,
            decls.len() == config.repositories@.len(),
            forall|j: int| 0 <= j < i ==> spec_parse((#[trigger] decls[j]).url) is Ok,
            forall|j: int| 0 <= j < i ==> (declaration_row_text(config@, root@, #[trigger] decls[j]) matches Some(t) ==> listed_in(concrete@, wildcards@, t)),
            forall|k: int| 0 <= k < concrete@.len() ==> (#[trigger] concrete@[k]).identity@ == spec_identity(concrete@[k].reference@),
            wildcards_of(ConfigView { repositories: decls.subrange(0, i as int), ..config@ }, wildcards@),
            concrete_ids(concrete@) == explicit_list(decls.subrange(0, i as int)),
            concrete@.len() == explicit_refs(decls.subrange(0, i as int)).len(),
            forall|k: int| 0 <= k < concrete@.len() ==> (#[trigger] concrete@[k]).reference@ == explicit_refs(decls.subrange(0, i as int))[k]
                && concrete@[k].destination@ == spec_configured_destination(config@, concrete@[k].reference@, root@),
            wildcards_placed(config@, root@, wildcards@),
        decreases config.repositories.len() - i,
    {
        let declaration = &config.repositories[i];
        assert(decls[i as int] == declaration@);
        assert(decls.subrange(0, i + 1).drop_last() =~= decls.subrange(0, i as int));
        assert(decls.subrange(0, i + 1).last() == decls[i as int]);
        let ghost wd0 = wildcard_decls(decls.subrange(0, i as int));
        let ghost ids0 = concrete_ids(concrete@);
        let reference = match RepositoryRef::parse(declaration.url.as_str()) {
            Ok(reference) => reference,
            Err(error) => return Err(error.message()),
        };
        let destination = string_of(&configured_destination(config, &reference, root));
        let ghost cs = concrete@;
        let ghost ws = wildcards@;
        if reference.wildcard {
            let w = Wildcard {
                reference,
                url: string_of(&chars(declaration.url.as_str())),
                exclude: copy_strings(&declaration.exclude),
                destination,
            };
            wildcards.push(w);
            proof {
                assert(explicit_refs(decls.subrange(0, i + 1)) == explicit_refs(decls.subrange(0, i as int)));
                assert(wildcard_decls(decls.subrange(0, i + 1)) == wd0.push(decls[i as int]));
                assert(concrete_ids(concrete@) == explicit_list(decls.subrange(0, i + 1)));
                assert forall|k: int| 0 <= k < wildcards@.len() implies (#[trigger] wildcards@[k]).url@ == wildcard_decls(decls.subrange(0, i + 1))[k].url
                    && spec_parse(wildcard_decls(decls.subrange(0, i + 1))[k].url) == Ok::<RefView, RefErrView>(wildcards@[k].reference@)
                    && wildcards@[k].exclude.deep_view() == wildcard_decls(decls.subrange(0, i + 1))[k].exclude by {
                    if k < ws.len() {
                        assert(wildcards@[k] == ws[k]);
                    }
                }
                assert(pattern_text(wildcard_pattern(wildcards@[ws.len() as int])) == declaration_row_text(config@, root@, decls[i as int])->Some_0);
                assert forall|t: Seq<char>| listed_in(cs, ws, t) implies listed_in(concrete@, wildcards@, t) by {
                    if exists|k: int| 0 <= k < ws.len() && pattern_text(wildcard_pattern(#[trigger] ws[k])) == t {
                        let k = choose|k: int| 0 <= k < ws.len() && pattern_text(wildcard_pattern(#[trigger] ws[k])) == t;
                        assert(wildcards@[k] == ws[k]);
                    }
                }
            }
        } else {
            let ghost reference_view = reference@;
            let identity = reference.identity();
            let c = Concrete { reference, identity, url: string_of(&chars(declaration.url.as_str())), destination };
            concrete.push(c);
            proof {
                assert(explicit_refs(decls.subrange(0, i + 1)) == explicit_refs(decls.subrange(0, i as int)).push(reference_view));
                assert(wildcard_decls(decls.subrange(0, i + 1)) == wd0);
                assert(concrete_ids(concrete@) =~= ids0.push(spec_identity(reference_view)));
                assert(explicit_list(decls.subrange(0, i + 1)) == explicit_list(decls.subrange(0, i as int)).push(spec_identity(reference_view)));
                assert(concrete_text(concrete@[cs.len() as int]) == declaration_row_text(config@, root@, decls[i as int])->Some_0);
                assert forall|t: Seq<char>| listed_in(cs, ws, t) implies listed_in(concrete@, wildcards@, t) by {
                    if exists|k: int| 0 <= k < cs.len() && concrete_text(#[trigger] cs[k]) == t {
                        let k = choose|k: int| 0 <= k < cs.len() && concrete_text(#[trigger] cs[k]) == t;
                        assert(concrete@[k] == cs[k]);
                    }
                }
            }
        }
        i += 1;
    }
    assert(decls.subrange(0, decls.len() as int) =~= decls);
    assert(ConfigView { repositories: decls, ..config@ } == config@);
    assert(concretes_of(config@, root@, concrete@));
    Ok((concrete, wildcards))
}

/// A checkout that reads as repository `id` at `p` has a row: its own, or that of the
/// declaration whose destination it is.
pub open spec fn checkout_listed(rows: Seq<InventoryRow>, id: Seq<char>, p: Seq<char>) -> bool {
    ||| has_key(rows, checkout_text(id, p))
    ||| exists|d: Seq<char>| same_path(d, p) && #[trigger] has_key(rows, declaration_text(id, d))
}

/// Some checkout was observed at `p`.
pub open spec fn observed_at(checkouts: Seq<LocalCheckout>, p: Seq<char>) -> bool {
    exists|j: int| 0 <= j < checkouts.len() && same_path((#[trigger] checkouts[j]).path@, p)
}

/// Every declaration, wildcard, pending or stale path and checkout has its row; rows come
/// in key order, each key once.
pub open spec fn inventory_settled(c: ConfigView, root: Seq<char>, scan: LocalScan, rows: Seq<InventoryRow>) -> bool {
    &&& forall|a: int, b: int| 0 <= a < b < rows.len() ==> lex_le(row_text(#[trigger] rows[a]), row_text(#[trigger] rows[b]))
    &&& keys_distinct(rows)
    &&& forall|i: int| 0 <= i < c.repositories.len() ==> (declaration_row_text(c, root, #[trigger] c.repositories[i]) matches Some(t)
        ==> has_key(rows, t))
    &&& forall|i: int| 0 <= i < scan.stale_paths@.len() ==> has_key(rows, path_text((#[trigger] scan.stale_paths@[i])@))
    &&& forall|i: int| 0 <= i < scan.pending_paths@.len() ==> observed_at(scan.checkouts@, (#[trigger] scan.pending_paths@[i])@)
        || has_key(rows, path_text(scan.pending_paths@[i]@))
    &&& forall|i: int| 0 <= i < scan.checkouts@.len() ==> match (#[trigger] scan.checkouts@[i]).identity {
        Some(id) => checkout_listed(rows, id@, scan.checkouts@[i].path@),
        None => has_key(rows, path_text(scan.checkouts@[i].path@)),
    }
}

fn is_stale(field: &ObservationField) -> (r: bool)
    ensures
        r == (*field is Stale),
{
    match field {
        ObservationField::Stale(_) => true,
        _ => false,
    }
}

fn observed_somewhere(checkouts: &Vec<LocalCheckout>, path: &str) -> (r: bool)
    ensures
        r == observed_at(checkouts@, path@),
{
    let mut i: usize = 0;
    while i < checkouts.len()
        invariant
            i <= checkouts@.len(),
            forall|j: int| 0 <= j < i ==> !same_path((#[trigger] checkouts@[j]).path@, path@),
        decreases checkouts.len() - i,
    {
        if paths_equal(checkouts[i].path.as_str(), path) {
            return true;
        }
        i += 1;
    }
    false
}

/// The declaration whose own checkout this is: same identity, destination at the path.
fn exact_declaration(concrete: &Vec<Concrete>, identity: &[char], observed: &str) -> (r: Option<usize>)
    ensures
        r matches Some(j) ==> j < concrete@.len() && concrete@[j as int].identity@ == identity@ && same_path(concrete@[j as int].destination@, observed@),
        r matches Some(j) ==> forall|k: int| 0 <= k < j ==> !((#[trigger] concrete@[k]).identity@ == identity@ && same_path(concrete@[k].destination@, observed@)),
        r is None ==> forall|k: int| 0 <= k < concrete@.len() ==> !((#[trigger] concrete@[k]).identity@ == identity@ && same_path(concrete@[k].destination@, observed@)),
{
    let mut i: usize = 0;
    while i < concrete.len()
        invariant
            i <= concrete@.len(),
            forall|k: int| 0 <= k < i ==> !((#[trigger] concrete@[k]).identity@ == identity@ && same_path(concrete@[k].destination@, observed@)),
        decreases concrete.len() - i,
    {
        if equal(&chars(concrete[i].identity.as_str()), identity) && paths_equal(concrete[i].destination.as_str(), observed) {
            return Some(i);
        }
        i += 1;
    }
    None
}

/// The row is a cloned checkout at `destination` of a repository other than `identity`.
pub open spec fn other_checkout_at(row: InventoryRow, destination: Seq<char>, identity: Seq<char>) -> bool {
    &&& row.observed_path matches Some(p) && same_path(p@, destination)
    &&& row.checkout == CheckoutState::Cloned
    &&& row.key matches RowKey::Checkout { identity: found, .. } && found@ != identity
}

/// A row whose checkout at `destination` reads as a repository other than `identity`.
fn holds_other_checkout(rows: &Vec<InventoryRow>, destination: &str, identity: &str) -> (r: bool)
    ensures
        r == exists|k: int| 0 <= k < rows@.len() && other_checkout_at(#[trigger] rows@[k], destination@, identity@),
{
    let mut i: usize = 0;
    while i < rows.len()
        invariant
            i <= rows@.len(),
            forall|k: int| 0 <= k < i ==> !other_checkout_at(#[trigger] rows@[k], destination@, identity@),
        decreases rows.len() - i,
    {
        let row = &rows[i];
        let here = match &row.observed_path {
            Some(path) => paths_equal(path.as_str(), destination),
            None => false,
        };
        let other = match &row.key {
            RowKey::Checkout { identity: found, .. } => !equal(&chars(found.as_str()), &chars(identity)),
            _ => false,
        };
        if here && row.checkout == CheckoutState::Cloned && other {
            return true;
        }
        i += 1;
    }
    false
}

/// Puts the rows in key order.
fn order_rows(rows: Vec<InventoryRow>) -> (r: Vec<InventoryRow>)
    requires
        keys_distinct(rows@),
    ensures
        keys_distinct(r@),
        forall|a: int, b: int| 0 <= a < b < r@.len() ==> lex_le(row_text(#[trigger] r@[a]), row_text(#[trigger] r@[b])),
        forall|t: Seq<char>| has_key(rows@, t) ==> #[trigger] has_key(r@, t),
        rows_kinded(rows@) ==> rows_kinded(r@),
        forall|k: int| 0 <= k < r@.len() ==> rows@.contains(#[trigger] r@[k]),
{
    let ghost original = rows@;
    let mut rest = rows;
    let mut keyed: Vec<(Vec<char>, InventoryRow)> = Vec::new();
    while rest.len() > 0
        invariant
            keyed@.len() + rest@.len() == original.len(),
            rest@ == original.subrange(keyed@.len() as int, original.len() as int),
            forall|q: int| 0 <= q < keyed@.len() ==> (#[trigger] keyed@[q]).1 == original[q] && keyed@[q].0@ == row_text(original[q]),
        decreases rest@.len(),
    {
        let row = rest.remove(0);
        let key = key_text_of(&row.key);
        keyed.push((key, row));
    }
    let sorted = sort_keyed(keyed);
    let ghost all = sorted@;
    proof {
        assert forall|q: int| 0 <= q < all.len() implies (#[trigger] all[q]).0@ == row_text(all[q].1) by {
            assert(all.to_multiset().count(all[q]) > 0);
            assert(keyed@.contains(all[q]));
        }
        assert forall|p: int| 0 <= p < original.len() implies exists|q: int| 0 <= q < all.len() && (#[trigger] all[q]).1 == #[trigger] original[p] by {
            assert(keyed@[p].1 == original[p]);
            assert(keyed@.contains(keyed@[p]));
            assert(all.to_multiset().count(keyed@[p]) > 0);
            assert(all.contains(keyed@[p]));
        }
    }
    let mut out: Vec<InventoryRow> = Vec::new();
    let mut rest = sorted;
    while rest.len() > 0
        invariant
            out@.len() + rest@.len() == all.len(),
            rest@ == all.subrange(out@.len() as int, all.len() as int),
            forall|k: int| 0 <= k < out@.len() ==> #[trigger] out@[k] == all[k].1,
        decreases rest@.len(),
    {
        let (_, row) = rest.remove(0);
        out.push(row);
    }
    proof {
        assert forall|a: int, b: int| 0 <= a < b < out@.len() implies lex_le(row_text(#[trigger] out@[a]), row_text(#[trigger] out@[b])) by {
            assert(lex_le(all[a].0@, all[b].0@));
        }
        assert forall|t: Seq<char>| has_key(original, t) implies #[trigger] has_key(out@, t) by {
            let p = choose|p: int| 0 <= p < original.len() && row_text(#[trigger] original[p]) == t;
            let q = choose|q: int| 0 <= q < all.len() && (#[trigger] all[q]).1 == #[trigger] original[p];
            assert(row_text(out@[q]) == t);
        }
        assert(crate::order::keys_distinct_seq(keyed@)) by {
            assert forall|a: int, b: int| 0 <= a < b < keyed@.len() implies (#[trigger] keyed@[a]).0@ != (#[trigger] keyed@[b]).0@ by {
                assert(row_text(original[a]) != row_text(original[b]));
            }
        }
        crate::order::lemma_permutation_keys_distinct(keyed@, all);
        assert forall|k: int| 0 <= k < out@.len() implies original.contains(#[trigger] out@[k]) by {
            assert(all.to_multiset().count(all[k]) > 0);
            assert(keyed@.contains(all[k]));
            let p = choose|p: int| 0 <= p < keyed@.len() && keyed@[p] == all[k];
            assert(original[p] == out@[k]);
        }
        if rows_kinded(original) {
            assert forall|k: int| 0 <= k < out@.len() implies row_kinded(#[trigger] out@[k]) by {
                assert(all.to_multiset().count(all[k]) > 0);
                assert(keyed@.contains(all[k]));
                let p = choose|p: int| 0 <= p < keyed@.len() && keyed@[p] == all[k];
                assert(row_kinded(original[p]));
            }
        }
        assert forall|a: int, b: int| 0 <= a < b < out@.len() implies row_text(#[trigger] out@[a]) != row_text(#[trigger] out@[b]) by {
            assert(all[a].0@ != all[b].0@);
        }
    }
    out
}

fn declared_rows<F: InventoryFilesystem>(filesystem: &F, concrete: &Vec<Concrete>, wildcards: &Vec<Wildcard>, complete: bool) -> (r: Vec<InventoryRow>)
    ensures
        keys_distinct(r@),
        forall|k: int| 0 <= k < concrete@.len() ==> has_key(r@, concrete_text(#[trigger] concrete@[k])),
        forall|k: int| 0 <= k < wildcards@.len() ==> has_key(r@, pattern_text(wildcard_pattern(#[trigger] wildcards@[k]))),
        rows_kinded(r@),
        forall|k: int| 0 <= k < r@.len() ==> !((#[trigger] r@[k]).key is Checkout) && r@[k].observed_path is None,
        rows_declared(r@, concrete@, complete),
{
    let mut rows: Vec<InventoryRow> = Vec::new();
    let mut i: usize = 0;
    while i < concrete.len()
        invariant
            i <= concrete@.len(),
            keys_distinct(rows@),
            rows_kinded(rows@),
            forall|k: int| 0 <= k < rows@.len() ==> !((#[trigger] rows@[k]).key is Checkout) && rows@[k].observed_path is None,
            rows_declared(rows@, concrete@, complete),
            forall|k: int| 0 <= k < i ==> has_key(rows@, concrete_text(#[trigger] concrete@[k])),
        decreases concrete.len() - i,
    {
        let row = declaration_row(filesystem, &concrete[i], complete);
        assert(row_declared(row, concrete@, complete)) by {
            assert(concrete@[i as int] == concrete[i as int]);
        }
        let ghost before = rows@;
        insert_row(&mut rows, row);
        proof {
            lemma_declared_kept(before, rows@, concrete@, complete);
        }
        assert forall|k: int| 0 <= k < rows@.len() implies !((#[trigger] rows@[k]).key is Checkout) && rows@[k].observed_path is None by {
            if rows@[k] != row {
                let j = choose|j: int| 0 <= j < before.len() && before[j] == rows@[k];
            }
        }
        i += 1;
    }
    let mut j: usize = 0;
    while j < wildcards.len()
        invariant
            j <= wildcards@.len(),
            keys_distinct(rows@),
            rows_kinded(rows@),
            forall|k: int| 0 <= k < rows@.len() ==> !((#[trigger] rows@[k]).key is Checkout) && rows@[k].observed_path is None,
            rows_declared(rows@, concrete@, complete),
            forall|k: int| 0 <= k < concrete@.len() ==> has_key(rows@, concrete_text(#[trigger] concrete@[k])),
            forall|k: int| 0 <= k < j ==> has_key(rows@, pattern_text(wildcard_pattern(#[trigger] wildcards@[k]))),
        decreases wildcards.len() - j,
    {
        let row = pattern_row(&wildcards[j]);
        let ghost before = rows@;
        insert_row(&mut rows, row);
        proof {
            lemma_declared_kept(before, rows@, concrete@, complete);
        }
        assert forall|k: int| 0 <= k < rows@.len() implies !((#[trigger] rows@[k]).key is Checkout) && rows@[k].observed_path is None by {
            if rows@[k] != row {
                let q = choose|q: int| 0 <= q < before.len() && before[q] == rows@[k];
            }
        }
        j += 1;
    }
    rows
}

fn add_scan_paths(rows: &mut Vec<InventoryRow>, pending: &Vec<String>, stale: &Vec<String>, checkouts: &Vec<LocalCheckout>)
    requires
        keys_distinct(old(rows)@),
    ensures
        keys_distinct(final(rows)@),
        forall|t: Seq<char>| has_key(old(rows)@, t) ==> #[trigger] has_key(final(rows)@, t),
        forall|i: int| 0 <= i < stale@.len() ==> has_key(final(rows)@, path_text((#[trigger] stale@[i])@)),
        forall|i: int| 0 <= i < pending@.len() ==> observed_at(checkouts@, (#[trigger] pending@[i])@) || has_key(final(rows)@, path_text(pending@[i]@)),
        rows_kinded(old(rows)@) ==> rows_kinded(final(rows)@),
        forall|k: int| 0 <= k < final(rows)@.len() ==> old(rows)@.contains(#[trigger] final(rows)@[k]) || final(rows)@[k].key is Path,
{
    let ghost start = rows@;
    let mut i: usize = 0;
    while i < pending.len()
        invariant
            i <= pending@.len(),
            keys_distinct(rows@),
            forall|t: Seq<char>| has_key(start, t) ==> #[trigger] has_key(rows@, t),
            forall|k: int| 0 <= k < i ==> observed_at(checkouts@, (#[trigger] pending@[k])@) || has_key(rows@, path_text(pending@[k]@)),
            rows_kinded(start) ==> rows_kinded(rows@),
            forall|k: int| 0 <= k < rows@.len() ==> start.contains(#[trigger] rows@[k]) || rows@[k].key is Path,
        decreases pending.len() - i,
    {
        if !observed_somewhere(checkouts, pending[i].as_str()) {
            let row = pending_row(pending[i].as_str());
            let ghost before = rows@;
            insert_row(rows, row);
            assert forall|k: int| 0 <= k < rows@.len() implies start.contains(#[trigger] rows@[k]) || rows@[k].key is Path by {
                if rows@[k] != row {
                    let q = choose|q: int| 0 <= q < before.len() && before[q] == rows@[k];
                    assert(start.contains(before[q]) || before[q].key is Path);
                }
            }
        }
        i += 1;
    }
    let mut j: usize = 0;
    while j < stale.len()
        invariant
            j <= stale@.len(),
            keys_distinct(rows@),
            forall|t: Seq<char>| has_key(start, t) ==> #[trigger] has_key(rows@, t),
            forall|k: int| 0 <= k < pending@.len() ==> observed_at(checkouts@, (#[trigger] pending@[k])@) || has_key(rows@, path_text(pending@[k]@)),
            forall|k: int| 0 <= k < j ==> has_key(rows@, path_text((#[trigger] stale@[k])@)),
            rows_kinded(start) ==> rows_kinded(rows@),
            forall|k: int| 0 <= k < rows@.len() ==> start.contains(#[trigger] rows@[k]) || rows@[k].key is Path,
        decreases stale.len() - j,
    {
        let row = stale_row(stale[j].as_str());
        let ghost before = rows@;
        insert_row(rows, row);
        assert forall|k: int| 0 <= k < rows@.len() implies start.contains(#[trigger] rows@[k]) || rows@[k].key is Path by {
            if rows@[k] != row {
                let q = choose|q: int| 0 <= q < before.len() && before[q] == rows@[k];
                assert(start.contains(before[q]) || before[q].key is Path);
            }
        }
        j += 1;
    }
}

pub open spec fn checkout_settled(rows: Seq<InventoryRow>, c: LocalCheckout) -> bool {
    match c.identity {
        Some(id) => checkout_listed(rows, id@, c.path@),
        None => has_key(rows, path_text(c.path@)),
    }
}

proof fn lemma_checkout_settled_kept(before: Seq<InventoryRow>, after: Seq<InventoryRow>, c: LocalCheckout)
    requires
        checkout_settled(before, c),
        forall|t: Seq<char>| has_key(before, t) ==> #[trigger] has_key(after, t),
    ensures
        checkout_settled(after, c),
{
    if let Some(id) = c.identity {
        if !has_key(before, checkout_text(id@, c.path@)) {
            let d = choose|d: Seq<char>| same_path(d, c.path@) && #[trigger] has_key(before, declaration_text(id@, d));
            assert(has_key(after, declaration_text(id@, d)));
        }
    }
}

fn add_checkouts(
    rows: &mut Vec<InventoryRow>,
    checkouts: Vec<LocalCheckout>,
    concrete: &Vec<Concrete>,
    wildcards: &Vec<Wildcard>,
    explicit: &Vec<Vec<char>>,
    Ghost(complete): Ghost<bool>,
)
    requires
        keys_distinct(old(rows)@),
        forall|k: int| 0 <= k < concrete@.len() ==> has_key(old(rows)@, concrete_text(#[trigger] concrete@[k])),
    ensures
        keys_distinct(final(rows)@),
        forall|t: Seq<char>| has_key(old(rows)@, t) ==> #[trigger] has_key(final(rows)@, t),
        forall|i: int| 0 <= i < checkouts@.len() ==> checkout_settled(final(rows)@, #[trigger] checkouts@[i]),
        rows_kinded(old(rows)@) ==> rows_kinded(final(rows)@),
        checkouts_registered(old(rows)@, explicit@.map_values(|v: Vec<char>| v@), wildcards@)
            ==> checkouts_registered(final(rows)@, explicit@.map_values(|v: Vec<char>| v@), wildcards@),
        rows_declared(old(rows)@, concrete@, complete) ==> rows_declared(final(rows)@, concrete@, complete),
        checkouts_placed(old(rows)@, concrete@, wildcards@) ==> checkouts_placed(final(rows)@, concrete@, wildcards@),
        declarations_observed_from(old(rows)@, checkouts@) ==> declarations_observed_from(final(rows)@, checkouts@),
{
    let ghost start = rows@;
    let ghost all = checkouts@;
    let ghost ids = explicit@.map_values(|v: Vec<char>| v@);
    let mut rest = checkouts;
    let mut done: usize = 0;
    let total = rest.len();
    while rest.len() > 0
        invariant
            done + rest@.len() == all.len(),
            all.len() == total,
            rest@ == all.subrange(done as int, all.len() as int),
            keys_distinct(rows@),
            forall|t: Seq<char>| has_key(start, t) ==> #[trigger] has_key(rows@, t),
            forall|k: int| 0 <= k < concrete@.len() ==> has_key(start, concrete_text(#[trigger] concrete@[k])),
            forall|i: int| 0 <= i < done ==> checkout_settled(rows@, #[trigger] all[i]),
            rows_kinded(start) ==> rows_kinded(rows@),
            ids == explicit@.map_values(|v: Vec<char>| v@),
            checkouts_registered(start, ids, wildcards@) ==> checkouts_registered(rows@, ids, wildcards@),
            rows_declared(start, concrete@, complete) ==> rows_declared(rows@, concrete@, complete),
            checkouts_placed(start, concrete@, wildcards@) ==> checkouts_placed(rows@, concrete@, wildcards@),
            declarations_observed_from(start, all) ==> declarations_observed_from(rows@, all),
        decreases rest@.len(),
    {
        let checkout = rest.remove(0);
        assert(all[done as int] == checkout);
        let ghost before = rows@;
        let stale = is_stale(&checkout.branch) || is_stale(&checkout.changes);
        let LocalCheckout { path: observed, identity, origin, branch, changes } = checkout;
        let ghost observed_view = observed@;
        match identity {
            Some(identity) => {
                let id = chars(identity.as_str());
                if let Some(j) = exact_declaration(concrete, &id, observed.as_str()) {
                    let text = declaration_text_of(&concrete[j]);
                    assert(has_key(rows@, concrete_text(concrete@[j as int])));
                    match find_row(rows, &text) {
                        Some(i) => {
                            let ghost d = concrete@[j as int].destination@;
                            assert(row_text(rows@[i as int]) == declaration_text(id@, d));
                            proof {
                                lemma_declaration_key(rows@[i as int], id@, d);
                            }
                            let ghost pre = rows@;
                            observe_declaration(rows, i, stale, origin.display(), branch, changes, observed);
                            assert(rows_kinded(start) ==> rows_kinded(rows@)) by {
                                if rows_kinded(start) {
                                    assert forall|k: int| 0 <= k < rows@.len() implies row_kinded(#[trigger] rows@[k]) by {
                                        assert(row_kinded(pre[k]));
                                    }
                                }
                            }
                            assert(rows_declared(start, concrete@, complete) ==> rows_declared(rows@, concrete@, complete)) by {
                                if rows_declared(start, concrete@, complete) {
                                    assert forall|k: int| 0 <= k < rows@.len() implies row_declared(#[trigger] rows@[k], concrete@, complete) by {
                                        assert(row_declared(pre[k], concrete@, complete));
                                    }
                                }
                            }
                            assert(checkouts_registered(start, ids, wildcards@) ==> checkouts_registered(rows@, ids, wildcards@)) by {
                                if checkouts_registered(start, ids, wildcards@) {
                                    assert forall|k: int| 0 <= k < rows@.len() implies row_registered(#[trigger] rows@[k], ids, wildcards@) by {
                                        assert(row_registered(pre[k], ids, wildcards@));
                                    }
                                }
                            }
                            assert(checkouts_placed(start, concrete@, wildcards@) ==> checkouts_placed(rows@, concrete@, wildcards@)) by {
                                if checkouts_placed(start, concrete@, wildcards@) {
                                    assert forall|k: int| 0 <= k < rows@.len() implies row_placed(#[trigger] rows@[k], concrete@, wildcards@) by {
                                        assert(row_placed(pre[k], concrete@, wildcards@));
                                    }
                                }
                            }
                            assert(declarations_observed_from(start, all) ==> declarations_observed_from(rows@, all)) by {
                                if declarations_observed_from(start, all) {
                                    assert forall|k: int| 0 <= k < rows@.len() implies row_observed_from(#[trigger] rows@[k], all) by {
                                        assert(row_observed_from(pre[k], all));
                                        if k == i {
                                            assert(all[done as int].path@ == observed_view);
                                            assert(all[done as int].identity matches Some(x) && x@ == id@);
                                            assert(rows@[k].key == pre[k].key);
                                            assert(rows@[k].observed_path matches Some(p) && p@ == observed_view);
                                            assert(same_path(d, observed_view));
                                            assert(row_text(rows@[k]) == declaration_text(id@, d));
                                        }
                                    }
                                }
                            }
                            assert(has_key(rows@, declaration_text(id@, d)));
                        },
                        None => {},
                    }
                } else {
                    let declared = contains_text(explicit, &id);
                    let ghost idv = id@;
                    let row = checkout_row(concrete, wildcards, declared, id, observed, &origin, branch, changes, stale);
                    assert(row_registered(row, ids, wildcards@));
                    assert(row_placed(row, concrete@, wildcards@));
                    let ghost pre = rows@;
                    insert_row(rows, row);
                    proof {
                        if checkouts_placed(start, concrete@, wildcards@) {
                            lemma_placed_kept(pre, rows@, concrete@, wildcards@);
                        }
                        if declarations_observed_from(start, all) {
                            lemma_observed_kept(pre, rows@, all);
                        }
                        if checkouts_registered(start, ids, wildcards@) {
                            lemma_registered_kept(pre, rows@, ids, wildcards@);
                        }
                        if rows_declared(start, concrete@, complete) {
                            lemma_declared_kept(pre, rows@, concrete@, complete);
                        }
                    }
                }
            },
            None => {
                let row = path_row(observed, &origin, branch, changes, stale);
                let ghost pre = rows@;
                insert_row(rows, row);
                proof {
                    if checkouts_placed(start, concrete@, wildcards@) {
                        lemma_placed_kept(pre, rows@, concrete@, wildcards@);
                    }
                    if declarations_observed_from(start, all) {
                        lemma_observed_kept(pre, rows@, all);
                    }
                    if checkouts_registered(start, ids, wildcards@) {
                        lemma_registered_kept(pre, rows@, ids, wildcards@);
                    }
                    if rows_declared(start, concrete@, complete) {
                        lemma_declared_kept(pre, rows@, concrete@, complete);
                    }
                }
            },
        }
        proof {
            assert forall|i: int| 0 <= i < done + 1 implies checkout_settled(rows@, #[trigger] all[i]) by {
                if i < done {
                    lemma_checkout_settled_kept(before, rows@, all[i]);
                }
            }
        }
        done += 1;
    }
}

fn declaration_text_of(c: &Concrete) -> (r: Vec<char>)
    ensures
        r@ == concrete_text(*c),
{
    pair_text('0', c.identity.as_str(), c.destination.as_str())
}

/// A real checkout at another declaration's destination makes that declaration's row a conflict.
fn mark_conflicts(rows: &mut Vec<InventoryRow>, concrete: &Vec<Concrete>)
    requires
        keys_distinct(old(rows)@),
    ensures
        keys_distinct(final(rows)@),
        forall|t: Seq<char>| has_key(old(rows)@, t) ==> #[trigger] has_key(final(rows)@, t),
        final(rows)@.len() == old(rows)@.len(),
        forall|k: int| 0 <= k < old(rows)@.len() ==> if conflicted_row(old(rows)@, concrete@, concrete@.len() as int, #[trigger] old(rows)@[k]) {
            marked_from(old(rows)@[k], final(rows)@[k])
        } else {
            final(rows)@[k] == old(rows)@[k]
        },
{
    let ghost start = rows@;
    let mut i: usize = 0;
    while i < concrete.len()
        invariant
            i <= concrete@.len(),
            keys_distinct(rows@),
            forall|t: Seq<char>| has_key(start, t) ==> #[trigger] has_key(rows@, t),
            start == old(rows)@,
            rows@.len() == start.len(),
            forall|k: int| 0 <= k < start.len() ==> (#[trigger] rows@[k]).key == start[k].key,
            forall|k: int| 0 <= k < start.len() ==> if conflicted_row(start, concrete@, i as int, #[trigger] start[k]) {
                marked_from(start[k], rows@[k])
            } else {
                rows@[k] == start[k]
            },
        decreases concrete.len() - i,
    {
        let declaration = &concrete[i];
        let ghost before = rows@;
        proof {
            // Only declaration rows are ever marked, so the checkout rows are those of the start.
            assert forall|m: int| 0 <= m < start.len() implies other_checkout_at(#[trigger] before[m], declaration.destination@, declaration.identity@)
                == other_checkout_at(start[m], declaration.destination@, declaration.identity@) by {
                if conflicted_row(start, concrete@, i as int, start[m]) {
                    let j = choose|j: int| 0 <= j < i && row_text(start[m]) == concrete_text(#[trigger] concrete@[j]) && declaration_in_conflict(start, concrete@[j]);
                    assert(row_text(start[m])[0] == '0');
                    assert(!(start[m].key is Checkout));
                }
            }
        }
        let holds = holds_other_checkout(rows, declaration.destination.as_str(), declaration.identity.as_str());
        proof {
            if holds {
                let m = choose|m: int| 0 <= m < before.len() && other_checkout_at(#[trigger] before[m], declaration.destination@, declaration.identity@);
                assert(other_checkout_at(start[m], declaration.destination@, declaration.identity@));
            }
            if declaration_in_conflict(start, concrete@[i as int]) {
                let m = choose|m: int| 0 <= m < start.len() && other_checkout_at(#[trigger] start[m], declaration.destination@, declaration.identity@);
                assert(other_checkout_at(before[m], declaration.destination@, declaration.identity@));
            }
            assert(holds == declaration_in_conflict(start, concrete@[i as int]));
        }
        if holds {
            let text = declaration_text_of(declaration);
            if let Some(k) = find_row(rows, &text) {
                mark_conflict(rows, k);
                proof {
                    assert forall|q: int| 0 <= q < start.len() implies (#[trigger] rows@[q]).key == start[q].key by {
                        if q != k {
                            assert(rows@[q] == before[q]);
                        }
                    }
                    assert(row_text(start[k as int]) == row_text(before[k as int]));
                    assert forall|q: int| 0 <= q < start.len() implies if conflicted_row(start, concrete@, i + 1, #[trigger] start[q]) {
                        marked_from(start[q], rows@[q])
                    } else {
                        rows@[q] == start[q]
                    } by {
                        if q == k {
                            assert(conflicted_row(start, concrete@, i + 1, start[q]));
                            assert forall|j: int| 0 <= j < before[q].warnings@.len() implies rows@[q].warnings@[j] == before[q].warnings@[j] by {
                                assert(rows@[q].warnings@.drop_last()[j] == rows@[q].warnings@[j]);
                            }
                            let a = start[q];
                            let b = before[q];
                            let c = rows@[q];
                            assert(c == (InventoryRow { checkout: CheckoutState::Conflict, warnings: c.warnings, ..b }));
                            assert(c.warnings@.len() == b.warnings@.len() + 1);
                            assert(c.warnings@[b.warnings@.len() as int]@ == conflict_warning());
                            if conflicted_row(start, concrete@, i as int, a) {
                                assert(marked_from(a, b));
                                assert(c.warnings@.subrange(0, a.warnings@.len() as int) =~= b.warnings@.subrange(0, a.warnings@.len() as int));
                                assert(c == (InventoryRow { checkout: CheckoutState::Conflict, warnings: c.warnings, ..a }));
                                assert forall|j: int| a.warnings@.len() <= j < c.warnings@.len() implies (#[trigger] c.warnings@[j])@ == conflict_warning() by {
                                    if j < b.warnings@.len() {
                                        assert(b.warnings@[j]@ == conflict_warning());
                                    }
                                }
                            } else {
                                assert(b == a);
                                assert(c.warnings@.subrange(0, a.warnings@.len() as int) =~= a.warnings@);
                                assert forall|j: int| a.warnings@.len() <= j < c.warnings@.len() implies (#[trigger] c.warnings@[j])@ == conflict_warning() by {
                                    assert(j == b.warnings@.len());
                                }
                            }
                            assert(marked_from(a, c));
                        } else {
                            assert(rows@[q] == before[q]);
                            assert(before[q].key == start[q].key);
                            if conflicted_row(start, concrete@, i + 1, start[q]) {
                                let j = choose|j: int| 0 <= j < i + 1 && row_text(start[q]) == concrete_text(#[trigger] concrete@[j])
                                    && declaration_in_conflict(start, concrete@[j]);
                                if j == i {
                                    assert(row_text(before[q]) == row_text(before[k as int]));
                                    assert(false);
                                }
                                assert(conflicted_row(start, concrete@, i as int, start[q]));
                            }
                        }
                    }
                }
            } else {
                proof {
                    assert forall|q: int| 0 <= q < start.len() implies if conflicted_row(start, concrete@, i + 1, #[trigger] start[q]) {
                        marked_from(start[q], rows@[q])
                    } else {
                        rows@[q] == start[q]
                    } by {
                        if conflicted_row(start, concrete@, i + 1, start[q]) {
                            let j = choose|j: int| 0 <= j < i + 1 && row_text(start[q]) == concrete_text(#[trigger] concrete@[j])
                                && declaration_in_conflict(start, concrete@[j]);
                            if j == i {
                                assert(before[q].key == start[q].key);
                                assert(row_text(before[q]) == row_text(start[q]));
                                assert(has_key(before, text@));
                            }
                            assert(conflicted_row(start, concrete@, i as int, start[q]));
                        }
                    }
                }
            }
        } else {
            proof {
                assert forall|q: int| 0 <= q < start.len() implies if conflicted_row(start, concrete@, i + 1, #[trigger] start[q]) {
                    marked_from(start[q], rows@[q])
                } else {
                    rows@[q] == start[q]
                } by {
                    if conflicted_row(start, concrete@, i + 1, start[q]) {
                        let j = choose|j: int| 0 <= j < i + 1 && row_text(start[q]) == concrete_text(#[trigger] concrete@[j])
                            && declaration_in_conflict(start, concrete@[j]);
                        assert(conflicted_row(start, concrete@, i as int, start[q]));
                    }
                }
            }
        }
        i += 1;
    }
}

/// The identities of the explicit declarations, in their order.
fn explicit_of(concrete: &Vec<Concrete>) -> (r: Vec<Vec<char>>)
    ensures
        r@.len() == concrete@.len(),
        forall|k: int| 0 <= k < r@.len() ==> (#[trigger] r@[k])@ == concrete@[k].identity@,
{
    let mut ids: Vec<Vec<char>> = Vec::new();
    let mut i: usize = 0;
    while i < concrete.len()
        invariant
            i <= concrete@.len(),
            ids@.len() == i,
            forall|k: int| 0 <= k < i ==> (#[trigger] ids@[k])@ == concrete@[k].identity@,
        decreases concrete.len() - i,
    {
        ids.push(chars(concrete[i].identity.as_str()));
        i += 1;
    }
    ids
}

/// Builds the inventory from the configuration and a local scan: a row for each explicit
/// declaration at its destination, for each wildcard pattern, for each pending or stale
/// path, and for each checkout found, with misplaced checkouts and conflicts marked.
pub fn build_inventory<F: InventoryFilesystem>(
    filesystem: &F,
    config: &Config,
    config_path: &str,
    home: &str,
    scan: LocalScan,
) -> (r: Result<InventoryReport, String>)
    ensures
        spec_resolve_portable_path(config@.root, home@) matches Err(e) ==> (r matches Err(m) && m@ == config_error_text(e)),
        some_declaration_unreadable(config@) ==> r is Err,
        spec_resolve_portable_path(config@.root, home@) is Ok && !some_declaration_unreadable(config@) ==> r is Ok,
        r matches Ok(report) ==> {
            &&& report.diagnostics == scan.diagnostics
            &&& report.incomplete == scan.incomplete
            &&& report.observation_generation == 1
            &&& spec_resolve_portable_path(config@.root, home@) matches Ok(root) && inventory_settled(config@, root, scan, report.rows@)
            &&& rows_kinded(report.rows@)
            &&& declarations_unobserved(report.rows@, scan.complete)
            &&& declarations_observed_from(report.rows@, scan.checkouts@)
            &&& conflicts_marked(report.rows@)
            &&& exists|ws: Seq<Wildcard>| wildcards_of(config@, ws)
                && #[trigger] checkouts_registered(report.rows@, explicit_list(config@.repositories), ws)
            &&& spec_resolve_portable_path(config@.root, home@) matches Ok(root) && exists|cs: Seq<Concrete>, ws: Seq<Wildcard>|
                concretes_of(config@, root, cs) && wildcards_of(config@, ws) && wildcards_placed(config@, root, ws)
                && #[trigger] checkouts_placed(report.rows@, cs, ws)
        },
{
    let root = match config.resolve_root(home) {
        Ok(root) => chars(root.as_str()),
        Err(error) => return Err(error.message()),
    };
    let (concrete, wildcards) = classify_declarations(config, &root)?;
    let explicit = explicit_of(&concrete);
    let LocalScan { checkouts, pending_paths, stale_paths, diagnostics, incomplete, complete } = scan;
    let mut rows = declared_rows(filesystem, &concrete, &wildcards, complete);
    let ghost declared = rows@;
    add_scan_paths(&mut rows, &pending_paths, &stale_paths, &checkouts);
    let ghost scanned = rows@;
    let ghost all_checkouts = checkouts@;
    add_checkouts(&mut rows, checkouts, &concrete, &wildcards, &explicit, Ghost(complete));
    let ghost observed = rows@;
    mark_conflicts(&mut rows, &concrete);
    let ghost marked = rows@;
    proof {
        assert forall|k: int| 0 <= k < marked.len() implies row_kinded(#[trigger] marked[k]) by {
            assert(row_kinded(observed[k]));
            if conflicted_row(observed, concrete@, concrete@.len() as int, observed[k]) {
                let j = choose|j: int| 0 <= j < concrete@.len() && row_text(observed[k]) == concrete_text(#[trigger] concrete@[j])
                    && declaration_in_conflict(observed, concrete@[j]);
                lemma_declaration_key(observed[k], concrete@[j].identity@, concrete@[j].destination@);
            }
        }
    }
    proof {
        let ids = explicit@.map_values(|v: Vec<char>| v@);
        assert(ids =~= explicit_list(config@.repositories)) by {
            assert(ids =~= concrete_ids(concrete@));
        }
        assert(checkouts_registered(declared, ids, wildcards@)) by {
            assert forall|k: int| 0 <= k < declared.len() implies row_registered(#[trigger] declared[k], ids, wildcards@) by {
                assert(!(declared[k].key is Checkout));
            }
        }
        lemma_registered_kept(declared, scanned, ids, wildcards@);
        assert forall|k: int| 0 <= k < marked.len() implies row_registered(#[trigger] marked[k], ids, wildcards@) by {
            assert(row_registered(observed[k], ids, wildcards@));
            if conflicted_row(observed, concrete@, concrete@.len() as int, observed[k]) {
                let j = choose|j: int| 0 <= j < concrete@.len() && row_text(observed[k]) == concrete_text(#[trigger] concrete@[j])
                    && declaration_in_conflict(observed, concrete@[j]);
                lemma_declaration_key(observed[k], concrete@[j].identity@, concrete@[j].destination@);
            }
        }
    }
    let rows = order_rows(rows);
    proof {
        lemma_declared_kept(declared, scanned, concrete@, complete);
        lemma_marking(observed, marked, rows@, concrete@, complete);
        let ids = explicit@.map_values(|v: Vec<char>| v@);
        lemma_registered_kept(marked, rows@, ids, wildcards@);
        assert(checkouts_registered(rows@, explicit_list(config@.repositories), wildcards@));
        assert(checkouts_placed(declared, concrete@, wildcards@)) by {
            assert forall|k: int| 0 <= k < declared.len() implies row_placed(#[trigger] declared[k], concrete@, wildcards@) by {
                assert(!(declared[k].key is Checkout));
            }
        }
        lemma_placed_kept(declared, scanned, concrete@, wildcards@);
        assert forall|k: int| 0 <= k < marked.len() implies row_placed(#[trigger] marked[k], concrete@, wildcards@) by {
            assert(row_placed(observed[k], concrete@, wildcards@));
            if conflicted_row(observed, concrete@, concrete@.len() as int, observed[k]) {
                let j = choose|j: int| 0 <= j < concrete@.len() && row_text(observed[k]) == concrete_text(#[trigger] concrete@[j])
                    && declaration_in_conflict(observed, concrete@[j]);
                lemma_declaration_key(observed[k], concrete@[j].identity@, concrete@[j].destination@);
            }
        }
        lemma_placed_kept(marked, rows@, concrete@, wildcards@);
        assert(checkouts_placed(rows@, concrete@, wildcards@));
        assert(declarations_observed_from(declared, all_checkouts)) by {
            assert forall|k: int| 0 <= k < declared.len() implies row_observed_from(#[trigger] declared[k], all_checkouts) by {
                assert(declared[k].observed_path is None);
            }
        }
        lemma_observed_kept(declared, scanned, all_checkouts);
        assert forall|k: int| 0 <= k < marked.len() implies row_observed_from(#[trigger] marked[k], all_checkouts) by {
            assert(row_observed_from(observed[k], all_checkouts));
        }
        lemma_observed_kept(marked, rows@, all_checkouts);
    }
    proof {
        assert forall|i: int| 0 <= i < config@.repositories.len() implies (declaration_row_text(config@, root@, #[trigger] config@.repositories[i])
            matches Some(t) ==> has_key(rows@, t)) by {
            if let Some(t) = declaration_row_text(config@, root@, config@.repositories[i]) {
                assert(listed_in(concrete@, wildcards@, t));
                assert(has_key(declared, t)) by {
                    if exists|k: int| 0 <= k < concrete@.len() && concrete_text(#[trigger] concrete@[k]) == t {
                        let k = choose|k: int| 0 <= k < concrete@.len() && concrete_text(#[trigger] concrete@[k]) == t;
                    } else {
                        let k = choose|k: int| 0 <= k < wildcards@.len() && pattern_text(wildcard_pattern(#[trigger] wildcards@[k])) == t;
                    }
                }
                assert(has_key(scanned, t));
                assert(has_key(observed, t));
                assert(has_key(marked, t));
            }
        }
        assert forall|i: int| 0 <= i < scan.stale_paths@.len() implies has_key(rows@, path_text((#[trigger] scan.stale_paths@[i])@)) by {
            assert(has_key(scanned, path_text(stale_paths@[i]@)));
            assert(has_key(observed, path_text(stale_paths@[i]@)));
            assert(has_key(marked, path_text(stale_paths@[i]@)));
        }
        assert forall|i: int| 0 <= i < scan.pending_paths@.len() implies observed_at(scan.checkouts@, (#[trigger] scan.pending_paths@[i])@)
            || has_key(rows@, path_text(scan.pending_paths@[i]@)) by {
            if !observed_at(all_checkouts, pending_paths@[i]@) {
                assert(has_key(scanned, path_text(pending_paths@[i]@)));
                assert(has_key(observed, path_text(pending_paths@[i]@)));
                assert(has_key(marked, path_text(pending_paths@[i]@)));
            }
        }
        assert forall|i: int| 0 <= i < scan.checkouts@.len() implies match (#[trigger] scan.checkouts@[i]).identity {
            Some(id) => checkout_listed(rows@, id@, scan.checkouts@[i].path@),
            None => has_key(rows@, path_text(scan.checkouts@[i].path@)),
        } by {
            assert(checkout_settled(observed, all_checkouts[i]));
            lemma_checkout_settled_kept(observed, marked, all_checkouts[i]);
            lemma_checkout_settled_kept(marked, rows@, all_checkouts[i]);
        }
    }
    Ok(InventoryReport {
        rows,
        diagnostics,
        config_revision: filesystem.config_revision(config_path),
        observation_generation: 1,
        incomplete,
    })
}

// ---------------------------------------------------------------------------
// Observations of a checkout
// ---------------------------------------------------------------------------

/// What `git remote get-url origin` printed, read as an origin: its trimmed text, with the
/// identity it normalizes to when it reads as a repository.
pub open spec fn origin_fact_of(output: Seq<char>) -> (Seq<char>, Option<Seq<char>>) {
    let original = trim_white(output);
    match spec_normalize_remote(original) {
        Ok(identity) => (original, Some(identity)),
        Err(_) => (original, None),
    }
}

pub fn origin_fact(output: &str) -> (r: OriginFact)
    ensures
        match r {
            OriginFact::Supported { original, identity } => origin_fact_of(output@) == (original@, Some(identity@)),
            OriginFact::Unsupported(original) => origin_fact_of(output@) == (original@, None::<Seq<char>>),
            _ => false,
        },
{
    let original = string_of(&trim_whitespace(&chars(output)));
    match normalize_remote(original.as_str()) {
        Ok(identity) => OriginFact::Supported { original, identity },
        Err(_) => OriginFact::Unsupported(original),
    }
}

/// The number of lines of `s` (`str::lines().count()`).
pub open spec fn line_count(s: Seq<char>) -> nat {
    let parts = split(s, '\n');
    if parts.last().len() == 0 {
        (parts.len() - 1) as nat
    } else {
        parts.len()
    }
}

/// A `git status --porcelain` listing read as the changes of a checkout.
pub open spec fn changes_of(status: Seq<char>) -> Option<nat> {
    if trim_white(status).len() == 0 {
        None
    } else {
        Some(line_count(status))
    }
}

pub fn changes_observation(status: &str) -> (r: ObservationField)
    requires
        status@.len() < u64::MAX,
    ensures
        match changes_of(status@) {
            None => r is Clean,
            Some(n) => r matches ObservationField::Dirty(m) && m@ == crate::config_file::spec_digits(n, 10) + " modified"@,
        },
{
    let text = chars(status);
    if trim_whitespace(&text).len() == 0 {
        return ObservationField::Clean;
    }
    let parts = split_char(&text, '\n');
    proof {
        crate::text::lemma_split_from_len(text@, '\n', Seq::empty());
        lemma_split_count(text@);
    }
    let n = if parts[parts.len() - 1].len() == 0 {
        parts.len() - 1
    } else {
        parts.len()
    };
    assert(parts@.map_values(|v: Vec<char>| v@).last() == parts@[parts@.len() - 1]@);
    let count = crate::config_file::digits(n as u64, 10);
    ObservationField::Dirty(string_of(&concat(&chars(count.as_str()), &chars(" modified"))))
}

proof fn lemma_split_count(s: Seq<char>)
    ensures
        split(s, '\n').len() <= s.len() + 1,
{
    lemma_split_from_count(s, '\n', Seq::empty());
}

proof fn lemma_split_from_count(s: Seq<char>, c: char, cur: Seq<char>)
    ensures
        crate::text::split_from(s, c, cur).len() <= s.len() + 1,
    decreases s.len(),
{
    if s.len() > 0 {
        if s[0] == c {
            lemma_split_from_count(s.drop_first(), c, Seq::empty());
        } else {
            lemma_split_from_count(s.drop_first(), c, cur.push(s[0]));
        }
    }
}

/// Whether `git remote` lists a remote named `origin`.
pub open spec fn lists_origin(remotes: Seq<char>) -> bool {
    exists|i: int| 0 <= i < split(remotes, '\n').len() && (#[trigger] split(remotes, '\n')[i] == "origin"@
        || split(remotes, '\n')[i] == "origin\r"@)
}

pub fn origin_listed(remotes: &str) -> (r: bool)
    ensures
        r == lists_origin(remotes@),
{
    let parts = split_char(&chars(remotes), '\n');
    let ghost views = parts@.map_values(|v: Vec<char>| v@);
    let mut i: usize = 0;
    while i < parts.len()
        invariant
            i <= parts@.len(),
            views == parts@.map_values(|v: Vec<char>| v@),
            views == split(remotes@, '\n'),
            forall|j: int| 0 <= j < i ==> !(#[trigger] views[j] == "origin"@ || views[j] == "origin\r"@),
        decreases parts.len() - i,
    {
        assert(views[i as int] == parts@[i as int]@);
        if equal(&parts[i], &chars("origin")) || equal(&parts[i], &chars("origin\r")) {
            return true;
        }
        i += 1;
    }
    false
}

} // verus!
