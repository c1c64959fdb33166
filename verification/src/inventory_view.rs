//! What the inventory screen does with the inventory: search, selection, and the scan
//! events that keep it current.
use vstd::prelude::*;

use crate::application::inventory::{
    checkout_label, key_text, observation_label, registration_label, CheckoutState, InventoryReport, InventoryRow,
    LocalCheckout, LocalScan, ObservationField, OriginFact, RegistrationState, RowKey, ScanDiagnostic,
};
use crate::config_file::{digits, spec_digits};
use crate::paths::{components, components_of, paths_equal, same_path};
use crate::presentation::{escape, escape_seq};
use crate::text::{chars, concat, equal, join, join_with, slice, string_of};

verus! {

broadcast use vstd::seq::group_seq_axioms;

// ---------------------------------------------------------------------------
// Notices and stale observations
// ---------------------------------------------------------------------------

/// The notice shown for configuration warnings, if there are any.
pub fn warning_notice(warnings: Vec<String>) -> (r: Option<String>)
    ensures
        warnings@.len() == 0 ==> r is None,
        warnings@.len() > 0 ==> (r matches Some(n) && n@ == "warning: "@ + join(warnings.deep_view(), " · "@)),
{
    if warnings.len() == 0 {
        return None;
    }
    let mut parts: Vec<Vec<char>> = Vec::new();
    let mut i: usize = 0;
    while i < warnings.len()
        invariant
            i <= warnings@.len(),
            parts@.map_values(|v: Vec<char>| v@) == warnings.deep_view().subrange(0, i as int),
        decreases warnings.len() - i,
    {
        let ghost before = parts@.map_values(|v: Vec<char>| v@);
        parts.push(chars(warnings[i].as_str()));
        assert(parts@.map_values(|v: Vec<char>| v@) =~= before.push(warnings@[i as int]@));
        assert(warnings.deep_view().subrange(0, i + 1) =~= warnings.deep_view().subrange(0, i as int).push(warnings@[i as int]@));
        i += 1;
    }
    assert(warnings.deep_view().subrange(0, warnings.deep_view().len() as int) =~= warnings.deep_view());
    Some(string_of(&concat(&chars("warning: "), &join_with(&parts, &chars(" · ")))))
}

/// An observation carried over a refresh: whatever was known becomes stale.
pub fn stale_observation(field: ObservationField) -> (r: ObservationField)
    ensures
        match field {
            ObservationField::Known(v) => r == ObservationField::Stale(v),
            ObservationField::Dirty(v) => r == ObservationField::Stale(v),
            ObservationField::Error(v) => r == ObservationField::Stale(v),
            ObservationField::Stale(v) => r == ObservationField::Stale(v),
            ObservationField::Clean => r matches ObservationField::Stale(v) && v@ == "known clean"@,
            ObservationField::Pending => r is Pending,
            ObservationField::NotApplicable => r is NotApplicable,
        },
{
    match field {
        ObservationField::Known(value) => ObservationField::Stale(value),
        ObservationField::Dirty(value) => ObservationField::Stale(value),
        ObservationField::Error(value) => ObservationField::Stale(value),
        ObservationField::Stale(value) => ObservationField::Stale(value),
        ObservationField::Clean => ObservationField::Stale(string_of(&chars("known clean"))),
        ObservationField::Pending => ObservationField::Pending,
        ObservationField::NotApplicable => ObservationField::NotApplicable,
    }
}

fn copy_text(s: &String) -> (r: String)
    ensures
        r@ == s@,
{
    string_of(&chars(s.as_str()))
}

fn copy_field(f: &ObservationField) -> (r: ObservationField)
    ensures
        observation_label(r) == observation_label(*f),
        r is Pending <==> *f is Pending,
        r is NotApplicable <==> *f is NotApplicable,
        r is Clean <==> *f is Clean,
{
    match f {
        ObservationField::Pending => ObservationField::Pending,
        ObservationField::Known(v) => ObservationField::Known(copy_text(v)),
        ObservationField::Clean => ObservationField::Clean,
        ObservationField::Dirty(v) => ObservationField::Dirty(copy_text(v)),
        ObservationField::Error(v) => ObservationField::Error(copy_text(v)),
        ObservationField::Stale(v) => ObservationField::Stale(copy_text(v)),
        ObservationField::NotApplicable => ObservationField::NotApplicable,
    }
}

fn copy_origin(o: &OriginFact) -> (r: OriginFact)
    ensures
        crate::application::inventory::origin_display(r) == crate::application::inventory::origin_display(*o),
{
    match o {
        OriginFact::Absent => OriginFact::Absent,
        OriginFact::Supported { original, identity } => OriginFact::Supported { original: copy_text(original), identity: copy_text(identity) },
        OriginFact::Unsupported(original) => OriginFact::Unsupported(copy_text(original)),
        OriginFact::Error(error) => OriginFact::Error(copy_text(error)),
    }
}

/// The scan a refresh starts from: the checkouts seen so far, with their observations
/// stale, and nothing else.
pub fn stale_scan(previous: &LocalScan) -> (r: LocalScan)
    ensures
        r.checkouts@.len() == previous.checkouts@.len(),
        forall|i: int| 0 <= i < r.checkouts@.len() ==> (#[trigger] r.checkouts@[i]).path@ == previous.checkouts@[i].path@
            && (r.checkouts@[i].branch is Pending <==> previous.checkouts@[i].branch is Pending)
            && (r.checkouts@[i].branch is NotApplicable <==> previous.checkouts@[i].branch is NotApplicable)
            && (!(previous.checkouts@[i].branch is Pending || previous.checkouts@[i].branch is NotApplicable) ==> r.checkouts@[i].branch is Stale)
            && (!(previous.checkouts@[i].changes is Pending || previous.checkouts@[i].changes is NotApplicable) ==> r.checkouts@[i].changes is Stale),
        r.pending_paths@.len() == 0,
        r.stale_paths@.len() == 0,
        r.diagnostics@.len() == 0,
        !r.incomplete,
        !r.complete,
{
    let mut checkouts: Vec<LocalCheckout> = Vec::new();
    let mut i: usize = 0;
    while i < previous.checkouts.len()
        invariant
            i <= previous.checkouts@.len(),
            checkouts@.len() == i,
            forall|k: int| 0 <= k < i ==> (#[trigger] checkouts@[k]).path@ == previous.checkouts@[k].path@
                && (checkouts@[k].branch is Pending <==> previous.checkouts@[k].branch is Pending)
                && (checkouts@[k].branch is NotApplicable <==> previous.checkouts@[k].branch is NotApplicable)
                && (!(previous.checkouts@[k].branch is Pending || previous.checkouts@[k].branch is NotApplicable) ==> checkouts@[k].branch is Stale)
                && (!(previous.checkouts@[k].changes is Pending || previous.checkouts@[k].changes is NotApplicable) ==> checkouts@[k].changes is Stale),
        decreases previous.checkouts.len() - i,
    {
        let checkout = &previous.checkouts[i];
        let identity = match &checkout.identity {
            Some(identity) => Some(copy_text(identity)),
            None => None,
        };
        let branch = stale_observation(copy_field(&checkout.branch));
        let changes = stale_observation(copy_field(&checkout.changes));
        checkouts.push(LocalCheckout { path: copy_text(&checkout.path), identity, origin: copy_origin(&checkout.origin), branch, changes });
        i += 1;
    }
    LocalScan {
        checkouts,
        pending_paths: Vec::new(),
        stale_paths: Vec::new(),
        diagnostics: Vec::new(),
        incomplete: false,
        complete: false,
    }
}

// ---------------------------------------------------------------------------
// Search
// ---------------------------------------------------------------------------

/// What `char::to_lowercase` yields for a character: its Unicode lower-case mapping.
pub uninterp spec fn lowercase_of(c: char) -> Seq<char>;

/// `char::to_lowercase`, collected: the lower-case mapping of `c`, one or more characters.
#[verifier::external_body]
fn to_lowercase(c: char) -> (r: Vec<char>)
    ensures
        r@ == lowercase_of(c),
        r@.len() >= 1,
{
    c.to_lowercase().collect()
}

/// The text in lower case, character by character.
pub open spec fn lowered(s: Seq<char>) -> Seq<char>
    decreases s.len(),
{
    if s.len() == 0 {
        Seq::empty()
    } else {
        lowered(s.drop_last()) + lowercase_of(s.last())
    }
}

fn lowered_of(s: &str) -> (r: Vec<char>)
    ensures
        r@ == lowered(s@),
{
    let cs = chars(s);
    let mut out: Vec<char> = Vec::new();
    let mut i: usize = 0;
    assert(cs@.subrange(0, 0) =~= Seq::<char>::empty());
    while i < cs.len()
        invariant
            i <= cs@.len(),
            cs@ == s@,
            out@ == lowered(cs@.subrange(0, i as int)),
        decreases cs.len() - i,
    {
        assert(cs@.subrange(0, i + 1).drop_last() =~= cs@.subrange(0, i as int));
        out = concat(&out, &to_lowercase(cs[i]));
        i += 1;
    }
    assert(cs@.subrange(0, cs@.len() as int) =~= cs@);
    out
}

/// `q` can be read in `v` left to right, skipping characters of `v`.
pub open spec fn subsequence(q: Seq<char>, v: Seq<char>) -> bool
    decreases v.len(),
{
    if q.len() == 0 {
        true
    } else if v.len() == 0 {
        false
    } else if v[0] == q[0] {
        subsequence(q.drop_first(), v.drop_first())
    } else {
        subsequence(q, v.drop_first())
    }
}

/// The query's characters occur in the value in order, ignoring case.
pub open spec fn fuzzy_match(value: Seq<char>, query: Seq<char>) -> bool {
    subsequence(lowered(query), lowered(value))
}

pub fn fuzzy_subsequence(value: &str, query: &str) -> (r: bool)
    ensures
        r == fuzzy_match(value@, query@),
{
    let v = lowered_of(value);
    let q = lowered_of(query);
    let mut matched: usize = 0;
    let mut i: usize = 0;
    assert(q@.subrange(0, q@.len() as int) =~= q@);
    assert(v@.subrange(0, v@.len() as int) =~= v@);
    while i < v.len()
        invariant
            i <= v@.len(),
            matched <= q@.len(),
            q@ == lowered(query@),
            v@ == lowered(value@),
            subsequence(q@, v@) == subsequence(q@.subrange(matched as int, q@.len() as int), v@.subrange(i as int, v@.len() as int)),
        decreases v.len() - i,
    {
        if matched == q.len() {
            assert(q@.subrange(matched as int, q@.len() as int).len() == 0);
            return true;
        }
        let ghost qs = q@.subrange(matched as int, q@.len() as int);
        let ghost vs = v@.subrange(i as int, v@.len() as int);
        assert(vs.drop_first() =~= v@.subrange(i + 1, v@.len() as int));
        assert(qs.drop_first() =~= q@.subrange(matched + 1, q@.len() as int));
        if v[i] == q[matched] {
            matched += 1;
        }
        i += 1;
    }
    if matched == q.len() {
        assert(q@.subrange(matched as int, q@.len() as int).len() == 0);
        true
    } else {
        assert(v@.subrange(i as int, v@.len() as int).len() == 0);
        false
    }
}

/// A row matches a query when the query is empty or reads fuzzily in any of its columns.
pub open spec fn row_matches(row: InventoryRow, query: Seq<char>) -> bool {
    ||| query.len() == 0
    ||| fuzzy_match(row.repository@, query)
    ||| fuzzy_match(row.path@, query)
    ||| fuzzy_match(row.origin@, query)
    ||| fuzzy_match(registration_label(row.registration), query)
    ||| fuzzy_match(checkout_label(row.checkout), query)
    ||| fuzzy_match(observation_label(row.branch), query)
    ||| fuzzy_match(observation_label(row.changes), query)
}

pub fn row_matches_query(row: &InventoryRow, query: &str) -> (r: bool)
    ensures
        r == row_matches(*row, query@),
{
    query.unicode_len() == 0 || fuzzy_subsequence(row.repository.as_str(), query) || fuzzy_subsequence(row.path.as_str(), query)
        || fuzzy_subsequence(row.origin.as_str(), query) || fuzzy_subsequence(row.registration.label(), query)
        || fuzzy_subsequence(row.checkout.label(), query) || fuzzy_subsequence(row.branch.label().as_str(), query)
        || fuzzy_subsequence(row.changes.label().as_str(), query)
}

/// The positions of the rows that match the query, in order.
pub fn matching_rows(report: &InventoryReport, query: &str) -> (r: Vec<usize>)
    ensures
        forall|k: int| 0 <= k < r@.len() ==> (#[trigger] r@[k]) < report.rows@.len() && row_matches(report.rows@[r@[k] as int], query@),
        forall|a: int, b: int| 0 <= a < b < r@.len() ==> r@[a] < r@[b],
        forall|i: int| 0 <= i < report.rows@.len() && row_matches(#[trigger] report.rows@[i], query@) ==> r@.contains(i as usize),
{
    let mut r: Vec<usize> = Vec::new();
    let mut i: usize = 0;
    while i < report.rows.len()
        invariant
            i <= report.rows@.len(),
            forall|k: int| 0 <= k < r@.len() ==> (#[trigger] r@[k]) < i && row_matches(report.rows@[r@[k] as int], query@),
            forall|a: int, b: int| 0 <= a < b < r@.len() ==> r@[a] < r@[b],
            forall|j: int| 0 <= j < i && row_matches(#[trigger] report.rows@[j], query@) ==> r@.contains(j as usize),
        decreases report.rows.len() - i,
    {
        if row_matches_query(&report.rows[i], query) {
            let ghost before = r@;
            r.push(i);
            assert forall|j: int| 0 <= j < i + 1 && row_matches(#[trigger] report.rows@[j], query@) implies r@.contains(j as usize) by {
                if j < i {
                    let k = choose|k: int| 0 <= k < before.len() && before[k] == j as usize;
                    assert(r@[k] == j as usize);
                } else {
                    assert(r@[before.len() as int] == j as usize);
                }
            }
        }
        i += 1;
    }
    r
}

// ---------------------------------------------------------------------------
// Selection
// ---------------------------------------------------------------------------

/// A repository at a path: what connects a declaration's row with its checkout's row.
#[derive(Debug, Clone, PartialEq, Eq)]
pub struct RepositoryPath {
    pub identity: String,
    pub path: String,
}

pub open spec fn row_repository_path(key: RowKey) -> Option<(Seq<char>, Seq<char>)> {
    match key {
        RowKey::Declaration { identity, destination } => Some((identity@, destination@)),
        RowKey::Checkout { identity, path } => Some((identity@, path@)),
        _ => None,
    }
}

/// The repository and path a row stands for, for declarations and checkouts.
pub fn repository_path(row: &InventoryRow) -> (r: Option<RepositoryPath>)
    ensures
        match r {
            Some(p) => row_repository_path(row.key) == Some((p.identity@, p.path@)),
            None => row_repository_path(row.key) is None,
        },
{
    match &row.key {
        RowKey::Declaration { identity, destination } => Some(RepositoryPath { identity: copy_text(identity), path: copy_text(destination) }),
        RowKey::Checkout { identity, path } => Some(RepositoryPath { identity: copy_text(identity), path: copy_text(path) }),
        _ => None,
    }
}

/// The path a pending row keeps its selection by: it has no identity yet.
pub open spec fn pending_selection(row: InventoryRow) -> Option<Seq<char>> {
    if row.key is Path && row.repository@ == row.path@ && row.origin@ == "pending"@ {
        match row.observed_path {
            Some(p) => Some(p@),
            None => None,
        }
    } else {
        None
    }
}

pub fn pending_path(row: &InventoryRow) -> (r: Option<String>)
    ensures
        match r {
            Some(p) => pending_selection(*row) == Some(p@),
            None => pending_selection(*row) is None,
        },
{
    let is_path = match &row.key {
        RowKey::Path(_) => true,
        _ => false,
    };
    if is_path && equal(&chars(row.repository.as_str()), &chars(row.path.as_str())) && equal(&chars(row.origin.as_str()), &chars("pending")) {
        match &row.observed_path {
            Some(path) => Some(copy_text(path)),
            None => None,
        }
    } else {
        None
    }
}

/// What the selection remembers of the selected row.
#[derive(Debug, Clone, PartialEq, Eq)]
pub struct SelectionMemory {
    pub key: Option<RowKey>,
    pub repository_path: Option<RepositoryPath>,
    pub pending_path: Option<String>,
}

/// The first visible row with `key`'s text.
fn position_by_key(rows: &Vec<&InventoryRow>, key: &RowKey) -> (r: Option<usize>)
    ensures
        match r {
            Some(i) => i < rows@.len() && key_text(rows@[i as int].key) == key_text(*key) && forall|j: int| 0 <= j < i ==> key_text((#[trigger] rows@[j]).key) != key_text(*key),
            None => forall|j: int| 0 <= j < rows@.len() ==> key_text((#[trigger] rows@[j]).key) != key_text(*key),
        },
{
    let wanted = crate::application::inventory::key_text_of(key);
    let mut i: usize = 0;
    while i < rows.len()
        invariant
            i <= rows@.len(),
            wanted@ == key_text(*key),
            forall|j: int| 0 <= j < i ==> key_text((#[trigger] rows@[j]).key) != key_text(*key),
        decreases rows.len() - i,
    {
        if equal(&crate::application::inventory::key_text_of(&rows[i].key), &wanted) {
            return Some(i);
        }
        i += 1;
    }
    None
}

/// Two repository paths name the same repository at the same path.
pub open spec fn same_repository_path(a: Option<(Seq<char>, Seq<char>)>, b: (Seq<char>, Seq<char>)) -> bool {
    a matches Some(x) && x.0 == b.0 && same_path(x.1, b.1)
}

fn position_by_repository(rows: &Vec<&InventoryRow>, selected: &RepositoryPath) -> (r: Option<usize>)
    ensures
        match r {
            Some(i) => i < rows@.len() && same_repository_path(row_repository_path(rows@[i as int].key), (selected.identity@, selected.path@))
                && forall|j: int| 0 <= j < i ==> !same_repository_path(row_repository_path((#[trigger] rows@[j]).key), (selected.identity@, selected.path@)),
            None => forall|j: int| 0 <= j < rows@.len() ==> !same_repository_path(row_repository_path((#[trigger] rows@[j]).key), (selected.identity@, selected.path@)),
        },
{
    let mut i: usize = 0;
    while i < rows.len()
        invariant
            i <= rows@.len(),
            forall|j: int| 0 <= j < i ==> !same_repository_path(row_repository_path((#[trigger] rows@[j]).key), (selected.identity@, selected.path@)),
        decreases rows.len() - i,
    {
        if let Some(candidate) = repository_path(rows[i]) {
            if equal(&chars(candidate.identity.as_str()), &chars(selected.identity.as_str())) && paths_equal(candidate.path.as_str(), selected.path.as_str()) {
                return Some(i);
            }
        }
        i += 1;
    }
    None
}

pub open spec fn observed_at_path(row: InventoryRow, p: Seq<char>) -> bool {
    row.observed_path matches Some(o) && same_path(o@, p)
}

fn position_by_observed(rows: &Vec<&InventoryRow>, path: &str) -> (r: Option<usize>)
    ensures
        match r {
            Some(i) => i < rows@.len() && observed_at_path(*rows@[i as int], path@) && forall|j: int| 0 <= j < i ==> !observed_at_path(*(#[trigger] rows@[j]), path@),
            None => forall|j: int| 0 <= j < rows@.len() ==> !observed_at_path(*(#[trigger] rows@[j]), path@),
        },
{
    let mut i: usize = 0;
    while i < rows.len()
        invariant
            i <= rows@.len(),
            forall|j: int| 0 <= j < i ==> !observed_at_path(*(#[trigger] rows@[j]), path@),
        decreases rows.len() - i,
    {
        if let Some(observed) = &rows[i].observed_path {
            if paths_equal(observed.as_str(), path) {
                return Some(i);
            }
        }
        i += 1;
    }
    None
}

/// Which visible row stays selected after the rows changed: the row with the remembered key,
/// else the remembered repository at its path, else the remembered pending path, else the
/// previously selected position, kept within the rows.
pub fn reconcile_index(rows: &Vec<&InventoryRow>, memory: &SelectionMemory, selected: Option<usize>) -> (r: Option<usize>)
    ensures
        rows@.len() == 0 ==> r is None,
        r matches Some(i) ==> i < rows@.len(),
        memory.key is Some && (exists|j: int| 0 <= j < rows@.len() && key_text((#[trigger] rows@[j]).key) == key_text(memory.key->Some_0))
            ==> (r matches Some(i) && key_text(rows@[i as int].key) == key_text(memory.key->Some_0)),
        (memory.key is None || forall|j: int| 0 <= j < rows@.len() ==> key_text((#[trigger] rows@[j]).key) != key_text(memory.key->Some_0))
            && memory.repository_path is None && memory.pending_path is None && rows@.len() > 0 ==> r == Some(
            if (match selected { Some(s) => s, None => 0usize }) < rows@.len() { match selected { Some(s) => s, None => 0usize } } else { (rows@.len() - 1) as usize },
        ),
{
    if let Some(key) = &memory.key {
        if let Some(i) = position_by_key(rows, key) {
            return Some(i);
        }
    }
    if let Some(path) = &memory.repository_path {
        if let Some(i) = position_by_repository(rows, path) {
            return Some(i);
        }
    }
    if let Some(path) = &memory.pending_path {
        if let Some(i) = position_by_observed(rows, path.as_str()) {
            return Some(i);
        }
    }
    if rows.len() == 0 {
        return None;
    }
    let wanted = match selected {
        Some(s) => s,
        None => 0,
    };
    Some(if wanted < rows.len() { wanted } else { rows.len() - 1 })
}

/// The selected position after a move by `delta`, kept within the rows (`usize` saturating).
pub open spec fn moved(selected: Option<usize>, delta: isize, len: usize) -> usize {
    let start: int = match selected {
        Some(s) => s as int,
        None => 0,
    };
    let target = start + delta;
    let clamped = if target < 0 { 0 } else if target > usize::MAX { usize::MAX as int } else { target };
    if clamped < len { clamped as usize } else { (len - 1) as usize }
}

pub fn moved_index(selected: Option<usize>, delta: isize, len: usize) -> (r: usize)
    requires
        len > 0,
    ensures
        r == moved(selected, delta, len),
        r < len,
{
    let start = match selected {
        Some(s) => s,
        None => 0,
    };
    let target: usize = if delta < 0 {
        let magnitude: usize = ((-(delta + 1)) as usize) + 1;
        if magnitude > start {
            0
        } else {
            start - magnitude
        }
    } else {
        let up = delta as usize;
        if up > usize::MAX - start {
            usize::MAX
        } else {
            start + up
        }
    };
    if target < len {
        target
    } else {
        len - 1
    }
}

/// A key pressed while searching.
#[derive(Debug, Clone, Copy, PartialEq, Eq)]
pub enum QueryKey {
    Backspace,
    /// A character; `modified` when Control, Alt or Super was held.
    Char { character: char, modified: bool },
    Other,
}

/// Edits the search query: Backspace drops its last character, an unmodified character is
/// appended, anything else leaves it.
pub fn edit_query(query: &mut String, key: QueryKey)
    ensures
        match key {
            QueryKey::Backspace => final(query)@ == if old(query)@.len() > 0 { old(query)@.drop_last() } else { old(query)@ },
            QueryKey::Char { character, modified } => final(query)@ == if modified { old(query)@ } else { old(query)@.push(character) },
            QueryKey::Other => final(query)@ == old(query)@,
        },
{
    match key {
        QueryKey::Backspace => {
            let text = chars(query.as_str());
            if text.len() > 0 {
                *query = string_of(&slice(&text, 0, text.len() - 1));
            }
        },
        QueryKey::Char { character, modified } => {
            if !modified {
                let mut text = chars(query.as_str());
                text.push(character);
                *query = string_of(&text);
            }
        },
        QueryKey::Other => {},
    }
}

// ---------------------------------------------------------------------------
// Scan events
// ---------------------------------------------------------------------------

/// A background scan event, with what the receiver checked of it: `current` when it belongs
/// to the running scan (its generation, root and configuration revision), `fresh` when the
/// checkout's target and contents still match what was probed.
#[derive(Debug, Clone, PartialEq, Eq)]
pub enum ScanUpdate {
    Discovered { path: String, current: bool },
    Checkout { checkout: LocalCheckout, target: String, current: bool, fresh: bool },
    Diagnostic { diagnostic: ScanDiagnostic, current: bool },
    Complete { incomplete: bool, current: bool },
    Failure,
}

/// What the inventory session knows of its running scan.
#[derive(Debug, Clone, PartialEq, Eq)]
pub struct ScanSession {
    pub scan: LocalScan,
    pub complete: bool,
    pub had_failure: bool,
}

/// The checkouts not observed at `path`, in their order.
pub open spec fn checkouts_away(s: Seq<LocalCheckout>, path: Seq<char>) -> Seq<LocalCheckout>
    decreases s.len(),
{
    if s.len() == 0 {
        Seq::empty()
    } else if same_path(s.last().path@, path) {
        checkouts_away(s.drop_last(), path)
    } else {
        checkouts_away(s.drop_last(), path).push(s.last())
    }
}

/// The paths other than `path`, in their order.
pub open spec fn paths_away(s: Seq<String>, path: Seq<char>) -> Seq<String>
    decreases s.len(),
{
    if s.len() == 0 {
        Seq::empty()
    } else if same_path(s.last()@, path) {
        paths_away(s.drop_last(), path)
    } else {
        paths_away(s.drop_last(), path).push(s.last())
    }
}

pub open spec fn lists_path(paths: Seq<String>, path: Seq<char>) -> bool {
    exists|j: int| 0 <= j < paths.len() && same_path((#[trigger] paths[j])@, path)
}

/// The checkouts observed at a pending path, in their order.
pub open spec fn pending_checkouts(s: Seq<LocalCheckout>, pending: Seq<String>) -> Seq<LocalCheckout>
    decreases s.len(),
{
    if s.len() == 0 {
        Seq::empty()
    } else if lists_path(pending, s.last().path@) {
        pending_checkouts(s.drop_last(), pending).push(s.last())
    } else {
        pending_checkouts(s.drop_last(), pending)
    }
}

/// `b` keeps every field of `a` that is not named as changed.
pub open spec fn unchanged_but(a: LocalScan, b: LocalScan, pending: bool, checkouts: bool, stale: bool, diagnostics: bool, incomplete: bool) -> bool {
    &&& (pending || b.pending_paths == a.pending_paths)
    &&& (checkouts || b.checkouts == a.checkouts)
    &&& (stale || b.stale_paths == a.stale_paths)
    &&& (diagnostics || b.diagnostics == a.diagnostics)
    &&& (incomplete || b.incomplete == a.incomplete)
    &&& b.complete == a.complete
}

/// The scan after a probed target changed: it is no longer pending or observed, and is
/// listed as stale once.
pub open spec fn rejected(a: LocalScan, b: LocalScan, path: String) -> bool {
    &&& b.pending_paths@ == paths_away(a.pending_paths@, path@)
    &&& b.checkouts@ == checkouts_away(a.checkouts@, path@)
    &&& b.stale_paths@ == if lists_path(a.stale_paths@, path@) {
        a.stale_paths@
    } else {
        a.stale_paths@.push(path)
    }
    &&& unchanged_but(a, b, true, true, true, false, false)
}

/// Keeps the checkouts not observed at `path`.
fn without_checkout_at(checkouts: Vec<LocalCheckout>, path: &str) -> (r: Vec<LocalCheckout>)
    ensures
        r@ == checkouts_away(checkouts@, path@),
        forall|k: int| 0 <= k < r@.len() ==> checkouts@.contains(#[trigger] r@[k]) && !same_path(r@[k].path@, path@),
        forall|j: int| 0 <= j < checkouts@.len() && !same_path((#[trigger] checkouts@[j]).path@, path@) ==> r@.contains(checkouts@[j]),
{
    let ghost original = checkouts@;
    let mut rest = checkouts;
    let mut kept: Vec<LocalCheckout> = Vec::new();
    let mut done: usize = 0;
    let total = rest.len();
    assert(original.subrange(0, 0) =~= original.subrange(0, 0).take(0));
    assert(kept@ =~= Seq::empty());
    while rest.len() > 0
        invariant
            done + rest@.len() == original.len(),
            original.len() == total,
            rest@ == original.subrange(done as int, original.len() as int),
            forall|k: int| 0 <= k < kept@.len() ==> original.contains(#[trigger] kept@[k]) && !same_path(kept@[k].path@, path@),
            forall|j: int| 0 <= j < done && !same_path((#[trigger] original[j]).path@, path@) ==> kept@.contains(original[j]),
            kept@ == checkouts_away(original.subrange(0, done as int), path@),
        decreases rest@.len(),
    {
        let checkout = rest.remove(0);
        assert(original[done as int] == checkout);
        assert(original.subrange(0, done + 1).drop_last() =~= original.subrange(0, done as int));
        assert(original.subrange(0, done + 1).last() == checkout);
        if !paths_equal(checkout.path.as_str(), path) {
            let ghost before = kept@;
            kept.push(checkout);
            proof {
                assert forall|j: int| 0 <= j < done + 1 && !same_path((#[trigger] original[j]).path@, path@) implies kept@.contains(original[j]) by {
                    if j < done {
                        let k = choose|k: int| 0 <= k < before.len() && before[k] == original[j];
                        assert(kept@[k] == original[j]);
                    } else {
                        assert(kept@[before.len() as int] == original[j]);
                    }
                }
            }
        }
        done += 1;
    }
    assert(original.subrange(0, original.len() as int) =~= original);
    kept
}

fn without_path(paths: Vec<String>, path: &str) -> (r: Vec<String>)
    ensures
        r@ == paths_away(paths@, path@),
        forall|k: int| 0 <= k < r@.len() ==> paths@.contains(#[trigger] r@[k]) && !same_path(r@[k]@, path@),
        forall|j: int| 0 <= j < paths@.len() && !same_path((#[trigger] paths@[j])@, path@) ==> r@.contains(paths@[j]),
{
    let ghost original = paths@;
    let mut rest = paths;
    let mut kept: Vec<String> = Vec::new();
    let mut done: usize = 0;
    let total = rest.len();
    assert(original.subrange(0, 0) =~= original.subrange(0, 0).take(0));
    assert(kept@ =~= Seq::empty());
    while rest.len() > 0
        invariant
            done + rest@.len() == original.len(),
            original.len() == total,
            rest@ == original.subrange(done as int, original.len() as int),
            forall|k: int| 0 <= k < kept@.len() ==> original.contains(#[trigger] kept@[k]) && !same_path(kept@[k]@, path@),
            forall|j: int| 0 <= j < done && !same_path((#[trigger] original[j])@, path@) ==> kept@.contains(original[j]),
            kept@ == paths_away(original.subrange(0, done as int), path@),
        decreases rest@.len(),
    {
        let item = rest.remove(0);
        assert(original[done as int] == item);
        assert(original.subrange(0, done + 1).drop_last() =~= original.subrange(0, done as int));
        assert(original.subrange(0, done + 1).last() == item);
        if !paths_equal(item.as_str(), path) {
            let ghost before = kept@;
            kept.push(item);
            proof {
                assert forall|j: int| 0 <= j < done + 1 && !same_path((#[trigger] original[j])@, path@) implies kept@.contains(original[j]) by {
                    if j < done {
                        let k = choose|k: int| 0 <= k < before.len() && before[k] == original[j];
                        assert(kept@[k] == original[j]);
                    } else {
                        assert(kept@[before.len() as int] == original[j]);
                    }
                }
            }
        }
        done += 1;
    }
    assert(original.subrange(0, original.len() as int) =~= original);
    kept
}

fn holds_path(paths: &Vec<String>, path: &str) -> (r: bool)
    ensures
        r == exists|j: int| 0 <= j < paths@.len() && same_path((#[trigger] paths@[j])@, path@),
{
    let mut i: usize = 0;
    while i < paths.len()
        invariant
            i <= paths@.len(),
            forall|j: int| 0 <= j < i ==> !same_path((#[trigger] paths@[j])@, path@),
        decreases paths.len() - i,
    {
        if paths_equal(paths[i].as_str(), path) {
            return true;
        }
        i += 1;
    }
    false
}

/// A probed target changed: it is no longer pending or observed, and is listed as stale once.
pub fn reject_changed_target(scan: &mut LocalScan, path: String)
    ensures
        rejected(*old(scan), *final(scan), path),
        forall|j: int| 0 <= j < final(scan).pending_paths@.len() ==> !same_path((#[trigger] final(scan).pending_paths@[j])@, path@),
        forall|j: int| 0 <= j < final(scan).checkouts@.len() ==> !same_path((#[trigger] final(scan).checkouts@[j]).path@, path@),
        exists|j: int| 0 <= j < final(scan).stale_paths@.len() && same_path((#[trigger] final(scan).stale_paths@[j])@, path@),
{
    let mut pending: Vec<String> = Vec::new();
    std::mem::swap(&mut scan.pending_paths, &mut pending);
    scan.pending_paths = without_path(pending, path.as_str());
    let mut checkouts: Vec<LocalCheckout> = Vec::new();
    std::mem::swap(&mut scan.checkouts, &mut checkouts);
    scan.checkouts = without_checkout_at(checkouts, path.as_str());
    if !holds_path(&scan.stale_paths, path.as_str()) {
        let ghost n = scan.stale_paths@.len();
        scan.stale_paths.push(path);
        assert(same_path(scan.stale_paths@[n as int]@, scan.stale_paths@[n as int]@));
    }
}

fn keep_pending_checkouts(checkouts: Vec<LocalCheckout>, pending: &Vec<String>) -> (r: Vec<LocalCheckout>)
    ensures
        r@ == pending_checkouts(checkouts@, pending@),
        forall|k: int| 0 <= k < r@.len() ==> checkouts@.contains(#[trigger] r@[k]) && exists|j: int| 0 <= j < pending@.len()
            && same_path((#[trigger] pending@[j])@, r@[k].path@),
{
    let ghost original = checkouts@;
    let mut rest = checkouts;
    let mut kept: Vec<LocalCheckout> = Vec::new();
    let mut done: usize = 0;
    let total = rest.len();
    assert(original.subrange(0, 0) =~= original.subrange(0, 0).take(0));
    assert(kept@ =~= Seq::empty());
    while rest.len() > 0
        invariant
            done + rest@.len() == original.len(),
            original.len() == total,
            rest@ == original.subrange(done as int, original.len() as int),
            forall|k: int| 0 <= k < kept@.len() ==> original.contains(#[trigger] kept@[k]) && exists|j: int| 0 <= j < pending@.len()
                && same_path((#[trigger] pending@[j])@, kept@[k].path@),
            kept@ == pending_checkouts(original.subrange(0, done as int), pending@),
        decreases rest@.len(),
    {
        let checkout = rest.remove(0);
        assert(original[done as int] == checkout);
        assert(original.subrange(0, done + 1).drop_last() =~= original.subrange(0, done as int));
        assert(original.subrange(0, done + 1).last() == checkout);
        if holds_path(pending, checkout.path.as_str()) {
            kept.push(checkout);
        }
        done += 1;
    }
    assert(original.subrange(0, original.len() as int) =~= original);
    kept
}

/// Takes one scan event into the session: only events of the running scan change the scan,
/// and failures are remembered whatever scan they came from.
pub fn apply_scan_update(session: &mut ScanSession, update: ScanUpdate)
    ensures
        final(session).had_failure == (old(session).had_failure || match update {
            ScanUpdate::Failure => true,
            ScanUpdate::Diagnostic { diagnostic, .. } => diagnostic.incomplete,
            _ => false,
        }),
        match update {
            ScanUpdate::Complete { current: true, .. } => final(session).complete,
            _ => final(session).complete == old(session).complete,
        },
        match update {
            ScanUpdate::Discovered { path, current } => if current {
                &&& final(session).scan.pending_paths@ == old(session).scan.pending_paths@.push(path)
                &&& unchanged_but(old(session).scan, final(session).scan, true, false, false, false, false)
            } else {
                final(session).scan == old(session).scan
            },
            ScanUpdate::Diagnostic { diagnostic, current } => if current {
                &&& final(session).scan.diagnostics@ == old(session).scan.diagnostics@.push(diagnostic)
                &&& final(session).scan.incomplete == (old(session).scan.incomplete || diagnostic.incomplete)
                &&& unchanged_but(old(session).scan, final(session).scan, false, false, false, true, true)
            } else {
                final(session).scan == old(session).scan
            },
            ScanUpdate::Complete { incomplete, current } => if current {
                &&& final(session).scan.complete
                &&& final(session).scan.incomplete == (old(session).scan.incomplete || incomplete)
                &&& final(session).scan.checkouts@ == if final(session).scan.incomplete {
                    old(session).scan.checkouts@
                } else {
                    pending_checkouts(old(session).scan.checkouts@, old(session).scan.pending_paths@)
                }
                &&& final(session).scan.pending_paths == old(session).scan.pending_paths
                &&& final(session).scan.stale_paths == old(session).scan.stale_paths
                &&& final(session).scan.diagnostics == old(session).scan.diagnostics
            } else {
                final(session).scan == old(session).scan
            },
            ScanUpdate::Checkout { checkout, target, current, fresh } => if current && fresh {
                &&& final(session).scan.checkouts@ == checkouts_away(old(session).scan.checkouts@, checkout.path@).push(checkout)
                &&& unchanged_but(old(session).scan, final(session).scan, false, true, false, false, false)
            } else if current {
                rejected(old(session).scan, final(session).scan, target)
            } else {
                final(session).scan == old(session).scan
            },
            ScanUpdate::Failure => final(session).scan == old(session).scan,
        },
{
    match update {
        ScanUpdate::Failure => {
            session.had_failure = true;
        },
        ScanUpdate::Discovered { path, current } => {
            if current {
                session.scan.pending_paths.push(path);
            }
        },
        ScanUpdate::Checkout { checkout, target, current, fresh } => {
            if current && fresh {
                let mut checkouts: Vec<LocalCheckout> = Vec::new();
                std::mem::swap(&mut session.scan.checkouts, &mut checkouts);
                let mut kept = without_checkout_at(checkouts, checkout.path.as_str());
                kept.push(checkout);
                session.scan.checkouts = kept;
            } else if current {
                reject_changed_target(&mut session.scan, target);
            }
        },
        ScanUpdate::Diagnostic { diagnostic, current } => {
            if diagnostic.incomplete {
                session.had_failure = true;
            }
            if current {
                session.scan.incomplete = session.scan.incomplete || diagnostic.incomplete;
                session.scan.diagnostics.push(diagnostic);
            }
        },
        ScanUpdate::Complete { incomplete, current } => {
            if current {
                session.complete = true;
                session.scan.complete = true;
                session.scan.incomplete = session.scan.incomplete || incomplete;
                if !session.scan.incomplete {
                    let mut checkouts: Vec<LocalCheckout> = Vec::new();
                std::mem::swap(&mut session.scan.checkouts, &mut checkouts);
                    session.scan.checkouts = keep_pending_checkouts(checkouts, &session.scan.pending_paths);
                }
            }
        },
    }
}

// ---------------------------------------------------------------------------
// Header and summary
// ---------------------------------------------------------------------------

/// `Path::file_name`, empty where there is none: the last component unless it is `..`.
pub open spec fn file_name_of(p: Seq<char>) -> Seq<char> {
    let c = components(p);
    if c.len() > 0 && c.last() != ".."@ {
        c.last()
    } else {
        Seq::empty()
    }
}

/// The header: the mode, the query, how many rows show, the observation generation and the
/// configuration's revision.
pub open spec fn header_line(search: bool, query: Seq<char>, visible: nat, generation: nat, revision: Seq<char>) -> Seq<char> {
    (if search { "SEARCH"@ } else { "NORMAL"@ }) + " / "@ + escape_seq(query) + " · "@ + spec_digits(visible, 10) + " rows · generation "@
        + spec_digits(generation, 10) + " · "@ + escape_seq(revision)
}

/// The diagnostics that only exclude a repository, each as its directory's name and message.
pub open spec fn ignored_entries(ds: Seq<ScanDiagnostic>) -> Seq<Seq<char>>
    decreases ds.len(),
{
    if ds.len() == 0 {
        Seq::empty()
    } else {
        let prev = ignored_entries(ds.drop_last());
        let d = ds.last();
        if d.incomplete {
            prev
        } else {
            prev.push(escape_seq(file_name_of(d.path@)) + ": "@ + escape_seq(d.message@))
        }
    }
}

/// The summary under the table: a partial scan, the ignored repositories (or else the
/// first diagnostic), the scan's progress, and the keys.
pub open spec fn summary_lines(incomplete: bool, ds: Seq<ScanDiagnostic>, complete: bool) -> Seq<Seq<char>> {
    let partial = if incomplete {
        seq!["partial scan: "@ + spec_digits(ds.len(), 10) + " diagnostics; one or more paths could not be read"@]
    } else {
        Seq::empty()
    };
    let ignored = ignored_entries(ds);
    let diagnostic = if ignored.len() > 0 {
        seq!["ignored repositories: "@ + join(ignored, ", "@)]
    } else if ds.len() > 0 {
        seq!["diagnostic: "@ + escape_seq(ds[0].path@) + ": "@ + escape_seq(ds[0].message@)]
    } else {
        Seq::empty()
    };
    let progress = if !complete {
        seq!["loading local discovery and observations…"@]
    } else if !incomplete {
        seq!["local scan complete"@]
    } else {
        Seq::empty()
    };
    partial + diagnostic + progress + seq!["q quit · Esc quit · R refresh local/config · remote unavailable"@]
}

fn file_name_text(path: &str) -> (r: Vec<char>)
    ensures
        r@ == file_name_of(path@),
{
    let parts = components_of(&chars(path));
    let ghost views = parts@.map_values(|v: Vec<char>| v@);
    if parts.len() > 0 {
        let last = &parts[parts.len() - 1];
        assert(views.last() == last@);
        if !equal(last, &chars("..")) {
            return slice(last, 0, last.len());
        }
    }
    Vec::new()
}

fn ignored_texts(ds: &Vec<ScanDiagnostic>) -> (r: Vec<Vec<char>>)
    ensures
        r@.map_values(|v: Vec<char>| v@) == ignored_entries(ds@),
{
    let mut out: Vec<Vec<char>> = Vec::new();
    let mut i: usize = 0;
    assert(ds@.subrange(0, 0) =~= Seq::<ScanDiagnostic>::empty());
    assert(out@.map_values(|v: Vec<char>| v@) =~= Seq::<Seq<char>>::empty());
    while i < ds.len()
        invariant
            i <= ds@.len(),
            out@.map_values(|v: Vec<char>| v@) == ignored_entries(ds@.subrange(0, i as int)),
        decreases ds.len() - i,
    {
        assert(ds@.subrange(0, i + 1).drop_last() =~= ds@.subrange(0, i as int));
        assert(ds@.subrange(0, i + 1).last() == ds@[i as int]);
        let d = &ds[i];
        if !d.incomplete {
            let name = escape(string_of(&file_name_text(d.path.as_str())).as_str());
            let entry = concat(&concat(&chars(name.as_str()), &chars(": ")), &chars(escape(d.message.as_str()).as_str()));
            let ghost before = out@.map_values(|v: Vec<char>| v@);
            out.push(entry);
            assert(out@.map_values(|v: Vec<char>| v@) =~= before.push(entry@));
        }
        i += 1;
    }
    assert(ds@.subrange(0, ds@.len() as int) =~= ds@);
    out
}

/// The header and summary lines of the inventory screen.
pub fn report_lines(report: &InventoryReport, complete: bool, visible_count: usize, search: bool, query: &str) -> (r: (Vec<String>, Vec<String>))
    ensures
        r.0.deep_view() == seq![header_line(search, query@, visible_count as nat, report.observation_generation as nat, report.config_revision@)],
        r.1.deep_view() == summary_lines(report.incomplete, report.diagnostics@, complete),
{
    let mode = if search { chars("SEARCH") } else { chars("NORMAL") };
    let header = concat(
        &concat(
            &concat(
                &concat(
                    &concat(&concat(&concat(&mode, &chars(" / ")), &chars(escape(query).as_str())), &chars(" · ")),
                    &chars(digits(visible_count as u64, 10).as_str()),
                ),
                &chars(" rows · generation "),
            ),
            &chars(digits(report.observation_generation, 10).as_str()),
        ),
        &concat(&chars(" · "), &chars(escape(report.config_revision.as_str()).as_str())),
    );
    let mut headers: Vec<String> = Vec::new();
    headers.push(string_of(&header));
    proof {
        assert(headers.deep_view() =~= seq![header@]);
        let h = header_line(search, query@, visible_count as nat, report.observation_generation as nat, report.config_revision@);
        assert(header@ =~= h);
    }
    let ghost ds = report.diagnostics@;
    let mut summary: Vec<String> = Vec::new();
    if report.incomplete {
        let line = concat(
            &concat(&chars("partial scan: "), &chars(digits(report.diagnostics.len() as u64, 10).as_str())),
            &chars(" diagnostics; one or more paths could not be read"),
        );
        summary.push(string_of(&line));
    }
    let ghost after_partial = summary.deep_view();
    let ignored = ignored_texts(&report.diagnostics);
    if ignored.len() > 0 {
        let line = concat(&chars("ignored repositories: "), &join_with(&ignored, &chars(", ")));
        summary.push(string_of(&line));
    } else if report.diagnostics.len() > 0 {
        let first = &report.diagnostics[0];
        let line = concat(
            &concat(&concat(&chars("diagnostic: "), &chars(escape(first.path.as_str()).as_str())), &chars(": ")),
            &chars(escape(first.message.as_str()).as_str()),
        );
        summary.push(string_of(&line));
    }
    let ghost after_diagnostic = summary.deep_view();
    if !complete {
        summary.push(string_of(&chars("loading local discovery and observations…")));
    } else if !report.incomplete {
        summary.push(string_of(&chars("local scan complete")));
    }
    let ghost after_progress = summary.deep_view();
    summary.push(string_of(&chars("q quit · Esc quit · R refresh local/config · remote unavailable")));
    proof {
        let partial = if report.incomplete {
            seq!["partial scan: "@ + spec_digits(ds.len(), 10) + " diagnostics; one or more paths could not be read"@]
        } else {
            Seq::<Seq<char>>::empty()
        };
        assert(after_partial =~= partial);
        let ig = ignored_entries(ds);
        let diagnostic = if ig.len() > 0 {
            seq!["ignored repositories: "@ + join(ig, ", "@)]
        } else if ds.len() > 0 {
            seq!["diagnostic: "@ + escape_seq(ds[0].path@) + ": "@ + escape_seq(ds[0].message@)]
        } else {
            Seq::<Seq<char>>::empty()
        };
        assert(after_diagnostic =~= partial + diagnostic);
        let progress = if !complete {
            seq!["loading local discovery and observations…"@]
        } else if !report.incomplete {
            seq!["local scan complete"@]
        } else {
            Seq::<Seq<char>>::empty()
        };
        assert(after_progress =~= partial + diagnostic + progress);
        assert(summary.deep_view() =~= summary_lines(report.incomplete, ds, complete));
    }
    (headers, summary)
}

} // verus!
