//! The repository picker: the rows handed to `fzf`, and how its answer maps back to the
//! candidates, by hidden row numbers and never by the labels shown.
use vstd::prelude::*;

use crate::application::ports::{SelectionCandidate, SelectionError};
use crate::config_file::{digits, spec_digits};
use crate::domain::repository::spec_identity;
use crate::presentation::{escape, escape_seq};
use crate::order::{first_where, lemma_first_where_bounds, lemma_first_where_none, lemma_first_where_stays};
use crate::text::{chars, concat, equal, first_index, find, slice, split, split_char, string_of};

verus! {

broadcast use vstd::seq::group_seq_axioms;

#[derive(Debug, Clone, PartialEq, Eq)]
pub enum FzfError {
    Missing,
    Cancelled,
    Start(String),
    Failed(i32),
}

pub open spec fn fzf_error_text(e: FzfError) -> Seq<char> {
    match e {
        FzfError::Missing => "fzf is required for interactive repository selection; install fzf and try again"@,
        FzfError::Cancelled => "repository selection was cancelled"@,
        FzfError::Start(m) => "could not start fzf: "@ + m@,
        FzfError::Failed(code) => "fzf failed with status "@ + signed_digits(code as int),
    }
}

/// An integer in decimal, with a minus sign when negative.
pub open spec fn signed_digits(n: int) -> Seq<char> {
    if n < 0 {
        "-"@ + spec_digits((-n) as nat, 10)
    } else {
        spec_digits(n as nat, 10)
    }
}

pub(crate) fn signed_text(n: i32) -> (r: String)
    ensures
        r@ == signed_digits(n as int),
{
    if n < 0 {
        let magnitude: u64 = ((-(n as i64)) as u64);
        string_of(&concat(&chars("-"), &chars(digits(magnitude, 10).as_str())))
    } else {
        digits(n as u64, 10)
    }
}

impl FzfError {
    /// The error's text.
    pub fn message(&self) -> (r: String)
        ensures
            r@ == fzf_error_text(*self),
    {
        match self {
            FzfError::Missing => string_of(&chars("fzf is required for interactive repository selection; install fzf and try again")),
            FzfError::Cancelled => string_of(&chars("repository selection was cancelled")),
            FzfError::Start(message) => string_of(&concat(&chars("could not start fzf: "), &chars(message.as_str()))),
            FzfError::Failed(code) => string_of(&concat(&chars("fzf failed with status "), &chars(signed_text(*code).as_str()))),
        }
    }
}

/// How `fzf`'s exit status reads: 1 and 130 (and no status at all) are a cancellation.
pub fn exit_error(code: Option<i32>) -> (r: FzfError)
    ensures
        match code {
            None => r is Cancelled,
            Some(c) => if c == 1 || c == 130 { r is Cancelled } else { r == FzfError::Failed(c) },
        },
{
    let code = match code {
        Some(code) => code,
        None => 130,
    };
    if code == 1 || code == 130 {
        FzfError::Cancelled
    } else {
        FzfError::Failed(code)
    }
}

/// The selector's error in the terms of the application.
pub fn selection_error(error: FzfError) -> (r: SelectionError)
    ensures
        match error {
            FzfError::Cancelled => r is Cancelled,
            FzfError::Missing => r matches SelectionError::Unavailable(m) && m@ == fzf_error_text(FzfError::Missing),
            FzfError::Start(m) => r == SelectionError::Failed(m),
            FzfError::Failed(code) => r matches SelectionError::Failed(m) && m@ == "fzf failed with status "@ + signed_digits(code as int),
        },
{
    match error {
        FzfError::Cancelled => SelectionError::Cancelled,
        FzfError::Missing => SelectionError::Unavailable(FzfError::Missing.message()),
        FzfError::Start(message) => SelectionError::Failed(message),
        FzfError::Failed(code) => SelectionError::Failed(FzfError::Failed(code).message()),
    }
}

/// What the picker shows of a candidate: an exact checkout as its identity and path in
/// columns of their own, any other candidate as its display text; both escaped.
pub open spec fn label_text(c: SelectionCandidate) -> Seq<char> {
    match c.exact_path {
        Some(p) => escape_seq(spec_identity(c.reference@)) + "\t"@ + escape_seq(p@),
        None => escape_seq(c.display@),
    }
}

pub fn candidate_label(candidate: &SelectionCandidate) -> (r: String)
    ensures
        r@ == label_text(*candidate),
{
    match &candidate.exact_path {
        Some(path) => string_of(
            &concat(&concat(&chars(escape(candidate.reference.identity().as_str()).as_str()), &chars("\t")), &chars(escape(path.as_str()).as_str())),
        ),
        None => escape(candidate.display.as_str()),
    }
}

/// The rows written to `fzf`: each candidate's position, a tab, and its label.
pub fn picker_rows(candidates: &Vec<SelectionCandidate>) -> (r: Vec<String>)
    ensures
        r@.len() == candidates@.len(),
        forall|i: int| 0 <= i < r@.len() ==> (#[trigger] r@[i])@ == spec_digits(i as nat, 10) + "\t"@ + label_text(candidates@[i]),
{
    let mut rows: Vec<String> = Vec::new();
    let mut i: usize = 0;
    while i < candidates.len()
        invariant
            i <= candidates@.len(),
            rows@.len() == i,
            forall|k: int| 0 <= k < i ==> (#[trigger] rows@[k])@ == spec_digits(k as nat, 10) + "\t"@ + label_text(candidates@[k]),
        decreases candidates.len() - i,
    {
        let row = concat(&concat(&chars(digits(i as u64, 10).as_str()), &chars("\t")), &chars(candidate_label(&candidates[i]).as_str()));
        rows.push(string_of(&row));
        i += 1;
    }
    rows
}

/// The hidden row number at the start of a line, up to its first tab.
pub open spec fn row_id(line: Seq<char>) -> Option<Seq<char>> {
    let t = first_index(line, '\t');
    if t < 0 {
        None
    } else {
        Some(line.subrange(0, t))
    }
}

/// The line names position `k` by its row number.
pub open spec fn names_row(k: nat) -> spec_fn(Seq<char>) -> bool {
    |line: Seq<char>| row_id(line) == Some(spec_digits(k, 10))
}

/// The first line that names position `k`, or -1.
pub open spec fn first_naming(lines: Seq<Seq<char>>, k: nat) -> int {
    first_where(lines, names_row(k), lines.len() as int)
}

/// The candidates `fzf` answered with, by the row numbers at the start of its output lines,
/// in the order given; each candidate at most once, lines without a known number ignored.
pub fn selected_positions(output: &str, count: usize) -> (r: Vec<usize>)
    ensures
        forall|a: int, b: int| 0 <= a < b < r@.len() ==> first_naming(split(output@, '\n'), r@[a] as nat) <= first_naming(
            split(output@, '\n'),
            r@[b] as nat,
        ),
        forall|k: int| 0 <= k < r@.len() ==> (#[trigger] r@[k]) < count && line_names(split(output@, '\n'), r@[k] as nat),
        forall|a: int, b: int| 0 <= a < b < r@.len() ==> r@[a] != r@[b],
        forall|k: nat| #[trigger] line_names(split(output@, '\n'), k) && k < count ==> r@.contains(k as usize),
{
    let parts = split_char(&chars(output), '\n');
    let ghost lines = parts@.map_values(|v: Vec<char>| v@);
    let mut used: Vec<bool> = Vec::new();
    let mut u: usize = 0;
    while u < count
        invariant
            u <= count,
            used@.len() == u,
            forall|j: int| 0 <= j < u ==> !used@[j],
        decreases count - u,
    {
        used.push(false);
        u += 1;
    }
    let mut picked: Vec<usize> = Vec::new();
    let mut i: usize = 0;
    while i < parts.len()
        invariant
            i <= parts@.len(),
            used@.len() == count,
            lines == parts@.map_values(|v: Vec<char>| v@),
            lines == split(output@, '\n'),
            forall|k: int| 0 <= k < picked@.len() ==> (#[trigger] picked@[k]) < count && used@[picked@[k] as int] && line_names(lines, picked@[k] as nat),
            forall|a: int, b: int| 0 <= a < b < picked@.len() ==> picked@[a] != picked@[b],
            forall|k: int| 0 <= k < count && used@[k] ==> picked@.contains(k as usize),
            forall|k: nat| #[trigger] line_names(lines.subrange(0, i as int), k) && k < count ==> picked@.contains(k as usize),
            forall|m: int| 0 <= m < picked@.len() ==> 0 <= first_naming(lines, #[trigger] picked@[m] as nat) < i,
            forall|a: int, b: int| 0 <= a < b < picked@.len() ==> first_naming(lines, #[trigger] picked@[a] as nat) <= first_naming(
                lines,
                #[trigger] picked@[b] as nat,
            ),
        decreases parts.len() - i,
    {
        let line = &parts[i];
        assert(lines[i as int] == line@);
        let ghost before = picked@;
        let ghost used_before = used@;
        if let Some(tab) = find(line, '\t') {
            proof {
                crate::text::lemma_first_index_bounds(line@, '\t');
            }
            let id = slice(line, 0, tab);
            assert(row_id(line@) == Some(id@));
            let mut k: usize = 0;
            while k < count
                invariant
                    k <= count,
                    used@.len() == count,
                    row_id(lines[i as int]) == Some(id@),
                    forall|m: int| 0 <= m < picked@.len() ==> (#[trigger] picked@[m]) < count && used@[picked@[m] as int]
                        && (m < before.len() ==> picked@[m] == before[m]) && (m >= before.len() ==> spec_digits(picked@[m] as nat, 10) == id@),
                    picked@.len() >= before.len(),
                    forall|a: int, b: int| 0 <= a < b < picked@.len() ==> picked@[a] != picked@[b],
                    forall|m: int| 0 <= m < count && used@[m] ==> picked@.contains(m as usize),
                    forall|m: int| 0 <= m < count && used_before[m] ==> used@[m],
                    forall|m: int| 0 <= m < k && spec_digits(m as nat, 10) == id@ ==> used@[m],
                    i < lines.len(),
                    lines == split(output@, '\n'),
                    forall|q: nat| #[trigger] line_names(lines.subrange(0, i as int), q) && q < count ==> before.contains(q as usize),
                    forall|m: int| 0 <= m < before.len() ==> 0 <= first_naming(lines, #[trigger] before[m] as nat) < i,
                    forall|m: int| 0 <= m < picked@.len() ==> 0 <= first_naming(lines, #[trigger] picked@[m] as nat) <= i,
                    forall|a: int, b: int| 0 <= a < b < picked@.len() ==> first_naming(lines, #[trigger] picked@[a] as nat) <= first_naming(
                        lines,
                        #[trigger] picked@[b] as nat,
                    ),
                    forall|m: int| 0 <= m < before.len() ==> #[trigger] used_before[before[m] as int],
                decreases count - k,
            {
                if !used[k] && equal(&chars(digits(k as u64, 10).as_str()), &id) {
                    let ghost picked_before = picked@;
                    proof {
                        let kk = k as nat;
                        let nb = names_row(kk);
                        if before.contains(k) {
                            let q = choose|q: int| 0 <= q < before.len() && before[q] == k;
                            assert(used_before[before[q] as int]);
                        }
                        assert(!line_names(lines.subrange(0, i as int), kk));
                        assert forall|j: int| 0 <= j < i implies !nb(#[trigger] lines[j]) by {
                            assert(lines.subrange(0, i as int)[j] == lines[j]);
                            if nb(lines[j]) {
                                assert(row_id(lines.subrange(0, i as int)[j]) == Some(spec_digits(kk, 10)));
                            }
                        }
                        lemma_first_where_none(lines, nb, i as int);
                        assert(nb(lines[i as int]));
                        assert(first_where(lines, nb, i + 1) == i);
                        lemma_first_where_stays(lines, nb, i + 1, lines.len() as int);
                        assert(first_naming(lines, kk) == i);
                    }
                    used.set(k, true);
                    picked.push(k);
                    proof {
                        assert forall|m: int| 0 <= m < count && used@[m] implies picked@.contains(m as usize) by {
                            if m == k as int {
                                assert(picked@[picked_before.len() as int] == k);
                            } else {
                                let q = choose|q: int| 0 <= q < picked_before.len() && picked_before[q] == m as usize;
                                assert(picked@[q] == m as usize);
                            }
                        }
                    }
                }
                k += 1;
            }
        }
        proof {
            assert forall|k: int| 0 <= k < picked@.len() implies (#[trigger] picked@[k]) < count && used@[picked@[k] as int] && line_names(lines, picked@[k] as nat) by {
                if k < before.len() {
                    assert(picked@[k] == before[k]);
                } else {
                    assert(row_id(lines[i as int]) == Some(spec_digits(picked@[k] as nat, 10)));
                }
            }
            assert forall|k: int| 0 <= k < count && used@[k] implies picked@.contains(k as usize) by {
                if used_before[k] {
                    let m = choose|m: int| 0 <= m < before.len() && before[m] == k as usize;
                    assert(picked@[m] == k as usize);
                }
            }
            assert forall|k: nat| #[trigger] line_names(lines.subrange(0, i + 1), k) && k < count implies picked@.contains(k as usize) by {
                let j = choose|j: int| 0 <= j < lines.subrange(0, i + 1).len() && #[trigger] row_id(lines.subrange(0, i + 1)[j]) == Some(spec_digits(k, 10));
                if j < i {
                    assert(lines.subrange(0, i as int)[j] == lines.subrange(0, i + 1)[j]);
                    assert(line_names(lines.subrange(0, i as int), k));
                    let m = choose|m: int| 0 <= m < before.len() && before[m] == k as usize;
                    assert(picked@[m] == k as usize);
                } else {
                    assert(row_id(line@) == Some(spec_digits(k, 10)));
                    assert(used@[k as int]);
                }
            }
        }
        i += 1;
    }
    assert(lines.subrange(0, lines.len() as int) =~= lines);
    picked
}

/// Some line's row number names position `k`.
pub open spec fn line_names(lines: Seq<Seq<char>>, k: nat) -> bool {
    exists|j: int| 0 <= j < lines.len() && #[trigger] row_id(lines[j]) == Some(spec_digits(k, 10))
}

} // verus!
