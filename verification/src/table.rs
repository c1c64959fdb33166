//! Laying out the inventory table: each column as wide as its widest cell, narrowed to fit
//! the screen, and cells cut to their column with an ellipsis.
use vstd::prelude::*;

use crate::application::inventory::{checkout_label, observation_label, registration_label, InventoryRow, ObservationField};
use crate::paths::{paths_equal, same_path};
use crate::presentation::{escape, escape_seq};
use crate::text::{chars, concat, join, string_of};

verus! {

broadcast use vstd::seq::group_seq_axioms;

/// The width a terminal gives the text, as the table widget measures it.
pub uninterp spec fn display_width(s: Seq<char>) -> nat;

/// `ratatui::text::Line::width` of the text: its width in terminal cells.
#[verifier::external_body]
fn text_width(s: &str) -> (r: usize)
    ensures
        r as nat == display_width(s@),
{
    ratatui::text::Line::raw(s).width()
}

/// The width a terminal gives the text as one span, as the table widget measures a span.
pub uninterp spec fn span_width(s: Seq<char>) -> nat;

/// `ratatui::text::Span::width` of a span holding the one character.
#[verifier::external_body]
fn char_width(c: char) -> (r: usize)
    ensures
        r as nat == span_width(seq![c]),
{
    ratatui::text::Span::raw(c.to_string()).width()
}

/// The longest start of `cs` whose characters fit in `width` cells once `used` are taken.
pub open spec fn kept_prefix(cs: Seq<char>, width: nat, used: nat) -> Seq<char>
    decreases cs.len(),
{
    if cs.len() == 0 {
        Seq::empty()
    } else {
        let u = used + span_width(seq![cs[0]]);
        if u > width {
            Seq::empty()
        } else {
            seq![cs[0]] + kept_prefix(cs.drop_first(), width, u)
        }
    }
}

pub open spec fn reversed(s: Seq<char>) -> Seq<char> {
    Seq::new(s.len(), |k: int| s[s.len() - 1 - k])
}

/// A cell cut to `width`: unchanged when it fits; else as much of its start (or, for a
/// path, of its end) as fits beside an ellipsis.
pub open spec fn spec_abbreviate(v: Seq<char>, width: nat, tail: bool) -> Seq<char> {
    if display_width(v) <= width {
        v
    } else if width == 0 {
        Seq::empty()
    } else if tail {
        seq!['…'] + reversed(kept_prefix(reversed(v), width, 1))
    } else {
        kept_prefix(v, width, 1).push('…')
    }
}

fn reverse_chars(v: &Vec<char>) -> (r: Vec<char>)
    ensures
        r@ == reversed(v@),
{
    let mut out: Vec<char> = Vec::new();
    let mut i: usize = v.len();
    while i > 0
        invariant
            i <= v@.len(),
            out@.len() == v@.len() - i,
            forall|k: int| 0 <= k < out@.len() ==> #[trigger] out@[k] == v@[v@.len() - 1 - k],
        decreases i,
    {
        i -= 1;
        out.push(v[i]);
    }
    assert(out@ =~= reversed(v@));
    out
}

/// The longest start of `cs` that fits in `width` cells beside one taken cell.
fn keep_prefix(cs: &Vec<char>, width: usize) -> (r: Vec<char>)
    requires
        width >= 1,
    ensures
        r@ == kept_prefix(cs@, width as nat, 1),
{
    let mut result: Vec<char> = Vec::new();
    let mut used: usize = 1;
    let mut i: usize = 0;
    assert(cs@.subrange(0, cs@.len() as int) =~= cs@);
    assert(result@ + kept_prefix(cs@, width as nat, 1) =~= kept_prefix(cs@, width as nat, 1));
    while i < cs.len()
        invariant
            i <= cs@.len(),
            used <= width,
            result@ + kept_prefix(cs@.subrange(i as int, cs@.len() as int), width as nat, used as nat) == kept_prefix(cs@, width as nat, 1),
        decreases cs.len() - i,
    {
        let ghost rest = cs@.subrange(i as int, cs@.len() as int);
        assert(rest[0] == cs@[i as int]);
        assert(rest.drop_first() =~= cs@.subrange(i + 1, cs@.len() as int));
        let w = char_width(cs[i]);
        if w > width - used {
            assert(kept_prefix(rest, width as nat, used as nat) =~= Seq::<char>::empty());
            assert(result@ + Seq::<char>::empty() =~= result@);
            return result;
        }
        let ghost before = result@;
        used = used + w;
        result.push(cs[i]);
        assert(before + kept_prefix(rest, width as nat, (used - w) as nat) =~= result@ + kept_prefix(rest.drop_first(), width as nat, used as nat));
        i += 1;
    }
    assert(cs@.subrange(i as int, cs@.len() as int) =~= Seq::<char>::empty());
    assert(result@ + Seq::<char>::empty() =~= result@);
    result
}

/// A cell cut to its column's width.
pub fn abbreviate(value: &str, width: usize, tail: bool) -> (r: String)
    ensures
        r@ == spec_abbreviate(value@, width as nat, tail),
{
    if text_width(value) <= width {
        return string_of(&chars(value));
    }
    if width == 0 {
        return string_of(&Vec::new());
    }
    let cs = chars(value);
    if tail {
        let kept = keep_prefix(&reverse_chars(&cs), width);
        let back = reverse_chars(&kept);
        let mut out: Vec<char> = Vec::new();
        out.push('…');
        let mut i: usize = 0;
        while i < back.len()
            invariant
                i <= back@.len(),
                out@ == seq!['…'] + back@.subrange(0, i as int),
            decreases back.len() - i,
        {
            out.push(back[i]);
            assert(back@.subrange(0, i + 1) =~= back@.subrange(0, i as int).push(back@[i as int]));
            i += 1;
        }
        assert(back@.subrange(0, back@.len() as int) =~= back@);
        string_of(&out)
    } else {
        let mut kept = keep_prefix(&cs, width);
        kept.push('…');
        string_of(&kept)
    }
}

// ---------------------------------------------------------------------------
// Column widths
// ---------------------------------------------------------------------------

pub open spec fn seq_sum(w: Seq<usize>) -> int
    decreases w.len(),
{
    if w.len() == 0 {
        0
    } else {
        seq_sum(w.drop_last()) + w.last()
    }
}

/// Among the first `n` columns wider than their least width, the last of the widest; or -1.
pub open spec fn last_widest(w: Seq<usize>, least: Seq<usize>, n: int) -> int
    decreases n,
{
    if n <= 0 {
        -1
    } else {
        let p = last_widest(w, least, n - 1);
        if w[n - 1] > least[n - 1] && (p < 0 || w[n - 1] >= w[p]) {
            n - 1
        } else {
            p
        }
    }
}

/// The widths once narrowed to `available`, one cell at a time from the widest column that
/// can still give one up (the last of them), for at most `steps` cells.
pub open spec fn fitted(w: Seq<usize>, least: Seq<usize>, available: int, steps: nat) -> Seq<usize>
    decreases steps,
{
    if steps == 0 || seq_sum(w) <= available {
        w
    } else {
        let k = last_widest(w, least, w.len() as int);
        if k < 0 {
            w
        } else {
            fitted(w.update(k, (w[k] - 1) as usize), least, available, (steps - 1) as nat)
        }
    }
}

proof fn lemma_last_widest_bounds(w: Seq<usize>, least: Seq<usize>, n: int)
    requires
        0 <= n <= w.len(),
        w.len() == least.len(),
    ensures
        last_widest(w, least, n) < n,
        last_widest(w, least, n) >= 0 ==> w[last_widest(w, least, n)] > least[last_widest(w, least, n)],
    decreases n,
{
    if n > 0 {
        lemma_last_widest_bounds(w, least, n - 1);
    }
}

proof fn lemma_sum_update(w: Seq<usize>, k: int, x: usize)
    requires
        0 <= k < w.len(),
    ensures
        seq_sum(w.update(k, x)) == seq_sum(w) - w[k] + x,
    decreases w.len(),
{
    let u = w.update(k, x);
    if k == w.len() - 1 {
        assert(u.drop_last() =~= w.drop_last());
    } else {
        lemma_sum_update(w.drop_last(), k, x);
        assert(u.drop_last() =~= w.drop_last().update(k, x));
    }
}

proof fn lemma_sum_bound(w: Seq<usize>, bound: int)
    requires
        forall|k: int| 0 <= k < w.len() ==> #[trigger] w[k] <= bound,
        bound >= 0,
    ensures
        0 <= seq_sum(w) <= w.len() * bound,
    decreases w.len(),
{
    if w.len() > 0 {
        lemma_sum_bound(w.drop_last(), bound);
        assert(w.len() * bound == (w.len() - 1) * bound + bound) by (nonlinear_arith);
    }
}

/// Narrows the columns to `available` cells, never below a column's least width.
pub fn fit_widths(widths: Vec<usize>, least: &Vec<usize>, available: usize) -> (r: Vec<usize>)
    requires
        widths@.len() == least@.len(),
        widths@.len() <= 65536,
        forall|k: int| 0 <= k < widths@.len() ==> #[trigger] widths@[k] <= 65535,
    ensures
        r@ == fitted(widths@, least@, available as int, seq_sum(widths@) as nat),
{
    let ghost start = widths@;
    proof {
        lemma_sum_bound(start, 65535);
    }
    let mut w = widths;
    loop
        invariant
            start == widths@,
            w@.len() == least@.len(),
            w@.len() <= 65536,
            forall|k: int| 0 <= k < w@.len() ==> #[trigger] w@[k] <= 65535,
            0 <= seq_sum(w@),
            fitted(w@, least@, available as int, seq_sum(w@) as nat) == fitted(start, least@, available as int, seq_sum(start) as nat),
        decreases seq_sum(w@),
    {
        proof {
            lemma_sum_bound(w@, 65535);
        }
        let mut total: usize = 0;
        let mut j: usize = 0;
        while j < w.len()
            invariant
                j <= w@.len(),
                w@.len() <= 65536,
                forall|k: int| 0 <= k < w@.len() ==> #[trigger] w@[k] <= 65535,
                total == seq_sum(w@.subrange(0, j as int)),
                total <= j * 65535,
            decreases w.len() - j,
        {
            assert(w@.subrange(0, j + 1).drop_last() =~= w@.subrange(0, j as int));
            total = total + w[j];
            j += 1;
        }
        assert(w@.subrange(0, w@.len() as int) =~= w@);
        if total <= available {
            assert(fitted(w@, least@, available as int, seq_sum(w@) as nat) == w@);
            return w;
        }
        let mut widest: Option<usize> = None;
        let mut i: usize = 0;
        while i < w.len()
            invariant
                i <= w@.len(),
                w@.len() == least@.len(),
                match widest {
                    Some(p) => p < i && last_widest(w@, least@, i as int) == p as int,
                    None => last_widest(w@, least@, i as int) == -1,
                },
            decreases w.len() - i,
        {
            let better = w[i] > least[i] && match widest {
                Some(p) => w[i] >= w[p],
                None => true,
            };
            if better {
                widest = Some(i);
            }
            i += 1;
        }
        let k = match widest {
            Some(k) => k,
            None => {
                assert(fitted(w@, least@, available as int, seq_sum(w@) as nat) == w@);
                return w;
            },
        };
        proof {
            lemma_last_widest_bounds(w@, least@, w@.len() as int);
            lemma_sum_update(w@, k as int, (w@[k as int] - 1) as usize);
        }
        let ghost before = w@;
        let smaller = w[k] - 1;
        w.set(k, smaller);
        assert(w@ == before.update(k as int, (before[k as int] - 1) as usize));
        assert(fitted(before, least@, available as int, seq_sum(before) as nat) == fitted(w@, least@, available as int, seq_sum(w@) as nat));
    }
}

// ---------------------------------------------------------------------------
// Cells in columns
// ---------------------------------------------------------------------------

pub open spec fn spaces(n: nat) -> Seq<char> {
    Seq::new(n, |k: int| ' ')
}

/// A cell followed by the spaces that fill its column.
pub open spec fn padded(v: Seq<char>, width: nat) -> Seq<char> {
    v + spaces(if display_width(v) < width { (width - display_width(v)) as nat } else { 0 })
}

pub open spec fn padded_all(values: Seq<Seq<char>>, widths: Seq<usize>) -> Seq<Seq<char>> {
    Seq::new(values.len(), |k: int| padded(values[k], widths[k] as nat))
}

/// The cells of one line, each filling its column, separated by ` | `.
pub fn columns(values: &Vec<String>, widths: &Vec<usize>) -> (r: String)
    requires
        values@.len() <= widths@.len(),
    ensures
        r@ == join(padded_all(values.deep_view(), widths@), " | "@),
{
    let mut cells: Vec<Vec<char>> = Vec::new();
    let mut k: usize = 0;
    while k < values.len()
        invariant
            k <= values@.len(),
            values@.len() <= widths@.len(),
            cells@.len() == k,
            forall|q: int| 0 <= q < k ==> (#[trigger] cells@[q])@ == padded(values@[q]@, widths@[q] as nat),
        decreases values.len() - k,
    {
        let mut cell = chars(values[k].as_str());
        let used = text_width(values[k].as_str());
        let fill: usize = if used < widths[k] { widths[k] - used } else { 0 };
        let ghost text = cell@;
        let mut n: usize = 0;
        while n < fill
            invariant
                n <= fill,
                cell@ == text + spaces(n as nat),
            decreases fill - n,
        {
            cell.push(' ');
            assert(text + spaces((n + 1) as nat) =~= (text + spaces(n as nat)).push(' '));
            n += 1;
        }
        cells.push(cell);
        k += 1;
    }
    assert(cells@.map_values(|v: Vec<char>| v@) =~= padded_all(values.deep_view(), widths@)) by {
        assert forall|q: int| 0 <= q < values@.len() implies values.deep_view()[q] == values@[q]@ by {}
    }
    string_of(&crate::text::join_with(&cells, &chars(" | ")))
}

/// The widest cell of column `col` among the rows.
pub open spec fn cell_widest(rows: Seq<Seq<Seq<char>>>, col: int) -> nat
    decreases rows.len(),
{
    if rows.len() == 0 {
        0
    } else {
        let prev = cell_widest(rows.drop_last(), col);
        let here = display_width(rows.last()[col]);
        if here > prev { here } else { prev }
    }
}

/// A column as wide as its widest cell and its heading, at most 65535 cells.
pub open spec fn column_width(heading: Seq<char>, rows: Seq<Seq<Seq<char>>>, col: int) -> nat {
    let widest = if cell_widest(rows, col) > heading.len() { cell_widest(rows, col) } else { heading.len() };
    if widest > 65535 { 65535 } else { widest }
}

pub open spec fn rows_view(rows: Seq<Vec<String>>) -> Seq<Seq<Seq<char>>> {
    rows.map_values(|r: Vec<String>| r.deep_view())
}

/// Each column's width before fitting.
pub fn column_widths(headings: &Vec<String>, rows: &Vec<Vec<String>>) -> (r: Vec<usize>)
    requires
        forall|k: int| 0 <= k < rows@.len() ==> (#[trigger] rows@[k])@.len() >= headings@.len(),
    ensures
        r@.len() == headings@.len(),
        forall|c: int| 0 <= c < r@.len() ==> (#[trigger] r@[c]) as nat == column_width(headings@[c]@, rows_view(rows@), c) && r@[c] <= 65535,
{
    let mut out: Vec<usize> = Vec::new();
    let mut c: usize = 0;
    while c < headings.len()
        invariant
            c <= headings@.len(),
            out@.len() == c,
            forall|k: int| 0 <= k < rows@.len() ==> (#[trigger] rows@[k])@.len() >= headings@.len(),
            forall|q: int| 0 <= q < c ==> (#[trigger] out@[q]) as nat == column_width(headings@[q]@, rows_view(rows@), q) && out@[q] <= 65535,
        decreases headings.len() - c,
    {
        let mut widest: usize = 0;
        let mut k: usize = 0;
        assert(rows_view(rows@).subrange(0, 0) =~= Seq::<Seq<Seq<char>>>::empty());
        while k < rows.len()
            invariant
                k <= rows@.len(),
                c < headings@.len(),
                forall|j: int| 0 <= j < rows@.len() ==> (#[trigger] rows@[j])@.len() >= headings@.len(),
                widest as nat == cell_widest(rows_view(rows@).subrange(0, k as int), c as int),
            decreases rows.len() - k,
        {
            let ghost sub = rows_view(rows@).subrange(0, k + 1);
            assert(sub.drop_last() =~= rows_view(rows@).subrange(0, k as int));
            assert(sub.last() == rows@[k as int].deep_view());
            assert(rows@[k as int].deep_view()[c as int] == rows@[k as int]@[c as int]@);
            let here = text_width(rows[k][c].as_str());
            if here > widest {
                widest = here;
            }
            k += 1;
        }
        assert(rows_view(rows@).subrange(0, rows@.len() as int) =~= rows_view(rows@));
        let heading = chars(headings[c].as_str());
        let mut width = if widest > heading.len() { widest } else { heading.len() };
        if width > 65535 {
            width = 65535;
        }
        out.push(width);
        c += 1;
    }
    out
}

// ---------------------------------------------------------------------------
// A row of the inventory table
// ---------------------------------------------------------------------------

/// The cells of a row: repository, (path,) registration, checkout, (origin,) branch and
/// changes; path and origin only in the wide layout.
pub open spec fn spec_row_cells(row: InventoryRow, compact: bool) -> Seq<Seq<char>> {
    let lead = seq![escape_seq(row.repository@)] + (if compact { Seq::empty() } else { seq![escape_seq(row.path@)] })
        + seq![registration_label(row.registration), checkout_label(row.checkout)];
    lead + (if compact { Seq::empty() } else { seq![escape_seq(row.origin@)] })
        + seq![escape_seq(observation_label(row.branch)), escape_seq(observation_label(row.changes))]
}

/// Whether a cell is cut from its start, keeping its end: the path in the wide layout, and the
/// repository of a row that is only a path.
pub open spec fn cut_from_start(row: InventoryRow, compact: bool, index: int) -> bool {
    (!compact && index == 1) || (index == 0 && row.observed_path is Some && row.repository@ == row.path@)
}

/// The lines under a row: where it was configured to be (when found elsewhere) and its
/// warnings in the wide layout, then each observation that failed or went stale.
pub open spec fn spec_extra_lines(row: InventoryRow, compact: bool) -> Seq<Seq<char>> {
    let configured = if !compact && row.configured_destination is Some && row.observed_path is Some
        && !same_path(row.observed_path->Some_0@, row.configured_destination->Some_0@) {
        seq!["  configured: "@ + escape_seq(row.configured_destination->Some_0@)]
    } else {
        Seq::empty()
    };
    let warnings = if compact {
        Seq::empty()
    } else {
        row.warnings.deep_view().map_values(|w: Seq<char>| "  warning: "@ + escape_seq(w))
    };
    let branch = if row.branch is Error || row.branch is Stale {
        seq!["  branch: "@ + escape_seq(observation_label(row.branch))]
    } else {
        Seq::empty()
    };
    let changes = if row.changes is Error || row.changes is Stale {
        seq!["  changes: "@ + escape_seq(observation_label(row.changes))]
    } else {
        Seq::empty()
    };
    configured + warnings + branch + changes
}

/// The cells of a row, before they are cut to their columns.
pub fn row_cells(row: &InventoryRow, compact: bool) -> (r: Vec<String>)
    ensures
        r.deep_view() == spec_row_cells(*row, compact),
{
    let mut cells: Vec<String> = Vec::new();
    cells.push(escape(row.repository.as_str()));
    if !compact {
        cells.push(escape(row.path.as_str()));
    }
    cells.push(string_of(&chars(row.registration.label())));
    cells.push(string_of(&chars(row.checkout.label())));
    if !compact {
        cells.push(escape(row.origin.as_str()));
    }
    cells.push(escape(row.branch.label().as_str()));
    cells.push(escape(row.changes.label().as_str()));
    assert(cells.deep_view() =~= spec_row_cells(*row, compact));
    cells
}

fn failed_or_stale(field: &ObservationField) -> (r: bool)
    ensures
        r == (*field is Error || *field is Stale),
{
    match field {
        ObservationField::Error(_) | ObservationField::Stale(_) => true,
        _ => false,
    }
}

/// The lines under a row.
pub fn extra_lines(row: &InventoryRow, compact: bool) -> (r: Vec<String>)
    ensures
        r.deep_view() == spec_extra_lines(*row, compact),
{
    let mut lines: Vec<String> = Vec::new();
    if !compact {
        if let (Some(destination), Some(observed)) = (&row.configured_destination, &row.observed_path) {
            if !paths_equal(observed.as_str(), destination.as_str()) {
                lines.push(string_of(&concat(&chars("  configured: "), &chars(escape(destination.as_str()).as_str()))));
            }
        }
    }
    let ghost configured = lines.deep_view();
    proof {
        let expected = if !compact && row.configured_destination is Some && row.observed_path is Some
            && !same_path(row.observed_path->Some_0@, row.configured_destination->Some_0@) {
            seq!["  configured: "@ + escape_seq(row.configured_destination->Some_0@)]
        } else {
            Seq::<Seq<char>>::empty()
        };
        assert(configured =~= expected);
    }
    if !compact {
        let mut k: usize = 0;
        while k < row.warnings.len()
            invariant
                k <= row.warnings@.len(),
                !compact,
                lines.deep_view() == configured + row.warnings.deep_view().subrange(0, k as int).map_values(|w: Seq<char>| "  warning: "@ + escape_seq(w)),
            decreases row.warnings.len() - k,
        {
            let ghost before = lines.deep_view();
            let line = string_of(&concat(&chars("  warning: "), &chars(escape(row.warnings[k].as_str()).as_str())));
            lines.push(line);
            proof {
                let ws = row.warnings.deep_view();
                assert(ws[k as int] == row.warnings@[k as int]@);
                assert(ws.subrange(0, k + 1).map_values(|w: Seq<char>| "  warning: "@ + escape_seq(w))
                    =~= ws.subrange(0, k as int).map_values(|w: Seq<char>| "  warning: "@ + escape_seq(w)).push("  warning: "@ + escape_seq(ws[k as int])));
                assert(lines.deep_view() =~= before.push(line@));
            }
            k += 1;
        }
        assert(row.warnings.deep_view().subrange(0, row.warnings@.len() as int) =~= row.warnings.deep_view());
    } else {
        assert(lines.deep_view() =~= configured + Seq::<Seq<char>>::empty());
    }
    let ghost upto_warnings = lines.deep_view();
    if failed_or_stale(&row.branch) {
        lines.push(string_of(&concat(&chars("  branch: "), &chars(escape(row.branch.label().as_str()).as_str()))));
    }
    let ghost upto_branch = lines.deep_view();
    if failed_or_stale(&row.changes) {
        lines.push(string_of(&concat(&chars("  changes: "), &chars(escape(row.changes.label().as_str()).as_str()))));
    }
    proof {
        let warnings = if compact {
            Seq::<Seq<char>>::empty()
        } else {
            row.warnings.deep_view().map_values(|w: Seq<char>| "  warning: "@ + escape_seq(w))
        };
        assert(upto_warnings =~= configured + warnings);
        let branch = if row.branch is Error || row.branch is Stale {
            seq!["  branch: "@ + escape_seq(observation_label(row.branch))]
        } else {
            Seq::<Seq<char>>::empty()
        };
        assert(upto_branch =~= upto_warnings + branch);
        assert(lines.deep_view() =~= spec_extra_lines(*row, compact));
    }
    lines
}

/// The cells of a row, each cut to its column.
pub open spec fn abbreviated_cells(row: InventoryRow, widths: Seq<usize>, compact: bool) -> Seq<Seq<char>> {
    let cells = spec_row_cells(row, compact);
    Seq::new(cells.len(), |k: int| spec_abbreviate(cells[k], widths[k] as nat, cut_from_start(row, compact, k)))
}

/// The lines of a row in the table: its cells in their columns, then the lines under it.
pub open spec fn spec_row_lines(row: InventoryRow, widths: Seq<usize>, compact: bool) -> Seq<Seq<char>> {
    seq![join(padded_all(abbreviated_cells(row, widths, compact), widths), " | "@)] + spec_extra_lines(row, compact)
}

/// The lines of a row in the table.
pub fn row_lines(row: &InventoryRow, widths: &Vec<usize>, compact: bool) -> (r: Vec<String>)
    requires
        widths@.len() >= (if compact { 5int } else { 7int }),
    ensures
        r.deep_view() == spec_row_lines(*row, widths@, compact),
{
    let cells = row_cells(row, compact);
    let ghost cv = cells.deep_view();
    assert(cells@.len() == cv.len());
    assert(cv.len() == (if compact { 5int } else { 7int }));
    let mut cut: Vec<String> = Vec::new();
    let mut k: usize = 0;
    while k < cells.len()
        invariant
            k <= cells@.len(),
            cv == cells.deep_view(),
            cv == spec_row_cells(*row, compact),
            cells@.len() <= widths@.len(),
            cut@.len() == k,
            forall|q: int| 0 <= q < k ==> (#[trigger] cut@[q])@ == spec_abbreviate(cv[q], widths@[q] as nat, cut_from_start(*row, compact, q)),
        decreases cells.len() - k,
    {
        let tail = (!compact && k == 1) || (k == 0 && row.observed_path.is_some() && equal_text(row.repository.as_str(), row.path.as_str()));
        assert(cv[k as int] == cells@[k as int]@);
        cut.push(abbreviate(cells[k].as_str(), widths[k], tail));
        k += 1;
    }
    assert(cut.deep_view() =~= abbreviated_cells(*row, widths@, compact));
    let first = columns(&cut, widths);
    let mut lines: Vec<String> = Vec::new();
    lines.push(first);
    let extra = extra_lines(row, compact);
    let mut j: usize = 0;
    while j < extra.len()
        invariant
            j <= extra@.len(),
            lines.deep_view() == seq![first@] + extra.deep_view().subrange(0, j as int),
        decreases extra.len() - j,
    {
        let ghost before = lines.deep_view();
        lines.push(string_of(&chars(extra[j].as_str())));
        assert(extra.deep_view()[j as int] == extra@[j as int]@);
        assert(lines.deep_view() =~= before.push(extra@[j as int]@));
        assert(extra.deep_view().subrange(0, j + 1) =~= extra.deep_view().subrange(0, j as int).push(extra.deep_view()[j as int]));
        j += 1;
    }
    assert(extra.deep_view().subrange(0, extra@.len() as int) =~= extra.deep_view());
    lines
}

fn equal_text(a: &str, b: &str) -> (r: bool)
    ensures
        r == (a@ == b@),
{
    crate::text::equal(&chars(a), &chars(b))
}

} // verus!
