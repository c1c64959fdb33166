//! What Git reports of a checkout, read into the decisions taken on it: whether its origin is
//! the expected repository and which local state makes its removal unsafe.
use vstd::prelude::*;

use crate::domain::repository::{normalize_remote, ref_error_text, spec_normalize_remote};
use crate::domain::state::LocalState;
use crate::paths::{components, components_of, path_starts_with, starts_with_path};
use crate::text::{chars, concat, equal, string_of, trim_white, trim_whitespace};

verus! {

broadcast use vstd::seq::group_seq_axioms;

// ---------------------------------------------------------------------------
// Lines of output
// ---------------------------------------------------------------------------

/// The pieces of `s` between newline bytes.
pub open spec fn byte_split(s: Seq<u8>) -> Seq<Seq<u8>>
    decreases s.len(),
{
    if s.len() == 0 {
        seq![Seq::empty()]
    } else {
        let prev = byte_split(s.drop_last());
        if s.last() == 10u8 {
            prev.push(Seq::empty())
        } else {
            prev.update(prev.len() - 1, prev.last().push(s.last()))
        }
    }
}

pub open spec fn strip_cr(line: Seq<u8>) -> Seq<u8> {
    if line.len() > 0 && line.last() == 13u8 {
        line.drop_last()
    } else {
        line
    }
}

/// `str::lines`: the pieces between newlines, without a final empty piece and each without
/// a trailing carriage return.
pub open spec fn lines(s: Seq<u8>) -> Seq<Seq<u8>> {
    let parts = byte_split(s);
    let parts = if parts.last().len() == 0 {
        parts.drop_last()
    } else {
        parts
    };
    parts.map_values(|p: Seq<u8>| strip_cr(p))
}

proof fn lemma_byte_split_len(s: Seq<u8>)
    ensures
        byte_split(s).len() >= 1,
    decreases s.len(),
{
    if s.len() > 0 {
        lemma_byte_split_len(s.drop_last());
    }
}

/// The lines of `s`.
fn lines_of(s: &[u8]) -> (r: Vec<Vec<u8>>)
    ensures
        r@.map_values(|v: Vec<u8>| v@) == lines(s@),
{
    let mut parts: Vec<Vec<u8>> = Vec::new();
    parts.push(Vec::new());
    let mut i: usize = 0;
    assert(s@.subrange(0, 0) =~= Seq::<u8>::empty());
    assert(parts@.map_values(|v: Vec<u8>| v@) =~= byte_split(s@.subrange(0, 0)));
    while i < s.len()
        invariant
            i <= s@.len(),
            parts@.len() >= 1,
            parts@.map_values(|v: Vec<u8>| v@) == byte_split(s@.subrange(0, i as int)),
        decreases s.len() - i,
    {
        let ghost before = parts@.map_values(|v: Vec<u8>| v@);
        assert(s@.subrange(0, i + 1).drop_last() =~= s@.subrange(0, i as int));
        assert(s@.subrange(0, i + 1).last() == s@[i as int]);
        if s[i] == 10u8 {
            parts.push(Vec::new());
            assert(parts@.map_values(|v: Vec<u8>| v@) =~= before.push(Seq::empty()));
        } else {
            let last = parts.len() - 1;
            let mut piece = parts.remove(last);
            piece.push(s[i]);
            parts.push(piece);
            assert(parts@.map_values(|v: Vec<u8>| v@) =~= before.update(before.len() - 1, before.last().push(s@[i as int])));
        }
        i += 1;
    }
    assert(s@.subrange(0, s@.len() as int) =~= s@);
    let ghost split = parts@.map_values(|v: Vec<u8>| v@);
    if parts[parts.len() - 1].len() == 0 {
        parts.pop();
    }
    let ghost kept = parts@.map_values(|v: Vec<u8>| v@);
    assert(kept =~= (if split.last().len() == 0 { split.drop_last() } else { split }));
    let mut out: Vec<Vec<u8>> = Vec::new();
    let mut k: usize = 0;
    while k < parts.len()
        invariant
            k <= parts@.len(),
            kept == parts@.map_values(|v: Vec<u8>| v@),
            out@.map_values(|v: Vec<u8>| v@) == kept.subrange(0, k as int).map_values(|p: Seq<u8>| strip_cr(p)),
        decreases parts.len() - k,
    {
        let piece = &parts[k];
        let mut line: Vec<u8> = Vec::new();
        let end = if piece.len() > 0 && piece[piece.len() - 1] == 13u8 {
            piece.len() - 1
        } else {
            piece.len()
        };
        let mut j: usize = 0;
        while j < end
            invariant
                j <= end,
                end <= piece@.len(),
                line@ == piece@.subrange(0, j as int),
            decreases end - j,
        {
            line.push(piece[j]);
            j += 1;
        }
        assert(line@ =~= strip_cr(kept[k as int]));
        let ghost before = out@.map_values(|v: Vec<u8>| v@);
        out.push(line);
        assert(out@.map_values(|v: Vec<u8>| v@) =~= before.push(strip_cr(kept[k as int])));
        assert(kept.subrange(0, k + 1).map_values(|p: Seq<u8>| strip_cr(p)) =~= kept.subrange(0, k as int).map_values(
            |p: Seq<u8>| strip_cr(p),
        ).push(strip_cr(kept[k as int])));
        k += 1;
    }
    assert(kept.subrange(0, kept.len() as int) =~= kept);
    out
}

// ---------------------------------------------------------------------------
// Status
// ---------------------------------------------------------------------------

pub open spec fn starts_with_bytes(line: Seq<u8>, a: u8, b: u8) -> bool {
    line.len() >= 2 && line[0] == a && line[1] == b
}

pub open spec fn ignored_line(line: Seq<u8>) -> bool {
    starts_with_bytes(line, 33u8, 33u8)
}

pub open spec fn untracked_line(line: Seq<u8>) -> bool {
    starts_with_bytes(line, 63u8, 63u8)
}

/// A status line whose column `k` (0 staged, 1 unstaged) records a change.
pub open spec fn changed_in(line: Seq<u8>, k: int) -> bool {
    !ignored_line(line) && line.len() >= 2 && line[k] != 32u8 && line[k] != 63u8
}

pub open spec fn any_line(ls: Seq<Seq<u8>>, f: spec_fn(Seq<u8>) -> bool) -> bool {
    exists|i: int| 0 <= i < ls.len() && f(#[trigger] ls[i])
}

/// The warnings of a `git status --porcelain=v1` listing, in their fixed order.
pub open spec fn status_warning_list(status: Seq<u8>) -> Seq<Seq<char>> {
    let ls = lines(status);
    (if any_line(ls, |l: Seq<u8>| ignored_line(l)) { seq!["ignored files"@] } else { Seq::empty() })
        + (if any_line(ls, |l: Seq<u8>| changed_in(l, 0)) { seq!["staged changes"@] } else { Seq::empty() })
        + (if any_line(ls, |l: Seq<u8>| changed_in(l, 1)) { seq!["unstaged changes"@] } else { Seq::empty() })
        + (if any_line(ls, |l: Seq<u8>| untracked_line(l)) { seq!["untracked files"@] } else { Seq::empty() })
}

fn scan_status(ls: &Vec<Vec<u8>>) -> (r: (bool, bool, bool, bool))
    ensures
        r.0 == any_line(ls@.map_values(|v: Vec<u8>| v@), |l: Seq<u8>| ignored_line(l)),
        r.1 == any_line(ls@.map_values(|v: Vec<u8>| v@), |l: Seq<u8>| changed_in(l, 0)),
        r.2 == any_line(ls@.map_values(|v: Vec<u8>| v@), |l: Seq<u8>| changed_in(l, 1)),
        r.3 == any_line(ls@.map_values(|v: Vec<u8>| v@), |l: Seq<u8>| untracked_line(l)),
{
    let ghost views = ls@.map_values(|v: Vec<u8>| v@);
    let mut ignored = false;
    let mut staged = false;
    let mut unstaged = false;
    let mut untracked = false;
    let mut i: usize = 0;
    while i < ls.len()
        invariant
            i <= ls@.len(),
            views == ls@.map_values(|v: Vec<u8>| v@),
            ignored == exists|j: int| 0 <= j < i && ignored_line(#[trigger] views[j]),
            staged == exists|j: int| 0 <= j < i && changed_in(#[trigger] views[j], 0),
            unstaged == exists|j: int| 0 <= j < i && changed_in(#[trigger] views[j], 1),
            untracked == exists|j: int| 0 <= j < i && untracked_line(#[trigger] views[j]),
        decreases ls.len() - i,
    {
        let line = &ls[i];
        assert(views[i as int] == line@);
        let two = line.len() >= 2;
        let bang = two && line[0] == 33u8 && line[1] == 33u8;
        let question = two && line[0] == 63u8 && line[1] == 63u8;
        if bang {
            ignored = true;
        }
        if !bang && two && line[0] != 32u8 && line[0] != 63u8 {
            staged = true;
        }
        if !bang && two && line[1] != 32u8 && line[1] != 63u8 {
            unstaged = true;
        }
        if question {
            untracked = true;
        }
        i += 1;
    }
    (ignored, staged, unstaged, untracked)
}

/// Whether a `git submodule status --recursive` listing has a submodule that is not clean.
pub open spec fn submodules_dirty(output: Seq<u8>) -> bool {
    exists|i: int| 0 <= i < lines(output).len() && (#[trigger] lines(output)[i]).len() > 0 && (lines(output)[i][0] == 43u8
        || lines(output)[i][0] == 45u8 || lines(output)[i][0] == 85u8)
}

fn dirty_submodules(output: &[u8]) -> (r: bool)
    ensures
        r == submodules_dirty(output@),
{
    let ls = lines_of(output);
    let ghost views = ls@.map_values(|v: Vec<u8>| v@);
    let mut i: usize = 0;
    while i < ls.len()
        invariant
            i <= ls@.len(),
            views == ls@.map_values(|v: Vec<u8>| v@),
            views == lines(output@),
            forall|j: int| 0 <= j < i ==> !((#[trigger] views[j]).len() > 0 && (views[j][0] == 43u8 || views[j][0] == 45u8 || views[j][0] == 85u8)),
        decreases ls.len() - i,
    {
        let line = &ls[i];
        assert(views[i as int] == line@);
        if line.len() > 0 && (line[0] == 43u8 || line[0] == 45u8 || line[0] == 85u8) {
            return true;
        }
        i += 1;
    }
    false
}

/// The digits of an unsigned number with an optional leading `+`.
pub open spec fn unsigned_digits(t: Seq<char>) -> Seq<char> {
    if t.len() > 0 && t[0] == '+' {
        t.drop_first()
    } else {
        t
    }
}

/// The text is one or more zeros.
pub open spec fn all_zeros(d: Seq<char>) -> bool {
    d.len() > 0 && forall|i: int| 0 <= i < d.len() ==> d[i] == '0'
}

/// Whether `git rev-list --count @{u}..HEAD` reports commits missing upstream: anything
/// but a count of zero counts, an unreadable one too.
pub open spec fn ahead_of_upstream(count: Seq<char>) -> bool {
    !all_zeros(unsigned_digits(trim_white(count)))
}

fn is_ahead(count: &str) -> (r: bool)
    ensures
        r == ahead_of_upstream(count@),
{
    let t = trim_whitespace(&chars(count));
    let start: usize = if t.len() > 0 && t[0] == '+' {
        1
    } else {
        0
    };
    let ghost d = unsigned_digits(t@);
    assert(d =~= t@.subrange(start as int, t@.len() as int));
    if start == t.len() {
        assert(!all_zeros(d));
        return true;
    }
    let mut i: usize = start;
    while i < t.len()
        invariant
            start <= i <= t@.len(),
            t@ == trim_white(count@),
            d == unsigned_digits(t@),
            d == t@.subrange(start as int, t@.len() as int),
            forall|j: int| start <= j < i ==> t@[j] == '0',
        decreases t.len() - i,
    {
        if t[i] != '0' {
            assert(d[i - start] != '0');
            assert(!all_zeros(d));
            return true;
        }
        i += 1;
    }
    assert forall|j: int| 0 <= j < d.len() implies d[j] == '0' by {
        assert(d[j] == t@[j + start]);
    }
    assert(all_zeros(d));
    false
}

/// The warnings that follow the status listing's, in their fixed order.
pub open spec fn state_warning_list(stash: bool, attached: bool, tip: bool, upstream: Option<Seq<char>>, submodules: Seq<u8>) -> Seq<Seq<char>> {
    (if stash { seq!["stashes"@] } else { Seq::empty() }) + (if !attached {
        seq!["detached HEAD"@]
    } else {
        Seq::empty()
    }) + (if !tip { seq!["unsafe branch tip"@] } else { Seq::empty() }) + (match upstream {
        None => seq!["no upstream"@],
        Some(count) => if ahead_of_upstream(count) {
            seq!["local commits absent from the remote-tracking ref"@]
        } else {
            Seq::empty()
        },
    }) + (if submodules_dirty(submodules) { seq!["dirty submodules"@] } else { Seq::empty() })
}

/// The facts about a checkout that make its removal unsafe, in their fixed order.
pub open spec fn removal_warning_list(
    status: Seq<u8>,
    stash: bool,
    attached: bool,
    tip: bool,
    upstream: Option<Seq<char>>,
    submodules: Seq<u8>,
) -> Seq<Seq<char>> {
    status_warning_list(status) + state_warning_list(stash, attached, tip, upstream, submodules)
}

/// A status line that is not an ignored entry (`!!`) and whose first column is neither a space
/// nor `?` records a staged change, and removal warns of staged changes; a line whose second
/// column is neither makes it warn of unstaged changes.
pub proof fn law_status_changes_warned(
    status: Seq<u8>,
    stash: bool,
    attached: bool,
    tip: bool,
    upstream: Option<Seq<char>>,
    submodules: Seq<u8>,
    i: int,
)
    requires
        0 <= i < lines(status).len(),
        lines(status)[i].len() >= 2,
        !(lines(status)[i][0] == 33u8 && lines(status)[i][1] == 33u8),
    ensures
        lines(status)[i][0] != 32u8 && lines(status)[i][0] != 63u8
            ==> removal_warning_list(status, stash, attached, tip, upstream, submodules).contains("staged changes"@),
        lines(status)[i][1] != 32u8 && lines(status)[i][1] != 63u8
            ==> removal_warning_list(status, stash, attached, tip, upstream, submodules).contains("unstaged changes"@),
{
    let ls = lines(status);
    let ign = if any_line(ls, |l: Seq<u8>| ignored_line(l)) { seq!["ignored files"@] } else { Seq::<Seq<char>>::empty() };
    let stg = if any_line(ls, |l: Seq<u8>| changed_in(l, 0)) { seq!["staged changes"@] } else { Seq::<Seq<char>>::empty() };
    let uns = if any_line(ls, |l: Seq<u8>| changed_in(l, 1)) { seq!["unstaged changes"@] } else { Seq::<Seq<char>>::empty() };
    let unt = if any_line(ls, |l: Seq<u8>| untracked_line(l)) { seq!["untracked files"@] } else { Seq::<Seq<char>>::empty() };
    let all = removal_warning_list(status, stash, attached, tip, upstream, submodules);
    let rest = state_warning_list(stash, attached, tip, upstream, submodules);
    assert(all == ign + stg + uns + unt + rest);
    if ls[i][0] != 32u8 && ls[i][0] != 63u8 {
        assert(changed_in(ls[i], 0));
        assert((|l: Seq<u8>| changed_in(l, 0))(ls[i]));
        assert(any_line(ls, |l: Seq<u8>| changed_in(l, 0)));
        assert(all[ign.len() as int] == "staged changes"@);
    }
    if ls[i][1] != 32u8 && ls[i][1] != 63u8 {
        assert(changed_in(ls[i], 1));
        assert((|l: Seq<u8>| changed_in(l, 1))(ls[i]));
        assert(any_line(ls, |l: Seq<u8>| changed_in(l, 1)));
        assert(all[(ign.len() + stg.len()) as int] == "unstaged changes"@);
    }
}

proof fn lemma_state_words(stash: bool, attached: bool, tip: bool, upstream: Option<Seq<char>>, submodules: Seq<u8>)
    ensures
        forall|k: int| 0 <= k < state_warning_list(stash, attached, tip, upstream, submodules).len()
            ==> (#[trigger] state_warning_list(stash, attached, tip, upstream, submodules)[k]).len() != 14
            && !(state_warning_list(stash, attached, tip, upstream, submodules)[k].len() == 16
            && state_warning_list(stash, attached, tip, upstream, submodules)[k][0] == 'u'),
{
    reveal_strlit("stashes");
    reveal_strlit("detached HEAD");
    reveal_strlit("unsafe branch tip");
    reveal_strlit("no upstream");
    reveal_strlit("local commits absent from the remote-tracking ref");
    reveal_strlit("dirty submodules");
    let a = if stash { seq!["stashes"@] } else { Seq::<Seq<char>>::empty() };
    let b = if !attached { seq!["detached HEAD"@] } else { Seq::<Seq<char>>::empty() };
    let c = if !tip { seq!["unsafe branch tip"@] } else { Seq::<Seq<char>>::empty() };
    let d = match upstream {
        None => seq!["no upstream"@],
        Some(count) => if ahead_of_upstream(count) {
            seq!["local commits absent from the remote-tracking ref"@]
        } else {
            Seq::<Seq<char>>::empty()
        },
    };
    let e = if submodules_dirty(submodules) { seq!["dirty submodules"@] } else { Seq::<Seq<char>>::empty() };
    let all = state_warning_list(stash, attached, tip, upstream, submodules);
    assert(all == a + b + c + d + e);
    assert forall|k: int| 0 <= k < all.len() implies (#[trigger] all[k]).len() != 14 && !(all[k].len() == 16 && all[k][0] == 'u') by {
        let x = all[k];
        if k < a.len() {
            assert(x == a[k]);
        } else if k < a.len() + b.len() {
            assert(x == b[k - a.len()]);
        } else if k < a.len() + b.len() + c.len() {
            assert(x == c[k - a.len() - b.len()]);
        } else if k < a.len() + b.len() + c.len() + d.len() {
            assert(x == d[k - a.len() - b.len() - c.len()]);
        } else {
            assert(x == e[k - a.len() - b.len() - c.len() - d.len()]);
        }
    }
}

/// Removal warns of staged changes only for a status line that is not an ignored entry and
/// whose first column is neither a space nor `?`; of unstaged changes only for such a line
/// whose second column is neither.
pub proof fn law_status_changes_only_when_listed(
    status: Seq<u8>,
    stash: bool,
    attached: bool,
    tip: bool,
    upstream: Option<Seq<char>>,
    submodules: Seq<u8>,
)
    ensures
        removal_warning_list(status, stash, attached, tip, upstream, submodules).contains("staged changes"@) ==> exists|i: int|
            0 <= i < lines(status).len() && (#[trigger] lines(status)[i]).len() >= 2 && !(lines(status)[i][0] == 33u8
            && lines(status)[i][1] == 33u8) && lines(status)[i][0] != 32u8 && lines(status)[i][0] != 63u8,
        removal_warning_list(status, stash, attached, tip, upstream, submodules).contains("unstaged changes"@) ==> exists|i: int|
            0 <= i < lines(status).len() && (#[trigger] lines(status)[i]).len() >= 2 && !(lines(status)[i][0] == 33u8
            && lines(status)[i][1] == 33u8) && lines(status)[i][1] != 32u8 && lines(status)[i][1] != 63u8,
{
    reveal_strlit("ignored files");
    reveal_strlit("staged changes");
    reveal_strlit("unstaged changes");
    reveal_strlit("untracked files");
    lemma_state_words(stash, attached, tip, upstream, submodules);
    let ls = lines(status);
    let ign = if any_line(ls, |l: Seq<u8>| ignored_line(l)) { seq!["ignored files"@] } else { Seq::<Seq<char>>::empty() };
    let stg = if any_line(ls, |l: Seq<u8>| changed_in(l, 0)) { seq!["staged changes"@] } else { Seq::<Seq<char>>::empty() };
    let uns = if any_line(ls, |l: Seq<u8>| changed_in(l, 1)) { seq!["unstaged changes"@] } else { Seq::<Seq<char>>::empty() };
    let unt = if any_line(ls, |l: Seq<u8>| untracked_line(l)) { seq!["untracked files"@] } else { Seq::<Seq<char>>::empty() };
    let all = removal_warning_list(status, stash, attached, tip, upstream, submodules);
    let rest = state_warning_list(stash, attached, tip, upstream, submodules);
    assert(all == ign + stg + uns + unt + rest);
    let n = ign.len() + stg.len() + uns.len() + unt.len();
    assert forall|k: int| 0 <= k < all.len() && (#[trigger] all[k]).len() == 14 implies stg.len() == 1 by {
        if k >= n {
            assert(all[k] == rest[k - n]);
        } else if k < ign.len() {
            assert(all[k] == ign[k]);
        } else if k < ign.len() + stg.len() {
        } else if k < ign.len() + stg.len() + uns.len() {
            assert(all[k] == uns[k - ign.len() - stg.len()]);
        } else {
            assert(all[k] == unt[k - ign.len() - stg.len() - uns.len()]);
        }
    }
    assert forall|k: int| 0 <= k < all.len() && (#[trigger] all[k]).len() == 16 && all[k][0] == 'u' implies uns.len() == 1 by {
        if k >= n {
            assert(all[k] == rest[k - n]);
        } else if k < ign.len() {
            assert(all[k] == ign[k]);
        } else if k < ign.len() + stg.len() {
            assert(all[k] == stg[k - ign.len()]);
        } else if k < ign.len() + stg.len() + uns.len() {
        } else {
            assert(all[k] == unt[k - ign.len() - stg.len() - uns.len()]);
        }
    }
    if all.contains("staged changes"@) {
        let k = choose|k: int| 0 <= k < all.len() && all[k] == "staged changes"@;
        assert(all[k].len() == 14);
        assert(any_line(ls, |l: Seq<u8>| changed_in(l, 0)));
        let i = choose|i: int| 0 <= i < ls.len() && (|l: Seq<u8>| changed_in(l, 0))(#[trigger] ls[i]);
        assert(changed_in(ls[i], 0));
    }
    if all.contains("unstaged changes"@) {
        let k = choose|k: int| 0 <= k < all.len() && all[k] == "unstaged changes"@;
        assert(all[k].len() == 16 && all[k][0] == 'u');
        assert(any_line(ls, |l: Seq<u8>| changed_in(l, 1)));
        let i = choose|i: int| 0 <= i < ls.len() && (|l: Seq<u8>| changed_in(l, 1))(#[trigger] ls[i]);
        assert(changed_in(ls[i], 1));
    }
}

fn push_text(v: &mut Vec<String>, s: &str)
    ensures
        final(v).deep_view() == old(v).deep_view().push(s@),
{
    let ghost before = v.deep_view();
    v.push(string_of(&chars(s)));
    assert(v.deep_view() =~= before.push(s@));
}

/// The warnings of a status listing.
fn status_warnings(status: &[u8]) -> (r: Vec<String>)
    ensures
        r.deep_view() == status_warning_list(status@),
{
    let ls = lines_of(status);
    let (ignored, staged, unstaged, untracked) = scan_status(&ls);
    let mut warnings: Vec<String> = Vec::new();
    if ignored {
        push_text(&mut warnings, "ignored files");
    }
    if staged {
        push_text(&mut warnings, "staged changes");
    }
    if unstaged {
        push_text(&mut warnings, "unstaged changes");
    }
    if untracked {
        push_text(&mut warnings, "untracked files");
    }
    assert(warnings.deep_view() =~= status_warning_list(status@));
    warnings
}

fn state_warnings(stash: bool, attached: bool, tip: bool, upstream: Option<&str>, submodules: &[u8]) -> (r: Vec<String>)
    ensures
        r.deep_view() == state_warning_list(stash, attached, tip, match upstream {
            Some(c) => Some(c@),
            None => None,
        }, submodules@),
{
    let mut warnings: Vec<String> = Vec::new();
    if stash {
        push_text(&mut warnings, "stashes");
    }
    if !attached {
        push_text(&mut warnings, "detached HEAD");
    }
    if !tip {
        push_text(&mut warnings, "unsafe branch tip");
    }
    let ghost before_upstream = warnings.deep_view();
    match upstream {
        None => push_text(&mut warnings, "no upstream"),
        Some(count) => {
            if is_ahead(count) {
                push_text(&mut warnings, "local commits absent from the remote-tracking ref");
            }
        },
    }
    if dirty_submodules(submodules) {
        push_text(&mut warnings, "dirty submodules");
    }
    assert(warnings.deep_view() =~= state_warning_list(stash, attached, tip, match upstream {
        Some(c) => Some(c@),
        None => None,
    }, submodules@));
    warnings
}

/// Reads what Git reported of a checkout into the warnings shown before it is removed: the
/// status listing, whether a stash exists, whether HEAD is attached, whether the branch tip
/// resolves, the upstream's ahead count (none without an upstream) and the submodule listing.
pub fn removal_warnings(
    status: &[u8],
    stash: bool,
    attached: bool,
    tip: bool,
    upstream: Option<&str>,
    submodules: &[u8],
) -> (r: Vec<String>)
    ensures
        r.deep_view() == removal_warning_list(status@, stash, attached, tip, match upstream {
            Some(c) => Some(c@),
            None => None,
        }, submodules@),
{
    let mut warnings = status_warnings(status);
    let rest = state_warnings(stash, attached, tip, upstream, submodules);
    let mut i: usize = 0;
    let ghost first = warnings.deep_view();
    while i < rest.len()
        invariant
            i <= rest@.len(),
            warnings.deep_view() == first + rest.deep_view().subrange(0, i as int),
        decreases rest.len() - i,
    {
        let ghost before = warnings.deep_view();
        warnings.push(string_of(&chars(rest[i].as_str())));
        assert(warnings.deep_view() =~= before.push(rest@[i as int]@));
        assert(rest.deep_view().subrange(0, i + 1) =~= rest.deep_view().subrange(0, i as int).push(rest@[i as int]@));
        i += 1;
    }
    assert(rest.deep_view().subrange(0, rest.deep_view().len() as int) =~= rest.deep_view());
    warnings
}

// ---------------------------------------------------------------------------
// Origins
// ---------------------------------------------------------------------------

/// A checkout whose origin (as `git remote get-url origin` printed it) normalizes to the same
/// remote as the expected URL is the expected clone; anything else is a conflict.
pub open spec fn origin_state(origin_output: Seq<char>, expected: Seq<char>) -> LocalState {
    match (spec_normalize_remote(trim_white(origin_output)), spec_normalize_remote(expected)) {
        (Ok(a), Ok(b)) => if a == b {
            LocalState::Cloned
        } else {
            LocalState::Conflict
        },
        _ => LocalState::Conflict,
    }
}

pub fn classify_origin(origin_output: &str, expected: &str) -> (r: LocalState)
    ensures
        r == origin_state(origin_output@, expected@),
{
    let trimmed = string_of(&trim_whitespace(&chars(origin_output)));
    match (normalize_remote(trimmed.as_str()), normalize_remote(expected)) {
        (Ok(actual), Ok(wanted)) => {
            if equal(&chars(actual.as_str()), &chars(wanted.as_str())) {
                LocalState::Cloned
            } else {
                LocalState::Conflict
            }
        },
        _ => LocalState::Conflict,
    }
}

/// Removal needs the origin to be the requested repository; either remote failing to
/// normalize refuses it with that reason.
pub open spec fn origin_check(origin_output: Seq<char>, expected: Seq<char>) -> Result<(), Seq<char>> {
    match spec_normalize_remote(trim_white(origin_output)) {
        Err(e) => Err(ref_error_text(e)),
        Ok(a) => match spec_normalize_remote(expected) {
            Err(e) => Err(ref_error_text(e)),
            Ok(b) => if a == b {
                Ok(())
            } else {
                Err("origin does not match the requested repository"@)
            },
        },
    }
}

pub fn check_origin(origin_output: &str, expected: &str) -> (r: Result<(), String>)
    ensures
        match r {
            Ok(()) => origin_check(origin_output@, expected@) == Ok::<(), Seq<char>>(()),
            Err(m) => origin_check(origin_output@, expected@) == Err::<(), Seq<char>>(m@),
        },
{
    let trimmed = string_of(&trim_whitespace(&chars(origin_output)));
    let actual = match normalize_remote(trimmed.as_str()) {
        Ok(actual) => actual,
        Err(error) => return Err(error.message()),
    };
    let wanted = match normalize_remote(expected) {
        Ok(wanted) => wanted,
        Err(error) => return Err(error.message()),
    };
    if equal(&chars(actual.as_str()), &chars(wanted.as_str())) {
        Ok(())
    } else {
        Err(string_of(&chars("origin does not match the requested repository")))
    }
}


// ---------------------------------------------------------------------------
// Where a clone is made
// ---------------------------------------------------------------------------

/// A clone destination that is refused before anything is created.
#[derive(Debug, Clone, PartialEq, Eq)]
pub struct UnsafePath {
    pub path: String,
    pub message: String,
}

impl UnsafePath {
    /// The error's text.
    pub fn text(&self) -> (r: String)
        ensures
            r@ == "unsafe clone destination "@ + self.path@ + ": "@ + self.message@,
    {
        string_of(&concat(&concat(&concat(&chars("unsafe clone destination "), &chars(self.path.as_str())), &chars(": ")), &chars(self.message.as_str())))
    }
}

/// The directories a clone walks through: the root below HOME, the destination's parents
/// below the root, and the destination's own name.
#[derive(Debug, Clone, PartialEq, Eq)]
pub struct ClonePlan {
    pub root_relative: Vec<String>,
    pub parents: Vec<String>,
    pub name: String,
}

pub open spec fn portable(names: Seq<Seq<char>>) -> bool {
    forall|i: int| 0 <= i < names.len() ==> #[trigger] names[i] != ".."@
}

pub open spec fn unsafe_at(path: Seq<char>, message: Seq<char>) -> (Seq<char>, Seq<char>) {
    (path, message)
}

/// The plan of a clone, or why its destination is refused: the root must lie below HOME, the
/// destination below the root, by plain names only, with a name of its own.
pub open spec fn spec_clone_plan(home: Seq<char>, root: Seq<char>, destination: Seq<char>) -> Result<(Seq<Seq<char>>, Seq<Seq<char>>, Seq<char>), (Seq<char>, Seq<char>)> {
    if !path_starts_with(root, home) {
        Err(unsafe_at(root, "configured root is outside the trusted home directory"@))
    } else if !path_starts_with(destination, root) {
        Err(unsafe_at(destination, "destination is outside the configured root"@))
    } else {
        let rest = components(destination).subrange(components(root).len() as int, components(destination).len() as int);
        if !portable(rest) {
            Err(unsafe_at(destination, "destination contains a non-portable component"@))
        } else if rest.len() == 0 {
            Err(unsafe_at(destination, "destination has no repository name"@))
        } else {
            Ok((components(root).subrange(components(home).len() as int, components(root).len() as int), rest.drop_last(), rest.last()))
        }
    }
}

fn strings_from(parts: &Vec<Vec<char>>, from: usize, to: usize) -> (r: Vec<String>)
    requires
        from <= to <= parts@.len(),
    ensures
        r.deep_view() == parts@.map_values(|v: Vec<char>| v@).subrange(from as int, to as int),
{
    let mut r: Vec<String> = Vec::new();
    let mut i = from;
    while i < to
        invariant
            from <= i <= to,
            to <= parts@.len(),
            r.deep_view() =~= parts@.map_values(|v: Vec<char>| v@).subrange(from as int, i as int),
        decreases to - i,
    {
        let ghost before = r.deep_view();
        r.push(string_of(&parts[i]));
        assert(r.deep_view() =~= before.push(parts@[i as int]@));
        i += 1;
    }
    r
}

/// Refuses a list of names holding `..`, shown under `display`.
pub fn check_portable(names: &Vec<String>, display: &str) -> (r: Result<(), UnsafePath>)
    ensures
        portable(names.deep_view()) ==> r is Ok,
        !portable(names.deep_view()) ==> (r matches Err(e) && e.path@ == display@ && e.message@
            == "destination contains a non-portable component"@),
{
    let mut i: usize = 0;
    while i < names.len()
        invariant
            i <= names@.len(),
            forall|j: int| 0 <= j < i ==> #[trigger] names.deep_view()[j] != ".."@,
        decreases names.len() - i,
    {
        assert(names.deep_view()[i as int] == names@[i as int]@);
        if equal(&chars(names[i].as_str()), &chars("..")) {
            return Err(UnsafePath {
                path: string_of(&chars(display)),
                message: string_of(&chars("destination contains a non-portable component")),
            });
        }
        i += 1;
    }
    Ok(())
}

/// Plans a clone: where below HOME the root is, and which directories lead to the destination.
/// The root's own names are checked by `check_portable` once HOME has been opened.
pub fn clone_plan(home: &str, root: &str, destination: &str) -> (r: Result<ClonePlan, UnsafePath>)
    ensures
        match spec_clone_plan(home@, root@, destination@) {
            Ok(p) => r matches Ok(plan) && plan.root_relative.deep_view() == p.0 && plan.parents.deep_view() == p.1
                && plan.name@ == p.2,
            Err(e) => r matches Err(x) && (x.path@, x.message@) == e,
        },
{
    if !starts_with_path(root, home) {
        return Err(UnsafePath {
            path: string_of(&chars(root)),
            message: string_of(&chars("configured root is outside the trusted home directory")),
        });
    }
    if !starts_with_path(destination, root) {
        return Err(UnsafePath {
            path: string_of(&chars(destination)),
            message: string_of(&chars("destination is outside the configured root")),
        });
    }
    let hc = components_of(&chars(home));
    let rc = components_of(&chars(root));
    let dc = components_of(&chars(destination));
    let rest = strings_from(&dc, rc.len(), dc.len());
    check_portable(&rest, destination)?;
    if rest.len() == 0 {
        return Err(UnsafePath {
            path: string_of(&chars(destination)),
            message: string_of(&chars("destination has no repository name")),
        });
    }
    let root_relative = strings_from(&rc, hc.len(), rc.len());
    let parents = strings_from(&dc, rc.len(), dc.len() - 1);
    let name = string_of(&dc[dc.len() - 1]);
    proof {
        let rv = dc@.map_values(|v: Vec<char>| v@).subrange(rc@.len() as int, dc@.len() as int);
        assert(parents.deep_view() =~= rv.drop_last());
        assert(name@ == rv.last());
    }
    Ok(ClonePlan { root_relative, parents, name })
}

/// Git's answer to `rev-parse --is-inside-work-tree` lets removal go on only when it reads
/// `true`.
pub fn inside_work_tree(answer: &str) -> (r: Result<(), String>)
    ensures
        r is Ok <==> trim_white(answer@) == "true"@,
        r matches Err(m) ==> m@ == "destination is not inside a Git work tree"@,
{
    if equal(&trim_whitespace(&chars(answer)), &chars("true")) {
        Ok(())
    } else {
        Err(string_of(&chars("destination is not inside a Git work tree")))
    }
}

/// Git's answer to `rev-parse --is-bare-repository` lets removal go on only when it reads
/// `false`.
pub fn not_bare(answer: &str) -> (r: Result<(), String>)
    ensures
        r is Ok <==> trim_white(answer@) == "false"@,
        r matches Err(m) ==> m@ == "bare repositories cannot be removed"@,
{
    if equal(&trim_whitespace(&chars(answer)), &chars("false")) {
        Ok(())
    } else {
        Err(string_of(&chars("bare repositories cannot be removed")))
    }
}

} // verus!
