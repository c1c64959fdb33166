//! Which repositories a configuration manages: explicit declarations, the members of
//! wildcard declarations and the exclusions that drop members again.
use vstd::prelude::*;

use crate::domain::config::{Config, ConfigView, DeclView};
use crate::domain::repository::{spec_identity, spec_parse, RepositoryRef, RepositorySummary};
use crate::order::{keys_sorted, lex_le, sort_keyed};
use crate::text::{after_prefix, chars, concat, contains_text, equal, has_prefix, slice, starts_with, string_of};

verus! {

broadcast use {
    vstd::seq::group_seq_axioms,
    vstd::seq_lib::group_to_multiset_ensures,
    vstd::multiset::group_multiset_axioms,
};

/// The part of a member's remote path below its wildcard's path, or the whole path when
/// the member lies elsewhere.
pub open spec fn relative_member(pattern_path: Seq<char>, member_path: Seq<char>) -> Seq<char> {
    if has_prefix(member_path, pattern_path + "/"@) {
        after_prefix(member_path, pattern_path + "/"@)
    } else {
        member_path
    }
}

/// A wildcard's exclusion list names the member.
pub open spec fn member_excluded(exclude: Seq<Seq<char>>, pattern_path: Seq<char>, member_path: Seq<char>) -> bool {
    exclude.contains(relative_member(pattern_path, member_path))
}

/// Whether the exclusion list of the wildcard at `pattern_path` names the member at `member_path`.
pub fn is_excluded(exclude: &Vec<String>, pattern_path: &str, member_path: &str) -> (r: bool)
    ensures
        r == member_excluded(exclude.deep_view(), pattern_path@, member_path@),
{
    let member = chars(member_path);
    let prefix = concat(&chars(pattern_path), &chars("/"));
    let relative = if starts_with(&member, &prefix) {
        slice(&member, prefix.len(), member.len())
    } else {
        member
    };
    assert(relative@ == relative_member(pattern_path@, member_path@));
    let mut i: usize = 0;
    while i < exclude.len()
        invariant
            i <= exclude@.len(),
            relative@ == relative_member(pattern_path@, member_path@),
            forall|j: int| 0 <= j < i ==> exclude.deep_view()[j] != relative@,
        decreases exclude.len() - i,
    {
        assert(exclude.deep_view()[i as int] == exclude@[i as int]@);
        if equal(&chars(exclude[i].as_str()), &relative) {
            assert(exclude.deep_view()[i as int] == relative@);
            return true;
        }
        i += 1;
    }
    false
}

/// The identity a declaration pins down, when it names one repository.
pub open spec fn explicit_identity(d: DeclView) -> Option<Seq<char>> {
    match spec_parse(d.url) {
        Ok(v) => if v.wildcard {
            None
        } else {
            Some(spec_identity(v))
        },
        Err(_) => None,
    }
}

/// The identities declared explicitly, in declaration order.
pub open spec fn explicit_list(ds: Seq<DeclView>) -> Seq<Seq<char>>
    decreases ds.len(),
{
    if ds.len() == 0 {
        Seq::empty()
    } else {
        let prev = explicit_list(ds.drop_last());
        match explicit_identity(ds.last()) {
            Some(id) => prev.push(id),
            None => prev,
        }
    }
}

/// Some declaration of the configuration names the repository `id` explicitly.
pub open spec fn is_explicit(c: ConfigView, id: Seq<char>) -> bool {
    explicit_list(c.repositories).contains(id)
}

pub open spec fn texts(v: Seq<Vec<char>>) -> Seq<Seq<char>> {
    v.map_values(|x: Vec<char>| x@)
}

/// The identities that the configuration declares explicitly, in declaration order.
pub fn explicit_identities(config: &Config) -> (r: Vec<Vec<char>>)
    ensures
        texts(r@) == explicit_list(config@.repositories),
{
    let ghost decls = config@.repositories;
    let mut r: Vec<Vec<char>> = Vec::new();
    let mut i: usize = 0;
    assert(decls.subrange(0, 0) =~= Seq::<DeclView>::empty());
    while i < config.repositories.len()
        invariant
            i <= config.repositories@.len(),
            decls == config@.repositories,
            decls.len() == config.repositories@.len(),
            texts(r@) == explicit_list(decls.subrange(0, i as int)),
        decreases config.repositories.len() - i,
    {
        assert(decls[i as int] == config.repositories@[i as int]@);
        assert(decls.subrange(0, i + 1).drop_last() =~= decls.subrange(0, i as int));
        assert(decls.subrange(0, i + 1).last() == decls[i as int]);
        let ghost before = texts(r@);
        match RepositoryRef::parse(config.repositories[i].url.as_str()) {
            Ok(reference) => {
                if !reference.wildcard {
                    let id = chars(reference.identity().as_str());
                    r.push(id);
                    assert(texts(r@) =~= before.push(spec_identity(reference@)));
                }
            },
            Err(_) => {},
        }
        i += 1;
    }
    assert(decls.subrange(0, decls.len() as int) =~= decls);
    r
}

/// Adds `id` to `seen` unless it is there already; says whether it was new.
pub fn insert_new(seen: &mut Vec<Vec<char>>, id: &[char]) -> (fresh: bool)
    ensures
        fresh == !texts(old(seen)@).contains(id@),
        texts(final(seen)@) == if fresh {
            texts(old(seen)@).push(id@)
        } else {
            texts(old(seen)@)
        },
{
    if contains_text(seen, id) {
        return false;
    }
    let ghost before = texts(seen@);
    let copy = slice(id, 0, id.len());
    assert(copy@ =~= id@);
    seen.push(copy);
    assert(texts(seen@) =~= before.push(id@));
    true
}

pub open spec fn summary_identity(s: RepositorySummary) -> Seq<char> {
    spec_identity(s.reference@)
}

/// A wildcard member that is not listed: archived when archived members are not wanted,
/// excluded by its declaration, or declared explicitly elsewhere.
pub open spec fn member_dropped(
    s: RepositorySummary,
    pattern_path: Seq<char>,
    exclude: Seq<Seq<char>>,
    keep_archived: bool,
    explicit: Seq<Seq<char>>,
) -> bool {
    ||| s.archived && !keep_archived
    ||| member_excluded(exclude, pattern_path, s.reference@.path)
    ||| explicit.contains(summary_identity(s))
}

pub open spec fn identities_sorted(v: Seq<RepositorySummary>) -> bool {
    forall|i: int, j: int| 0 <= i < j < v.len() ==> lex_le(summary_identity(#[trigger] v[i]), summary_identity(#[trigger] v[j]))
}

pub open spec fn summary_identities(v: Seq<RepositorySummary>) -> Seq<Seq<char>> {
    v.map_values(|s: RepositorySummary| summary_identity(s))
}

/// Admits the members of one wildcard's expansion in identity order: each identity once,
/// none already `seen`, none dropped. The admitted identities join `seen`.
pub fn admit_members(
    expanded: Vec<RepositorySummary>,
    pattern_path: &str,
    exclude: &Vec<String>,
    explicit: &Vec<Vec<char>>,
    keep_archived: bool,
    seen: &mut Vec<Vec<char>>,
) -> (r: Vec<RepositorySummary>)
    ensures
        identities_sorted(r@),
        forall|k: int| 0 <= k < r@.len() ==> expanded@.contains(#[trigger] r@[k]),
        forall|k: int| 0 <= k < r@.len() ==> !member_dropped(#[trigger] r@[k], pattern_path@, exclude.deep_view(), keep_archived, texts(explicit@))
            && !texts(old(seen)@).contains(summary_identity(r@[k])),
        forall|a: int, b: int| 0 <= a < b < r@.len() ==> summary_identity(#[trigger] r@[a]) != summary_identity(#[trigger] r@[b]),
        forall|j: int| 0 <= j < expanded@.len() && !member_dropped(#[trigger] expanded@[j], pattern_path@, exclude.deep_view(), keep_archived, texts(explicit@))
            && !texts(old(seen)@).contains(summary_identity(expanded@[j])) ==> summary_identities(r@).contains(summary_identity(expanded@[j])),
        texts(final(seen)@) == texts(old(seen)@) + summary_identities(r@),
{
    let ghost original = expanded@;
    let ghost seen0 = texts(seen@);
    let ghost excl = exclude.deep_view();
    let ghost expl = texts(explicit@);
    // Pair each member with its identity, then sort by it.
    let mut rest = expanded;
    let mut keyed: Vec<(Vec<char>, RepositorySummary)> = Vec::new();
    while rest.len() > 0
        invariant
            keyed@.len() + rest@.len() == original.len(),
            rest@ == original.subrange(keyed@.len() as int, original.len() as int),
            forall|q: int| 0 <= q < keyed@.len() ==> (#[trigger] keyed@[q]).1 == original[q] && keyed@[q].0@ == summary_identity(original[q]),
        decreases rest@.len(),
    {
        let summary = rest.remove(0);
        let key = chars(summary.reference.identity().as_str());
        keyed.push((key, summary));
    }
    let mut sorted = sort_keyed(keyed);
    proof {
        assert forall|q: int| 0 <= q < sorted@.len() implies (#[trigger] sorted@[q]).0@ == summary_identity(sorted@[q].1)
            && original.contains(sorted@[q].1) by {
            assert(sorted@.to_multiset().count(sorted@[q]) > 0);
            assert(keyed@.contains(sorted@[q]));
            let p = choose|p: int| 0 <= p < keyed@.len() && keyed@[p] == sorted@[q];
            assert(original[p] == sorted@[q].1);
        }
        assert forall|j: int| 0 <= j < original.len() implies exists|q: int| 0 <= q < sorted@.len() && (#[trigger] sorted@[q]).1 == #[trigger] original[j] by {
            assert(keyed@[j].1 == original[j]);
            assert(keyed@.contains(keyed@[j]));
            assert(sorted@.to_multiset().count(keyed@[j]) > 0);
            assert(sorted@.contains(keyed@[j]));
        }
    }
    let ghost all = sorted@;
    let total = sorted.len();
    assert(all.len() == total);
    let mut r: Vec<RepositorySummary> = Vec::new();
    let mut done: usize = 0;
    while sorted.len() > 0
        invariant
            done + sorted@.len() == all.len(),
            all.len() <= usize::MAX,
            sorted@ == all.subrange(done as int, all.len() as int),
            keys_sorted(all),
            forall|q: int| 0 <= q < all.len() ==> (#[trigger] all[q]).0@ == summary_identity(all[q].1) && original.contains(all[q].1),
            excl == exclude.deep_view(),
            expl == texts(explicit@),
            texts(seen@) == seen0 + summary_identities(r@),
            forall|k: int| 0 <= k < r@.len() ==> exists|q: int| 0 <= q < done && (#[trigger] r@[k]) == all[q].1,
            identities_sorted(r@),
            r@.len() > 0 ==> forall|q2: int| done <= q2 < all.len() ==> lex_le(summary_identity(r@.last()), (#[trigger] all[q2]).0@),
            forall|k: int| 0 <= k < r@.len() ==> !member_dropped(#[trigger] r@[k], pattern_path@, excl, keep_archived, expl)
                && !seen0.contains(summary_identity(r@[k])),
            forall|a: int, b: int| 0 <= a < b < r@.len() ==> summary_identity(#[trigger] r@[a]) != summary_identity(#[trigger] r@[b]),
            forall|q: int| 0 <= q < done && !member_dropped(#[trigger] all[q].1, pattern_path@, excl, keep_archived, expl)
                && !seen0.contains(summary_identity(all[q].1)) ==> summary_identities(r@).contains(summary_identity(all[q].1)),
        decreases sorted@.len(),
    {
        let (key, summary) = sorted.remove(0);
        assert(all[done as int] == (key, summary));
        let ghost q0 = done as int;
        let dropped = (summary.archived && !keep_archived)
            || is_excluded(exclude, pattern_path, summary.reference.path.as_str())
            || contains_text(explicit, &key);
        if !dropped {
            let ghost before_r = r@;
            let ghost before_seen = texts(seen@);
            let fresh = insert_new(seen, &key);
            if fresh {
                r.push(summary);
                proof {
                    assert(summary_identities(r@) =~= summary_identities(before_r).push(key@));
                    assert(!seen0.contains(key@)) by {
                        if seen0.contains(key@) {
                            let k = choose|k: int| 0 <= k < seen0.len() && seen0[k] == key@;
                            assert(before_seen[k] == key@);
                        }
                    }
                    assert forall|a: int, b: int| 0 <= a < b < r@.len() implies summary_identity(#[trigger] r@[a]) != summary_identity(#[trigger] r@[b]) by {
                        if b == before_r.len() {
                            assert(summary_identities(before_r)[a] == summary_identity(r@[a]));
                            assert(before_seen[seen0.len() + a] == summary_identity(r@[a]));
                        }
                    }
                    assert forall|i: int, j: int| 0 <= i < j < r@.len() implies lex_le(summary_identity(#[trigger] r@[i]), summary_identity(#[trigger] r@[j])) by {
                        if j == before_r.len() {
                            assert(lex_le(summary_identity(before_r.last()), all[q0].0@));
                            if i < before_r.len() - 1 {
                                crate::order::lemma_lex_trans(summary_identity(r@[i]), summary_identity(before_r.last()), summary_identity(r@[j]));
                            }
                        }
                    }
                    assert forall|q2: int| q0 + 1 <= q2 < all.len() implies lex_le(summary_identity(r@.last()), (#[trigger] all[q2]).0@) by {
                        assert(lex_le(all[q0].0@, all[q2].0@));
                    }
                    assert forall|q: int| 0 <= q < done + 1 && !member_dropped(#[trigger] all[q].1, pattern_path@, excl, keep_archived, expl)
                        && !seen0.contains(summary_identity(all[q].1)) implies summary_identities(r@).contains(summary_identity(all[q].1)) by {
                        if q < q0 {
                            let k = choose|k: int| 0 <= k < summary_identities(before_r).len() && summary_identities(before_r)[k] == summary_identity(all[q].1);
                            assert(summary_identities(r@)[k] == summary_identity(all[q].1));
                        } else {
                            assert(summary_identities(r@)[before_r.len() as int] == summary_identity(all[q].1));
                        }
                    }
                }
            } else {
                proof {
                    assert forall|q: int| 0 <= q < done + 1 && !member_dropped(#[trigger] all[q].1, pattern_path@, excl, keep_archived, expl)
                        && !seen0.contains(summary_identity(all[q].1)) implies summary_identities(r@).contains(summary_identity(all[q].1)) by {
                        if q == q0 {
                            let k = choose|k: int| 0 <= k < before_seen.len() && before_seen[k] == key@;
                            if k >= seen0.len() {
                                assert(summary_identities(r@)[k - seen0.len()] == key@);
                            } else {
                                assert(seen0[k] == key@);
                            }
                        }
                    }
                }
            }
        }
        done += 1;
    }
    proof {
        assert forall|k: int| 0 <= k < r@.len() implies original.contains(#[trigger] r@[k]) by {
            let q = choose|q: int| 0 <= q < done && r@[k] == all[q].1;
        }
        assert forall|j: int| 0 <= j < original.len() && !member_dropped(#[trigger] original[j], pattern_path@, excl, keep_archived, expl)
            && !seen0.contains(summary_identity(original[j])) implies summary_identities(r@).contains(summary_identity(original[j])) by {
            let q = choose|q: int| 0 <= q < all.len() && (#[trigger] all[q]).1 == #[trigger] original[j];
        }
    }
    r
}

/// The declaration names the repository `id` explicitly.
pub open spec fn declares(d: DeclView, id: Seq<char>) -> bool {
    explicit_identity(d) == Some(id)
}

/// The explicit declaration of `id` carries a post-clone hook.
pub open spec fn declares_hook(d: DeclView, id: Seq<char>) -> bool {
    declares(d, id) && d.post_clone is Some
}

/// The position of the first explicit declaration of `id`.
pub fn declaration_of(config: &Config, id: &[char]) -> (r: Option<usize>)
    ensures
        match r {
            Some(i) => i < config@.repositories.len() && declares(config@.repositories[i as int], id@) && forall|j: int|
                0 <= j < i ==> !declares(#[trigger] config@.repositories[j], id@),
            None => forall|j: int| 0 <= j < config@.repositories.len() ==> !declares(#[trigger] config@.repositories[j], id@),
        },
{
    let mut i: usize = 0;
    while i < config.repositories.len()
        invariant
            i <= config.repositories@.len(),
            config@.repositories.len() == config.repositories@.len(),
            forall|j: int| 0 <= j < i ==> !declares(#[trigger] config@.repositories[j], id@),
        decreases config.repositories.len() - i,
    {
        assert(config@.repositories[i as int] == config.repositories@[i as int]@);
        if let Ok(reference) = RepositoryRef::parse(config.repositories[i].url.as_str()) {
            if !reference.wildcard && equal(&chars(reference.identity().as_str()), id) {
                return Some(i);
            }
        }
        i += 1;
    }
    None
}

/// The hook of the first explicit declaration of `id` that has one.
pub fn configured_hook(config: &Config, id: &[char]) -> (r: Option<String>)
    ensures
        match r {
            Some(h) => exists|i: int| 0 <= i < config@.repositories.len() && declares_hook(#[trigger] config@.repositories[i], id@)
                && config@.repositories[i].post_clone == Some(h@) && forall|j: int| 0 <= j < i ==> !declares_hook(#[trigger] config@.repositories[j], id@),
            None => forall|j: int| 0 <= j < config@.repositories.len() ==> !declares_hook(#[trigger] config@.repositories[j], id@),
        },
{
    let mut i: usize = 0;
    while i < config.repositories.len()
        invariant
            i <= config.repositories@.len(),
            config@.repositories.len() == config.repositories@.len(),
            forall|j: int| 0 <= j < i ==> !declares_hook(#[trigger] config@.repositories[j], id@),
        decreases config.repositories.len() - i,
    {
        assert(config@.repositories[i as int] == config.repositories@[i as int]@);
        if let Ok(reference) = RepositoryRef::parse(config.repositories[i].url.as_str()) {
            if !reference.wildcard && equal(&chars(reference.identity().as_str()), id) {
                match &config.repositories[i].post_clone {
                    Some(command) => {
                        let hook = string_of(&chars(command.as_str()));
                        assert(declares_hook(config@.repositories[i as int], id@));
                        return Some(hook);
                    },
                    None => {},
                }
            }
        }
        i += 1;
    }
    None
}

} // verus!
