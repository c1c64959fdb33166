//! Lexicographic order of texts and a stable sort by a text key.
use vstd::prelude::*;

verus! {

broadcast use {
    vstd::seq::group_seq_axioms,
    vstd::seq_lib::group_to_multiset_ensures,
    vstd::multiset::group_multiset_axioms,
    vstd::multiset::lemma_multiset_empty_len,
};

/// `a` sorts no later than `b` (character by character, like `str`'s `Ord`).
pub open spec fn lex_le(a: Seq<char>, b: Seq<char>) -> bool
    decreases a.len(),
{
    if a.len() == 0 {
        true
    } else if b.len() == 0 {
        false
    } else if a[0] != b[0] {
        a[0] < b[0]
    } else {
        lex_le(a.drop_first(), b.drop_first())
    }
}

pub proof fn lemma_lex_total(a: Seq<char>, b: Seq<char>)
    ensures
        lex_le(a, b) || lex_le(b, a),
    decreases a.len(),
{
    if a.len() > 0 && b.len() > 0 && a[0] == b[0] {
        lemma_lex_total(a.drop_first(), b.drop_first());
    }
}

pub proof fn lemma_lex_trans(a: Seq<char>, b: Seq<char>, c: Seq<char>)
    requires
        lex_le(a, b),
        lex_le(b, c),
    ensures
        lex_le(a, c),
    decreases a.len(),
{
    if a.len() > 0 && b.len() > 0 && c.len() > 0 && a[0] == b[0] && b[0] == c[0] {
        lemma_lex_trans(a.drop_first(), b.drop_first(), c.drop_first());
    }
}

/// Whether `a` sorts no later than `b`.
pub fn text_le(a: &[char], b: &[char]) -> (r: bool)
    ensures
        r == lex_le(a@, b@),
{
    let mut i: usize = 0;
    assert(a@.subrange(0, a@.len() as int) =~= a@);
    assert(b@.subrange(0, b@.len() as int) =~= b@);
    while i < a.len() && i < b.len() && a[i] == b[i]
        invariant
            i <= a@.len(),
            i <= b@.len(),
            lex_le(a@, b@) == lex_le(a@.subrange(i as int, a@.len() as int), b@.subrange(i as int, b@.len() as int)),
        decreases a.len() - i,
    {
        assert(a@.subrange(i as int, a@.len() as int).drop_first() =~= a@.subrange(i + 1, a@.len() as int));
        assert(b@.subrange(i as int, b@.len() as int).drop_first() =~= b@.subrange(i + 1, b@.len() as int));
        i += 1;
    }
    if i == a.len() {
        return true;
    }
    if i == b.len() {
        return false;
    }
    a[i] < b[i]
}

pub open spec fn keys_sorted<T>(v: Seq<(Vec<char>, T)>) -> bool {
    forall|i: int, j: int| 0 <= i < j < v.len() ==> lex_le((#[trigger] v[i]).0@, (#[trigger] v[j]).0@)
}

/// Sorts by key; items with equal keys keep their order.
pub fn sort_keyed<T>(items: Vec<(Vec<char>, T)>) -> (r: Vec<(Vec<char>, T)>)
    ensures
        keys_sorted(r@),
        r@.to_multiset() == items@.to_multiset(),
        r@.len() == items@.len(),
{
    let mut rest = items;
    let mut out: Vec<(Vec<char>, T)> = Vec::new();
    proof {
        assert(out@.to_multiset().len() == 0);
        assert(out@.to_multiset().add(rest@.to_multiset()) =~= rest@.to_multiset());
    }
    while rest.len() > 0
        invariant
            keys_sorted(out@),
            out@.to_multiset().add(rest@.to_multiset()) == items@.to_multiset(),
            out@.len() + rest@.len() == items@.len(),
        decreases rest@.len(),
    {
        let ghost before_rest = rest@;
        let ghost before_out = out@;
        let item = rest.pop().unwrap();
        proof {
            assert(before_rest =~= rest@.push(item));
        }
        // The first position whose key is not smaller than the item's.
        let mut p: usize = 0;
        while p < out.len() && !text_le(&item.0, &out[p].0)
            invariant
                p <= out@.len(),
                forall|q: int| 0 <= q < p ==> !lex_le(item.0@, (#[trigger] out@[q]).0@),
            decreases out.len() - p,
        {
            p += 1;
        }
        proof {
            assert forall|q: int| 0 <= q < p implies lex_le((#[trigger] out@[q]).0@, item.0@) by {
                lemma_lex_total(item.0@, out@[q].0@);
            }
        }
        out.insert(p, item);
        proof {
            let o = out@;
            assert forall|i: int, j: int| 0 <= i < j < o.len() implies lex_le((#[trigger] o[i]).0@, (#[trigger] o[j]).0@) by {
                if j == p as int {
                    assert(o[i] == before_out[i]);
                } else if i == p as int {
                    assert(o[j] == before_out[j - 1]);
                    if (p as int) < before_out.len() {
                        if j - 1 > p as int {
                            lemma_lex_trans(item.0@, before_out[p as int].0@, before_out[j - 1].0@);
                        }
                    }
                } else if j < p as int {
                    assert(o[i] == before_out[i] && o[j] == before_out[j]);
                } else if i < p as int {
                    assert(o[i] == before_out[i] && o[j] == before_out[j - 1]);
                } else {
                    assert(o[i] == before_out[i - 1] && o[j] == before_out[j - 1]);
                }
            }
            assert(out@.to_multiset() == before_out.to_multiset().insert(item));
            assert(before_rest.to_multiset() == rest@.to_multiset().insert(item));
            assert(out@.to_multiset().add(rest@.to_multiset()) =~= before_out.to_multiset().add(before_rest.to_multiset()));
        }
    }
    proof {
        assert(rest@.to_multiset().len() == 0);
        assert(out@.to_multiset().add(rest@.to_multiset()) =~= out@.to_multiset());
    }
    out
}

/// No two items carry the same key.
pub open spec fn keys_distinct_seq<T>(v: Seq<(Vec<char>, T)>) -> bool {
    forall|a: int, b: int| 0 <= a < b < v.len() ==> (#[trigger] v[a]).0@ != (#[trigger] v[b]).0@
}

proof fn lemma_count_two<A>(s: Seq<A>, a: int, b: int)
    requires
        0 <= a < b < s.len(),
        s[a] == s[b],
    ensures
        s.to_multiset().count(s[a]) >= 2,
{
    let m = s.to_multiset();
    assert(s.remove(b).to_multiset() == m.remove(s[b]));
    assert(s.remove(b)[a] == s[a]);
    assert(s.remove(b).contains(s[a]));
    assert(m.remove(s[b]).count(s[a]) > 0);
    assert(m.remove(s[b]) == m.sub(vstd::multiset::Multiset::singleton(s[b])));
    assert(vstd::multiset::Multiset::singleton(s[b]).count(s[a]) == 1);
}

proof fn lemma_count_one<T>(s: Seq<(Vec<char>, T)>, x: (Vec<char>, T))
    requires
        keys_distinct_seq(s),
    ensures
        s.to_multiset().count(x) <= 1,
    decreases s.len(),
{
    if s.len() > 0 {
        let t = s.drop_last();
        assert(s =~= t.push(s.last()));
        assert(keys_distinct_seq(t)) by {
            assert forall|a: int, b: int| 0 <= a < b < t.len() implies (#[trigger] t[a]).0@ != (#[trigger] t[b]).0@ by {
                assert(t[a] == s[a] && t[b] == s[b]);
            }
        }
        lemma_count_one(t, x);
        if x == s.last() && t.to_multiset().count(x) >= 1 {
            assert(t.contains(x));
            let p = choose|p: int| 0 <= p < t.len() && t[p] == x;
            assert(s[p] == s[s.len() - 1]);
        }
    } else {
        assert(s.to_multiset().len() == 0);
    }
}

/// A rearrangement of items with distinct keys has distinct keys.
pub proof fn lemma_permutation_keys_distinct<T>(items: Seq<(Vec<char>, T)>, sorted: Seq<(Vec<char>, T)>)
    requires
        items.to_multiset() == sorted.to_multiset(),
        keys_distinct_seq(items),
    ensures
        keys_distinct_seq(sorted),
{
    assert forall|a: int, b: int| 0 <= a < b < sorted.len() implies (#[trigger] sorted[a]).0@ != (#[trigger] sorted[b]).0@ by {
        if sorted[a].0@ == sorted[b].0@ {
            assert(sorted.to_multiset().count(sorted[a]) > 0);
            assert(sorted.to_multiset().count(sorted[b]) > 0);
            assert(items.contains(sorted[a]));
            assert(items.contains(sorted[b]));
            let pa = choose|pa: int| 0 <= pa < items.len() && items[pa] == sorted[a];
            let pb = choose|pb: int| 0 <= pb < items.len() && items[pb] == sorted[b];
            if pa < pb {
                assert(items[pa].0@ != items[pb].0@);
            } else if pb < pa {
                assert(items[pb].0@ != items[pa].0@);
            } else {
                lemma_count_two(sorted, a, b);
                lemma_count_one(items, sorted[a]);
            }
        }
    }
}

/// The position of the first of the first `n` items that `p` holds of, or -1.
pub open spec fn first_where<A>(s: Seq<A>, p: spec_fn(A) -> bool, n: int) -> int
    decreases n,
{
    if n <= 0 {
        -1
    } else if first_where(s, p, n - 1) >= 0 {
        first_where(s, p, n - 1)
    } else if p(s[n - 1]) {
        n - 1
    } else {
        -1
    }
}

pub proof fn lemma_first_where_stays<A>(s: Seq<A>, p: spec_fn(A) -> bool, k: int, n: int)
    requires
        0 <= k <= n,
        first_where(s, p, k) >= 0,
    ensures
        first_where(s, p, n) == first_where(s, p, k),
    decreases n,
{
    if n > k {
        lemma_first_where_stays(s, p, k, n - 1);
    }
}

/// Where no item before `n` has the property, there is no first one.
pub proof fn lemma_first_where_none<A>(s: Seq<A>, p: spec_fn(A) -> bool, n: int)
    requires
        0 <= n <= s.len(),
        forall|j: int| 0 <= j < n ==> !p(#[trigger] s[j]),
    ensures
        first_where(s, p, n) == -1,
    decreases n,
{
    if n > 0 {
        lemma_first_where_none(s, p, n - 1);
    }
}

pub proof fn lemma_first_where_bounds<A>(s: Seq<A>, p: spec_fn(A) -> bool, n: int)
    requires
        0 <= n,
    ensures
        first_where(s, p, n) < n,
        first_where(s, p, n) >= 0 ==> p(s[first_where(s, p, n)]),
    decreases n,
{
    if n > 0 {
        lemma_first_where_bounds(s, p, n - 1);
    }
}


/// Mapping two sequences that hold the same items gives sequences that hold the same items.
pub proof fn lemma_multiset_map<A, B>(a: Seq<A>, b: Seq<A>, f: spec_fn(A) -> B)
    requires
        a.to_multiset() == b.to_multiset(),
    ensures
        a.map_values(f).to_multiset() == b.map_values(f).to_multiset(),
    decreases a.len(),
{
    if a.len() == 0 {
        assert(a.to_multiset().len() == a.len());
        assert(b.to_multiset().len() == b.len());
        assert(b.len() == 0);
        assert(a.map_values(f) =~= Seq::<B>::empty());
        assert(b.map_values(f) =~= Seq::<B>::empty());
    } else {
        let x = a.last();
        assert(a.drop_last().push(x) =~= a);
        assert(a.to_multiset() == a.drop_last().to_multiset().insert(x));
        assert(b.to_multiset().count(x) > 0);
        assert(b.contains(x));
        let i = choose|i: int| 0 <= i < b.len() && b[i] == x;
        assert(b.remove(i).to_multiset() == b.to_multiset().remove(x));
        assert(a.drop_last().to_multiset() =~= a.to_multiset().remove(x));
        lemma_multiset_map(a.drop_last(), b.remove(i), f);
        assert(a.map_values(f) =~= a.drop_last().map_values(f).push(f(x)));
        assert(b.map_values(f).remove(i) =~= b.remove(i).map_values(f));
        assert(b.map_values(f)[i] == f(x));
        assert(b.map_values(f).remove(i).to_multiset() == b.map_values(f).to_multiset().remove(f(x)));
        assert(b.map_values(f).to_multiset().count(f(x)) > 0) by {
            assert(b.map_values(f).contains(f(x)));
        }
        assert(b.map_values(f).to_multiset() =~= b.map_values(f).to_multiset().remove(f(x)).insert(f(x)));
    }
}

} // verus!
