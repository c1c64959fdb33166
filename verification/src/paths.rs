//! Paths as text: components, prefixes and equality in the sense of `std::path::Path`.
use vstd::prelude::*;

use crate::domain::repository::path_names;
use crate::text::{chars, equal, has_prefix, split, split_char, starts_with};

verus! {

broadcast use vstd::seq::group_seq_axioms;

/// The components of a path (normal names and `..`), as `Path::components` yields them
/// after the root.
pub open spec fn components(p: Seq<char>) -> Seq<Seq<char>> {
    path_names(split(p, '/'))
}

pub open spec fn is_absolute(p: Seq<char>) -> bool {
    has_prefix(p, "/"@)
}

/// `Path::starts_with`: `base`'s components begin `p`'s.
pub open spec fn path_starts_with(p: Seq<char>, base: Seq<char>) -> bool {
    is_absolute(p) == is_absolute(base) && components(base).len() <= components(p).len()
        && components(p).subrange(0, components(base).len() as int) == components(base)
}

/// Path equality (`PathBuf == PathBuf`): same components.
pub open spec fn same_path(a: Seq<char>, b: Seq<char>) -> bool {
    is_absolute(a) == is_absolute(b) && components(a) == components(b)
}

/// `p` lies strictly below `base`.
pub open spec fn strictly_below(p: Seq<char>, base: Seq<char>) -> bool {
    path_starts_with(p, base) && !same_path(p, base)
}

pub fn components_of(p: &[char]) -> (r: Vec<Vec<char>>)
    ensures
        r@.map_values(|v: Vec<char>| v@) == components(p@),
{
    let parts = split_char(p, '/');
    crate::domain::repository::names_of(&parts)
}

pub(crate) fn prefix_of(a: &Vec<Vec<char>>, b: &Vec<Vec<char>>) -> (r: bool)
    ensures
        r == (a@.len() <= b@.len() && b@.map_values(|v: Vec<char>| v@).subrange(0, a@.len() as int) == a@.map_values(
            |v: Vec<char>| v@,
        )),
{
    let ghost av = a@.map_values(|v: Vec<char>| v@);
    let ghost bv = b@.map_values(|v: Vec<char>| v@);
    if a.len() > b.len() {
        return false;
    }
    let mut i: usize = 0;
    while i < a.len()
        invariant
            a@.len() <= b@.len(),
            i <= a@.len(),
            av == a@.map_values(|v: Vec<char>| v@),
            bv == b@.map_values(|v: Vec<char>| v@),
            forall|j: int| 0 <= j < i ==> av[j] == bv[j],
        decreases a.len() - i,
    {
        if !equal(&a[i], &b[i]) {
            assert(bv.subrange(0, a@.len() as int)[i as int] != av[i as int]);
            return false;
        }
        i += 1;
    }
    assert(bv.subrange(0, a@.len() as int) =~= av);
    true
}

/// `Path::starts_with`.
pub fn starts_with_path(p: &str, base: &str) -> (r: bool)
    ensures
        r == path_starts_with(p@, base@),
{
    let pv = chars(p);
    let bv = chars(base);
    let slash = chars("/");
    if starts_with(&pv, &slash) != starts_with(&bv, &slash) {
        return false;
    }
    prefix_of(&components_of(&bv), &components_of(&pv))
}

/// `PathBuf` equality.
pub fn paths_equal(a: &str, b: &str) -> (r: bool)
    ensures
        r == same_path(a@, b@),
{
    let av = chars(a);
    let bv = chars(b);
    let slash = chars("/");
    if starts_with(&av, &slash) != starts_with(&bv, &slash) {
        return false;
    }
    let ac = components_of(&av);
    let bc = components_of(&bv);
    if ac.len() != bc.len() {
        assert(ac@.map_values(|v: Vec<char>| v@).len() != bc@.map_values(|v: Vec<char>| v@).len());
        return false;
    }
    let same = prefix_of(&ac, &bc);
    proof {
        assert(bc@.map_values(|v: Vec<char>| v@).subrange(0, ac@.len() as int) =~= bc@.map_values(|v: Vec<char>| v@));
    }
    same
}

} // verus!
