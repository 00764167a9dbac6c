//! List utilities over `Vec<i32>`.

use crate::seqs::{first_occurrences, lemma_first_occurrences};
use std::collections::HashSet;
use vstd::prelude::*;

verus! {

/// Returns a new vector whose `i`-th element is `v[i] + n`.
///
/// The sums must fit in an `i32`.
pub fn add_n(v: Vec<i32>, n: i32) -> (out: Vec<i32>)
    requires
        forall|i: int| 0 <= i < v@.len() ==> i32::MIN <= #[trigger] v@[i] + n <= i32::MAX,
    ensures
        out@.len() == v@.len(),
        forall|i: int| 0 <= i < v@.len() ==> #[trigger] out@[i] == v@[i] + n,
{
    let mut out: Vec<i32> = Vec::new();
    let mut i: usize = 0;
    while i < v.len()
        invariant
            i <= v@.len(),
            out@.len() == i,
            forall|j: int| 0 <= j < v@.len() ==> i32::MIN <= #[trigger] v@[j] + n <= i32::MAX,
            forall|j: int| 0 <= j < i ==> #[trigger] out@[j] == v@[j] + n,
        decreases v@.len() - i,
    {
        out.push(v[i] + n);
        i += 1;
    }
    out
}

/// Adds `n` to every element of `v`, in place.
///
/// The sums must fit in an `i32`.
pub fn add_n_inplace(v: &mut Vec<i32>, n: i32)
    requires
        forall|i: int| 0 <= i < old(v)@.len() ==> i32::MIN <= #[trigger] old(v)@[i] + n <= i32::MAX,
    ensures
        final(v)@.len() == old(v)@.len(),
        forall|i: int| 0 <= i < old(v)@.len() ==> #[trigger] final(v)@[i] == old(v)@[i] + n,
{
    let ghost before = v@;
    let mut i: usize = 0;
    while i < v.len()
        invariant
            i <= v@.len(),
            v@.len() == before.len(),
            forall|j: int| 0 <= j < before.len() ==> i32::MIN <= #[trigger] before[j] + n <= i32::MAX,
            forall|j: int| 0 <= j < i ==> #[trigger] v@[j] == before[j] + n,
            forall|j: int| i <= j < before.len() ==> #[trigger] v@[j] == before[j],
        decreases v@.len() - i,
    {
        let e: i32 = v[i];
        v[i] = e + n;
        i += 1;
    }
}

/// Removes every element that occurred earlier in `v`, keeping the order of
/// first occurrence.
pub fn dedup(v: &mut Vec<i32>)
    ensures
        final(v)@ == first_occurrences(old(v)@),
        final(v)@.no_duplicates(),
        forall|x: i32| final(v)@.contains(x) <==> old(v)@.contains(x),
{
    broadcast use vstd::std_specs::hash::group_hash_axioms;

    let mut seen: HashSet<i32> = HashSet::new();
    let mut kept: Vec<i32> = Vec::new();
    let mut i: usize = 0;
    assert(v@.take(0) =~= Seq::<i32>::empty());
    while i < v.len()
        invariant
            i <= v@.len(),
            kept@ == first_occurrences(v@.take(i as int)),
            forall|x: i32| seen@.contains(x) <==> kept@.contains(x),
        decreases v@.len() - i,
    {
        let e: i32 = v[i];
        proof {
            assert(v@.take(i + 1).drop_last() =~= v@.take(i as int));
            assert(v@.take(i + 1).last() == e);
        }
        if !seen.contains(&e) {
            proof {
                assert forall|x: i32| seen@.insert(e).contains(x) <==> kept@.push(e).contains(
                    x,
                ) by {
                    crate::seqs::lemma_push_contains(kept@, e, x);
                }
            }
            seen.insert(e);
            kept.push(e);
        }
        i += 1;
    }
    proof {
        assert(v@.take(v@.len() as int) =~= v@);
        lemma_first_occurrences(v@);
    }
    *v = kept;
}

} // verus!
