//! Trusted interface to the `rand` crate's shuffling, and to std's sorting.

use vstd::prelude::*;
use rand::seq::SliceRandom;

verus! {

/// `SliceRandom::shuffle` with the thread-local generator: a permutation of
/// `v`; which one depends on chance and is not stated.
#[verifier::external_body]
pub(crate) fn shuffle_vec<T>(v: &mut Vec<T>)
    ensures
        final(v)@.to_multiset() == old(v)@.to_multiset(),
{
    v.shuffle(&mut rand::thread_rng());
}

/// `slice::sort_unstable` on integers: the same integers in ascending order.
#[verifier::external_body]
pub(crate) fn sort_u64(v: &mut Vec<u64>)
    ensures
        final(v)@.to_multiset() == old(v)@.to_multiset(),
        forall|i: int, j: int| 0 <= i <= j < final(v)@.len() ==> final(v)@[i] <= final(v)@[j],
{
    v.sort_unstable();
}

} // verus!
