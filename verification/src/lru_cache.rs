//! Trusted interface to the `lru` crate, for caches from byte-string keys
//! to integer handles.

use vstd::prelude::*;
use lru::LruCache;
use std::num::NonZeroUsize;
use std::collections::hash_map::RandomState;

verus! {

#[verifier::external_type_specification]
#[verifier::external_body]
#[verifier::reject_recursive_types(K)]
#[verifier::reject_recursive_types(V)]
#[verifier::reject_recursive_types(S)]
pub struct ExLruCache<K, V, S>(LruCache<K, V, S>);

/// A cache from forest keys to forest handles.
pub type HandleCache = LruCache<Vec<u8>, u64, RandomState>;

/// The entries of a cache, from the most to the least recently used.
pub uninterp spec fn lru_entries(c: HandleCache) -> Seq<(Seq<u8>, u64)>;

/// The capacity that a cache was made with.
pub uninterp spec fn lru_cap(c: HandleCache) -> nat;

/// The keys of cache entries.
pub open spec fn entry_keys(e: Seq<(Seq<u8>, u64)>) -> Seq<Seq<u8>> {
    e.map_values(|x: (Seq<u8>, u64)| x.0)
}

/// What holds of every cache: its keys are unique and it is within capacity.
pub open spec fn lru_ok(c: HandleCache) -> bool {
    &&& entry_keys(lru_entries(c)).no_duplicates()
    &&& lru_entries(c).len() <= lru_cap(c)
    &&& lru_cap(c) > 0
}

/// `LruCache::with_hasher` (std's hasher): an empty cache of capacity `cap`.
#[verifier::external_body]
pub(crate) fn lru_new(cap: usize) -> (r: HandleCache)
    requires
        cap > 0,
    ensures
        lru_entries(r).len() == 0,
        lru_cap(r) == cap,
        lru_ok(r),
{
    LruCache::with_hasher(NonZeroUsize::new(cap).unwrap(), RandomState::new())
}

/// `LruCache::unbounded_with_hasher` (std's hasher): an empty cache whose capacity is the largest `usize`.
#[verifier::external_body]
pub(crate) fn lru_unbounded() -> (r: HandleCache)
    ensures
        lru_entries(r).len() == 0,
        lru_cap(r) == usize::MAX,
        lru_ok(r),
{
    LruCache::unbounded_with_hasher(RandomState::new())
}

/// `LruCache::get`: the value of `k`, which becomes the most recently used.
#[verifier::external_body]
pub(crate) fn lru_get(c: &mut HandleCache, k: &Vec<u8>) -> (r: Option<u64>)
    requires
        lru_ok(*old(c)),
    ensures
        lru_ok(*final(c)),
        lru_cap(*final(c)) == lru_cap(*old(c)),
        !entry_keys(lru_entries(*old(c))).contains(k@) ==> r is None && lru_entries(*final(c)) == lru_entries(*old(c)),
        entry_keys(lru_entries(*old(c))).contains(k@) ==> {
            let i = entry_keys(lru_entries(*old(c))).index_of(k@);
            &&& r == Some(lru_entries(*old(c))[i].1)
            &&& lru_entries(*final(c)) == seq![lru_entries(*old(c))[i]] + lru_entries(*old(c)).remove(i)
        },
{
    c.get(k).copied()
}

/// `LruCache::push`: sets the value of `k`, which becomes the most recently
/// used. Returns the previous entry of `k`, or else the least recently used
/// entry that was evicted because the cache was full.
#[verifier::external_body]
pub(crate) fn lru_push(c: &mut HandleCache, k: Vec<u8>, v: u64) -> (r: Option<(Vec<u8>, u64)>)
    requires
        lru_ok(*old(c)),
    ensures
        lru_ok(*final(c)),
        lru_cap(*final(c)) == lru_cap(*old(c)),
        entry_keys(lru_entries(*old(c))).contains(k@) ==> {
            let i = entry_keys(lru_entries(*old(c))).index_of(k@);
            &&& r matches Some(p) && p.0@ == k@ && p.1 == lru_entries(*old(c))[i].1
            &&& lru_entries(*final(c)) == seq![(k@, v)] + lru_entries(*old(c)).remove(i)
        },
        !entry_keys(lru_entries(*old(c))).contains(k@) && lru_entries(*old(c)).len() == lru_cap(*old(c)) ==> {
            &&& r matches Some(p) && p.0@ == lru_entries(*old(c)).last().0 && p.1 == lru_entries(*old(c)).last().1
            &&& lru_entries(*final(c)) == seq![(k@, v)] + lru_entries(*old(c)).drop_last()
        },
        !entry_keys(lru_entries(*old(c))).contains(k@) && lru_entries(*old(c)).len() < lru_cap(*old(c)) ==> {
            &&& r is None
            &&& lru_entries(*final(c)) == seq![(k@, v)] + lru_entries(*old(c))
        },
{
    c.push(k, v)
}

/// `LruCache::pop`: removes `k` and returns its value.
#[verifier::external_body]
pub(crate) fn lru_pop(c: &mut HandleCache, k: &Vec<u8>) -> (r: Option<u64>)
    requires
        lru_ok(*old(c)),
    ensures
        lru_ok(*final(c)),
        lru_cap(*final(c)) == lru_cap(*old(c)),
        !entry_keys(lru_entries(*old(c))).contains(k@) ==> r is None && lru_entries(*final(c)) == lru_entries(*old(c)),
        entry_keys(lru_entries(*old(c))).contains(k@) ==> {
            let i = entry_keys(lru_entries(*old(c))).index_of(k@);
            &&& r == Some(lru_entries(*old(c))[i].1)
            &&& lru_entries(*final(c)) == lru_entries(*old(c)).remove(i)
        },
{
    c.pop(k)
}

} // verus!
