//! Trusted interface to the `priority_queue` crate, for queues of peer
//! indices keyed by integer scores.

use vstd::prelude::*;
use priority_queue::PriorityQueue;

verus! {

#[verifier::external_type_specification]
#[verifier::external_body]
#[verifier::reject_recursive_types(I)]
#[verifier::reject_recursive_types(P)]
#[verifier::reject_recursive_types(H)]
pub struct ExPriorityQueue<I, P, H>(PriorityQueue<I, P, H>);

/// A queue of peer indices, each with its score as priority.
pub type PeerQueue = PriorityQueue<u64, u64>;

/// The contents of a queue: each item with its priority.
pub uninterp spec fn pq_contents(q: PeerQueue) -> Map<u64, u64>;

/// `PriorityQueue::new`: an empty queue.
#[verifier::external_body]
pub(crate) fn pq_new() -> (r: PeerQueue)
    ensures
        pq_contents(r).dom() == Set::<u64>::empty(),
{
    PriorityQueue::new()
}

/// `PriorityQueue::push`: sets the priority of `item` (inserting it when
/// absent) and returns its previous priority.
#[verifier::external_body]
pub(crate) fn pq_push(q: &mut PeerQueue, item: u64, priority: u64) -> (r: Option<u64>)
    ensures
        pq_contents(*final(q)) == pq_contents(*old(q)).insert(item, priority),
        r == (if pq_contents(*old(q)).contains_key(item) {
            Some(pq_contents(*old(q))[item])
        } else {
            None::<u64>
        }),
{
    q.push(item, priority)
}

/// `PriorityQueue::change_priority`: sets the priority of `item` when it is
/// present (returning the previous one) and leaves the queue as it is when not.
#[verifier::external_body]
pub(crate) fn pq_change_priority(q: &mut PeerQueue, item: u64, priority: u64) -> (r: Option<u64>)
    ensures
        pq_contents(*old(q)).contains_key(item) ==> pq_contents(*final(q)) == pq_contents(*old(q)).insert(item, priority)
            && r == Some(pq_contents(*old(q))[item]),
        !pq_contents(*old(q)).contains_key(item) ==> pq_contents(*final(q)) == pq_contents(*old(q)) && r is None,
{
    q.change_priority(&item, priority)
}

/// `PriorityQueue::pop`: removes and returns an item of greatest priority,
/// `None` when the queue is empty. Among items of equal priority, which one
/// comes out is not stated.
#[verifier::external_body]
pub(crate) fn pq_pop(q: &mut PeerQueue) -> (r: Option<(u64, u64)>)
    ensures
        r is None ==> pq_contents(*old(q)).dom() == Set::<u64>::empty()
            && pq_contents(*final(q)) == pq_contents(*old(q)),
        r matches Some((i, p)) ==> {
            &&& pq_contents(*old(q)).contains_key(i)
            &&& pq_contents(*old(q))[i] == p
            &&& forall|j: u64| pq_contents(*old(q)).contains_key(j) ==> pq_contents(*old(q))[j] <= p
            &&& pq_contents(*final(q)) == pq_contents(*old(q)).remove(i)
        },
{
    q.pop()
}

/// `PriorityQueue::clone`: a queue with the same contents.
#[verifier::external_body]
pub(crate) fn pq_clone(q: &PeerQueue) -> (r: PeerQueue)
    ensures
        pq_contents(r) == pq_contents(*q),
{
    q.clone()
}

/// `PriorityQueue::into_iter`, keeping the items: each item of the queue
/// once, in an order that the queue's hashing decides and is not stated.
#[verifier::external_body]
pub(crate) fn pq_into_items(q: PeerQueue) -> (r: Vec<u64>)
    ensures
        r@.no_duplicates(),
        r@.to_set() == pq_contents(q).dom(),
{
    q.into_iter().map(|(item, _)| item).collect()
}

} // verus!
