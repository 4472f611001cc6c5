//! Trusted interface to the outside priority queue that the search keeps its
//! frontier in. Items are packed cell keys; priorities are inverted cost
//! pairs, so that the queue's greatest priority is the least search cost.

use vstd::prelude::*;
use priority_queue::PriorityQueue;

verus! {

#[verifier::external_type_specification]
#[verifier::external_body]
#[verifier::reject_recursive_types(I)]
#[verifier::reject_recursive_types(P)]
#[verifier::reject_recursive_types(H)]
pub struct ExPriorityQueue<I, P, H>(PriorityQueue<I, P, H>);

/// A queue priority: an inverted cost pair.
pub type Prio = (usize, usize);

/// The frontier of the search, held in the outside priority queue.
pub type Frontier = PriorityQueue<u64, Prio>;

/// What the queue holds: each item mapped to its current priority.
pub uninterp spec fn pq_contents(q: Frontier) -> Map<u64, Prio>;

/// The contents of a queue that holds nothing.
pub open spec fn pq_empty() -> Map<u64, Prio> {
    Map::empty()
}

/// The order `Ord` of std gives pairs: lexicographic, first component first.
pub open spec fn pair_le(a: Prio, b: Prio) -> bool {
    a.0 < b.0 || (a.0 == b.0 && a.1 <= b.1)
}

/// Relies on priority_queue::PriorityQueue::new: creates an empty queue.
#[verifier::external_body]
pub(crate) fn pq_new() -> (r: Frontier)
    ensures
        pq_contents(r) == pq_empty(),
{
    PriorityQueue::new()
}

/// Relies on priority_queue::PriorityQueue::push: inserts the item, or, if an
/// equal item is already in the queue, replaces that item's priority.
#[verifier::external_body]
pub(crate) fn pq_push(q: &mut Frontier, item: u64, prio: Prio)
    ensures
        pq_contents(*final(q)) == pq_contents(*old(q)).insert(item, prio),
{
    q.push(item, prio);
}

/// Relies on priority_queue::PriorityQueue::pop: removes and returns an item
/// whose priority is greatest under `Ord`, or `None` on an empty queue.
#[verifier::external_body]
pub(crate) fn pq_pop(q: &mut Frontier) -> (r: Option<(u64, Prio)>)
    ensures
        (match r {
            None => pq_contents(*old(q)) == pq_empty() && pq_contents(*final(q)) == pq_contents(
                *old(q),
            ),
            Some((k, p)) => pq_contents(*old(q)).contains_key(k) && pq_contents(*old(q))[k] == p
                && pq_contents(*final(q)) == pq_contents(*old(q)).remove(k) && forall|k2: u64|
                pq_contents(*old(q)).contains_key(k2) ==> pair_le(
                    #[trigger] pq_contents(*old(q))[k2],
                    p,
                ),
        }),
{
    q.pop()
}

} // verus!
