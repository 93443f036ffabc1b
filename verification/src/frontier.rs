//! Trusted interface to the outside max-priority queue that backs the
//! best-first search.
//!
//! The queue stores search entries keyed on the entry itself, so to the
//! contracts it behaves as a finite set of entries.  An entry is a flat
//! record of plain integers: the four stock lanes, the four robot lanes,
//! the four-lane priority key, and the remaining time.  The priority key
//! is ordered lexicographically with the geode lane first, then obsidian,
//! clay and ore, which is exactly the ordering of a four-tuple of `u64`.

use vstd::prelude::*;

verus! {

/// One frontier entry: (stock lanes, robot lanes, priority key, remaining time).
/// Lane order inside the first two tuples is (ore, clay, obsidian, geode);
/// the priority key is (geode, obsidian, clay, ore) so that the tuple's
/// lexicographic order compares the geode lane first.
pub type Entry = ((u64, u64, u64, u64), (u64, u64, u64, u64), (u64, u64, u64, u64), u64);

/// The priority key of an entry.
pub type Prio = (u64, u64, u64, u64);

#[verifier::external_type_specification]
#[verifier::external_body]
#[verifier::reject_recursive_types(I)]
#[verifier::reject_recursive_types(P)]
#[verifier::reject_recursive_types(H)]
pub struct ExPriorityQueue<I, P, H>(priority_queue::PriorityQueue<I, P, H>);

/// The concrete queue type used by the search.
pub type Frontier = priority_queue::PriorityQueue<Entry, Prio, std::collections::hash_map::RandomState>;

/// The set of entries a queue currently holds.  The queue is a map from
/// entry to stored priority; since every push below stores the priority
/// taken from the entry itself, the map is determined by its key set.
pub uninterp spec fn frontier_set(q: Frontier) -> Set<Entry>;

/// Relies on `priority_queue::PriorityQueue::new`: it creates an empty queue.
#[verifier::external_body]
pub fn frontier_new() -> (q: Frontier)
    ensures
        frontier_set(q) == Set::<Entry>::empty(),
{
    priority_queue::PriorityQueue::new()
}

/// Relies on `priority_queue::PriorityQueue::push`: it inserts the item with
/// the given priority, and when an equal item is already stored it only
/// replaces that item's priority.  The priority stored here is the entry's
/// own priority key, so on the key set a push is exactly an insertion.
#[verifier::external_body]
pub fn frontier_push(q: &mut Frontier, e: Entry)
    ensures
        frontier_set(*final(q)) == frontier_set(*old(q)).insert(e),
{
    let p = e.2;
    q.push(e, p);
}

/// Relies on `priority_queue::PriorityQueue::pop`: it removes and returns a
/// stored entry (one with a greatest stored priority) and returns `None`
/// exactly when the queue is empty.  Which entry of several with equal
/// priority comes out is not specified, so the contract only says that the
/// returned entry was stored and is removed.
#[verifier::external_body]
pub fn frontier_pop(q: &mut Frontier) -> (r: Option<Entry>)
    ensures
        match r {
            Some(e) => frontier_set(*old(q)).contains(e) && frontier_set(*final(q))
                == frontier_set(*old(q)).remove(e),
            None => frontier_set(*old(q)) == Set::<Entry>::empty() && frontier_set(*final(q))
                == frontier_set(*old(q)),
        },
{
    q.pop().map(|(e, _)| e)
}

} // verus!
