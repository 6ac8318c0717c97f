//! The keyed priority queue that the candidate ledger is ordered by.
//!
//! The queue is the one of the crate `keyed_priority_queue`; this module
//! says of each of its operations what the ledger relies on.

use vstd::prelude::*;
use keyed_priority_queue::KeyedPriorityQueue;
use std::collections::hash_map::RandomState;
use std::hash::{BuildHasher, Hash};

verus! {

#[verifier::external_type_specification]
#[verifier::external_body]
#[verifier::reject_recursive_types(TKey)]
#[verifier::reject_recursive_types(TPriority)]
#[verifier::reject_recursive_types(S)]
pub struct ExKeyedPriorityQueue<TKey: Hash + Eq, TPriority: Ord, S: BuildHasher>(
    KeyedPriorityQueue<TKey, TPriority, S>,
);

/// A queue of candidates, each with a score as its priority.
pub type ScoreQueue = KeyedPriorityQueue<u64, i64, RandomState>;

/// The candidates that a queue holds, each with its priority.
pub uninterp spec fn queue_entries(q: ScoreQueue) -> Map<u64, i64>;

/// The candidate that stands first in a queue, with its priority: the one
/// that the queue shows when it is asked for its first, and that it hands
/// out when its first is taken. Which of several candidates of the
/// greatest priority stands first is the queue's own affair.
pub uninterp spec fn queue_top(q: ScoreQueue) -> Option<(u64, i64)>;

/// The entries of a queue that holds nothing.
pub open spec fn no_entries() -> Map<u64, i64> {
    Map::empty()
}

/// Whether `top` is a candidate of `entries` with the greatest priority.
pub open spec fn is_top(entries: Map<u64, i64>, top: (u64, i64)) -> bool {
    &&& entries.contains_key(top.0)
    &&& entries[top.0] == top.1
    &&& forall|k: u64| entries.contains_key(k) ==> #[trigger] entries[k] <= top.1
}

/// An empty queue: `KeyedPriorityQueue::new`.
#[verifier::external_body]
pub(crate) fn queue_new() -> (q: ScoreQueue)
    ensures
        queue_entries(q) == no_entries(),
{
    KeyedPriorityQueue::new()
}

/// `KeyedPriorityQueue::push`: the candidate is in the queue with the
/// priority given, whether it was there before or not.
#[verifier::external_body]
pub(crate) fn queue_push(q: &mut ScoreQueue, key: u64, priority: i64)
    ensures
        queue_entries(*final(q)) == queue_entries(*old(q)).insert(key, priority),
{
    q.push(key, priority);
}

/// `KeyedPriorityQueue::peek`: the first candidate of the queue, which is
/// one with the greatest priority, and that priority; nothing where the
/// queue is empty.
#[verifier::external_body]
pub(crate) fn queue_peek(q: &ScoreQueue) -> (res: Option<(u64, i64)>)
    ensures
        res == queue_top(*q),
        match res {
            Some(top) => is_top(queue_entries(*q), top),
            None => queue_entries(*q) == no_entries(),
        },
{
    q.peek().map(|(k, p)| (*k, *p))
}

/// `KeyedPriorityQueue::pop`: takes out the first candidate of the queue,
/// the one that `peek` shows, and hands it out with its priority; nothing
/// where the queue is empty.
#[verifier::external_body]
pub(crate) fn queue_pop(q: &mut ScoreQueue) -> (res: Option<(u64, i64)>)
    ensures
        res == queue_top(*old(q)),
        match res {
            Some(top) => is_top(queue_entries(*old(q)), top) && queue_entries(*final(q))
                == queue_entries(*old(q)).remove(top.0),
            None => queue_entries(*old(q)) == no_entries() && queue_entries(*final(q))
                == queue_entries(*old(q)),
        },
{
    q.pop()
}

/// `KeyedPriorityQueue::remove`: takes the candidate out, if it is in the
/// queue, and hands out the priority that it had.
#[verifier::external_body]
pub(crate) fn queue_remove(q: &mut ScoreQueue, key: u64) -> (res: Option<i64>)
    ensures
        queue_entries(*final(q)) == queue_entries(*old(q)).remove(key),
        match res {
            Some(p) => queue_entries(*old(q)).contains_key(key) && queue_entries(*old(q))[key]
                == p,
            None => !queue_entries(*old(q)).contains_key(key),
        },
{
    q.remove(&key)
}

/// `KeyedPriorityQueue::set_priority`: gives the candidate a new priority
/// and hands out the one that it had; a candidate that is not in the queue
/// is not put in, and nothing is handed out.
#[verifier::external_body]
pub(crate) fn queue_set_priority(q: &mut ScoreQueue, key: u64, priority: i64) -> (res: Option<i64>)
    ensures
        match res {
            Some(p) => queue_entries(*old(q)).contains_key(key) && queue_entries(*old(q))[key]
                == p && queue_entries(*final(q)) == queue_entries(*old(q)).insert(key, priority),
            None => !queue_entries(*old(q)).contains_key(key) && queue_entries(*final(q))
                == queue_entries(*old(q)),
        },
{
    q.set_priority(&key, priority).ok()
}

} // verus!
