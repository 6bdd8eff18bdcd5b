//! The reference-count law: how a slot's count evolves over an arbitrary
//! interleaving of handle creations and releases.
//!
//! Each table operation pins its own effect exactly: a lookup or a handle
//! clone raises the referenced slot's count by one, a release lowers it by
//! one, and the slot is removed the instant the count reaches zero. The
//! lemma below closes the argument over whole histories: however creations
//! and releases interleave, the resulting count is their difference, so the
//! count reaches zero — and the slot is removed — exactly when the releases
//! balance the creations.

use vstd::prelude::*;

verus! {

/// The slot's reference count after a history of events, starting from
/// zero; `true` is a handle creation (an initial lookup or a handle clone),
/// `false` a release.
pub open spec fn net_count(events: Seq<bool>) -> int
    decreases events.len(),
{
    if events.len() == 0 {
        0
    } else {
        net_count(events.drop_last()) + (if events.last() {
            1int
        } else {
            -1int
        })
    }
}

/// How many events of a history are handle creations.
pub open spec fn creations(events: Seq<bool>) -> int
    decreases events.len(),
{
    if events.len() == 0 {
        0
    } else {
        creations(events.drop_last()) + (if events.last() {
            1int
        } else {
            0int
        })
    }
}

/// How many events of a history are releases.
pub open spec fn releases(events: Seq<bool>) -> int
    decreases events.len(),
{
    if events.len() == 0 {
        0
    } else {
        releases(events.drop_last()) + (if events.last() {
            0int
        } else {
            1int
        })
    }
}

/// Refcount correctness over any interleaving: for every history of handle
/// creations and releases against one slot, in whatever order they landed,
/// the resulting count is the number of creations minus the number of
/// releases. In particular the count is zero — and the table removes the
/// slot — exactly when the releases balance the creations.
pub proof fn lemma_refcount_balance(events: Seq<bool>)
    ensures
        net_count(events) == creations(events) - releases(events),
        net_count(events) == 0 <==> creations(events) == releases(events),
    decreases events.len(),
{
    if events.len() > 0 {
        lemma_refcount_balance(events.drop_last());
    }
}

} // verus!
