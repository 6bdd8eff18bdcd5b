//! The pool front-ends: `SharedPool`, an explicitly constructed pool over
//! one canonical table, and `GlobalPool`, the distinct kind a process-wide
//! default pool carries. Pool kind is part of identity: a `SharedPool` never
//! equals a `GlobalPool`, whatever either holds.

use vstd::prelude::*;
use crate::table::{Pooled, Table};
use crate::value::{default_fnv_hasher, PoolValue};

verus! {

/// A pool of values in which at most one canonical copy of any given value
/// is live at a time. `get` and `get_from_owned` hand out reference-counted
/// handles to the canonical copy; `release` returns a handle's share and
/// reclaims the slot when the last share is gone.
pub struct SharedPool<T: PoolValue> {
    table: Table<T>,
}

impl<T: PoolValue> SharedPool<T> {
    /// The pool's invariant: its canonical table is well formed.
    pub closed spec fn wf(self) -> bool {
        self.table.wf()
    }

    /// Whether the pool holds a canonical copy of `v`.
    pub closed spec fn contains_value(self, v: T::V) -> bool {
        self.table.contains_value(v)
    }

    /// The slot identity of the canonical copy of `v`.
    pub closed spec fn id_of(self, v: T::V) -> u64 {
        self.table.id_of(v)
    }

    /// The reference count of the canonical copy of `v`, zero when absent.
    pub closed spec fn count_of(self, v: T::V) -> nat {
        self.table.count_of(v)
    }

    /// Whether a slot with this identity is present.
    pub closed spec fn has_id(self, id: u64) -> bool {
        self.table.has_id(id)
    }

    /// The value held by the slot with this identity.
    pub closed spec fn value_at(self, id: u64) -> T::V {
        self.table.value_at(id)
    }

    /// The reference count of the slot with this identity.
    pub closed spec fn count_at(self, id: u64) -> u64 {
        self.table.count_at(id)
    }

    /// How many canonical values the pool holds.
    pub closed spec fn spec_len(self) -> nat {
        self.table.spec_len()
    }

    /// The identity the next fresh slot will receive.
    pub closed spec fn next_id(self) -> u64 {
        self.table.next_id()
    }

    /// Machine limits under which one more handle to `v` can be created.
    pub open spec fn can_intern(self, v: T::V) -> bool {
        self.count_of(v) < u64::MAX && self.next_id() < u64::MAX
    }

    /// A new, empty pool hashing with the given strategy.
    pub fn with_hasher(hasher: fnv::FnvBuildHasher) -> (r: Self)
        ensures
            r.wf(),
            r.spec_len() == 0,
            r.next_id() == 0,
            forall|w: T::V| !r.contains_value(w) && r.count_of(w) == 0,
            forall|id: u64| !r.has_id(id),
    {
        Self::with_capacity_and_hasher(0, hasher)
    }

    /// A new, empty pool with room for `capacity` values before its storage
    /// grows, hashing with the given strategy.
    pub fn with_capacity_and_hasher(capacity: usize, hasher: fnv::FnvBuildHasher) -> (r: Self)
        ensures
            r.wf(),
            r.spec_len() == 0,
            r.next_id() == 0,
            forall|w: T::V| !r.contains_value(w) && r.count_of(w) == 0,
            forall|id: u64| !r.has_id(id),
    {
        SharedPool { table: Table::with_capacity_and_hasher(capacity, hasher) }
    }

    /// Return a handle to the canonical copy of `*borrowed`. On a hit the
    /// existing slot is shared and no owned copy is made; on a miss the
    /// candidate is cloned into a fresh slot with count one.
    ///
    /// While any handle to the first call's result is still held, a second
    /// call with an equal value returns the same slot.
    pub fn get(&mut self, borrowed: &T) -> (h: Pooled)
        requires
            old(self).wf(),
            old(self).can_intern(borrowed@),
        ensures
            final(self).wf(),
            final(self).contains_value(borrowed@),
            final(self).has_id(h.id()),
            h.id() == final(self).id_of(borrowed@),
            final(self).value_at(h.id()) == borrowed@,
            final(self).count_of(borrowed@) == old(self).count_of(borrowed@) + 1,
            final(self).count_at(h.id()) == final(self).count_of(borrowed@),
            old(self).contains_value(borrowed@) ==> {
                &&& h.id() == old(self).id_of(borrowed@)
                &&& final(self).spec_len() == old(self).spec_len()
                &&& final(self).next_id() == old(self).next_id()
            },
            !old(self).contains_value(borrowed@) ==> {
                &&& h.id() == old(self).next_id()
                &&& final(self).spec_len() == old(self).spec_len() + 1
                &&& final(self).next_id() == old(self).next_id() + 1
            },
            forall|w: T::V|
                w != borrowed@ ==> (#[trigger] final(self).contains_value(w) <==> old(
                    self,
                ).contains_value(w)),
            forall|w: T::V|
                w != borrowed@ && old(self).contains_value(w) ==> #[trigger] final(self).id_of(w)
                    == old(self).id_of(w),
            forall|w: T::V|
                w != borrowed@ ==> #[trigger] final(self).count_of(w) == old(self).count_of(w),
            forall|id: u64|
                id != h.id() ==> (#[trigger] final(self).has_id(id) <==> old(self).has_id(id)),
            forall|id: u64|
                id != h.id() && old(self).has_id(id) ==> #[trigger] final(self).value_at(id)
                    == old(self).value_at(id),
            forall|id: u64|
                id != h.id() && old(self).has_id(id) ==> #[trigger] final(self).count_at(id)
                    == old(self).count_at(id),
    {
        self.table.lookup_or_insert_borrowed(borrowed)
    }

    /// Return a handle to the canonical copy of `owned`. On a hit the
    /// redundant owned value is discarded and the existing slot shared; on
    /// a miss the value itself becomes the canonical copy, without another
    /// allocation.
    ///
    /// While any handle to the first call's result is still held, a second
    /// call with an equal value returns the same slot.
    pub fn get_from_owned(&mut self, owned: T) -> (h: Pooled)
        requires
            old(self).wf(),
            old(self).can_intern(owned@),
        ensures
            final(self).wf(),
            final(self).contains_value(owned@),
            final(self).has_id(h.id()),
            h.id() == final(self).id_of(owned@),
            final(self).value_at(h.id()) == owned@,
            final(self).count_of(owned@) == old(self).count_of(owned@) + 1,
            final(self).count_at(h.id()) == final(self).count_of(owned@),
            old(self).contains_value(owned@) ==> {
                &&& h.id() == old(self).id_of(owned@)
                &&& final(self).spec_len() == old(self).spec_len()
                &&& final(self).next_id() == old(self).next_id()
            },
            !old(self).contains_value(owned@) ==> {
                &&& h.id() == old(self).next_id()
                &&& final(self).spec_len() == old(self).spec_len() + 1
                &&& final(self).next_id() == old(self).next_id() + 1
            },
            forall|w: T::V|
                w != owned@ ==> (#[trigger] final(self).contains_value(w) <==> old(
                    self,
                ).contains_value(w)),
            forall|w: T::V|
                w != owned@ && old(self).contains_value(w) ==> #[trigger] final(self).id_of(w)
                    == old(self).id_of(w),
            forall|w: T::V|
                w != owned@ ==> #[trigger] final(self).count_of(w) == old(self).count_of(w),
            forall|id: u64|
                id != h.id() ==> (#[trigger] final(self).has_id(id) <==> old(self).has_id(id)),
            forall|id: u64|
                id != h.id() && old(self).has_id(id) ==> #[trigger] final(self).value_at(id)
                    == old(self).value_at(id),
            forall|id: u64|
                id != h.id() && old(self).has_id(id) ==> #[trigger] final(self).count_at(id)
                    == old(self).count_at(id),
    {
        self.table.lookup_or_insert_owned(owned)
    }

    /// Clone a handle: one more share of the same slot.
    pub fn clone_handle(&mut self, handle: &Pooled) -> (r: Pooled)
        requires
            old(self).wf(),
            old(self).has_id(handle.id()),
            old(self).count_at(handle.id()) < u64::MAX,
        ensures
            final(self).wf(),
            r.id() == handle.id(),
            final(self).spec_len() == old(self).spec_len(),
            final(self).next_id() == old(self).next_id(),
            forall|w: T::V| final(self).contains_value(w) <==> old(self).contains_value(w),
            forall|w: T::V|
                old(self).contains_value(w) ==> #[trigger] final(self).id_of(w) == old(
                    self,
                ).id_of(w),
            forall|id: u64| final(self).has_id(id) <==> old(self).has_id(id),
            forall|id: u64|
                old(self).has_id(id) ==> #[trigger] final(self).value_at(id) == old(self).value_at(
                    id,
                ),
            final(self).count_at(handle.id()) == old(self).count_at(handle.id()) + 1,
            forall|id: u64|
                id != handle.id() && old(self).has_id(id) ==> #[trigger] final(self).count_at(id)
                    == old(self).count_at(id),
    {
        self.table.clone_handle(handle)
    }

    /// Release a handle: decrement its slot's reference count, and remove
    /// the slot the instant the count reaches zero. Returns whether the
    /// slot was removed.
    pub fn release(&mut self, handle: Pooled) -> (removed: bool)
        requires
            old(self).wf(),
            old(self).has_id(handle.id()),
        ensures
            final(self).wf(),
            final(self).next_id() == old(self).next_id(),
            removed == (old(self).count_at(handle.id()) == 1),
            removed ==> {
                &&& !final(self).has_id(handle.id())
                &&& !final(self).contains_value(old(self).value_at(handle.id()))
                &&& final(self).spec_len() == old(self).spec_len() - 1
            },
            !removed ==> {
                &&& final(self).has_id(handle.id())
                &&& final(self).value_at(handle.id()) == old(self).value_at(handle.id())
                &&& final(self).count_at(handle.id()) == old(self).count_at(handle.id()) - 1
                &&& final(self).spec_len() == old(self).spec_len()
            },
            final(self).count_of(old(self).value_at(handle.id())) == old(self).count_of(
                old(self).value_at(handle.id()),
            ) - 1,
            forall|id: u64|
                id != handle.id() ==> (#[trigger] final(self).has_id(id) <==> old(self).has_id(
                    id,
                )),
            forall|id: u64|
                id != handle.id() && old(self).has_id(id) ==> #[trigger] final(self).value_at(id)
                    == old(self).value_at(id),
            forall|id: u64|
                id != handle.id() && old(self).has_id(id) ==> #[trigger] final(self).count_at(id)
                    == old(self).count_at(id),
            forall|w: T::V|
                w != old(self).value_at(handle.id()) ==> (#[trigger] final(self).contains_value(w)
                    <==> old(self).contains_value(w)),
            forall|w: T::V|
                w != old(self).value_at(handle.id()) ==> #[trigger] final(self).count_of(w) == old(
                    self,
                ).count_of(w),
    {
        self.table.release(handle)
    }

    /// How many canonical values the pool holds.
    pub fn len(&self) -> (r: usize)
        ensures
            r == self.spec_len(),
    {
        self.table.len()
    }

    /// Whether the handle's slot is still present in this pool.
    pub fn has_slot(&self, handle: &Pooled) -> (r: bool)
        requires
            self.wf(),
        ensures
            r == self.has_id(handle.id()),
    {
        self.table.has_slot(handle)
    }

    /// The handle's slot reference count, or zero if the slot is gone.
    pub fn count(&self, handle: &Pooled) -> (r: u64)
        requires
            self.wf(),
        ensures
            self.has_id(handle.id()) ==> r == self.count_at(handle.id()),
            !self.has_id(handle.id()) ==> r == 0,
    {
        self.table.count(handle)
    }

    /// Dereference a handle: read-only access to its canonical value.
    pub fn value(&self, handle: &Pooled) -> (r: &T)
        requires
            self.wf(),
            self.has_id(handle.id()),
        ensures
            r@ == self.value_at(handle.id()),
    {
        self.table.value(handle)
    }

    /// Whether one more handle to a value equal to `*candidate` can be
    /// created within machine limits.
    pub fn can_admit(&self, candidate: &T) -> (r: bool)
        requires
            self.wf(),
        ensures
            r == self.can_intern(candidate@),
    {
        self.table.can_admit(candidate)
    }

    /// The hash of the handle's canonical value: a function of the value
    /// alone, so handles holding equal values hash alike even across
    /// distinct pools, consistent with both tiers of the equality protocol.
    pub fn handle_hash(&self, handle: &Pooled) -> (r: u64)
        requires
            self.wf(),
            self.has_id(handle.id()),
        ensures
            r == T::hash_spec(self.value_at(handle.id())),
    {
        self.table.handle_hash(handle)
    }

    /// Tier-1 equality, for two handles of this one pool: compares slot
    /// identity only, which the no-duplication invariant makes equivalent
    /// to full value comparison. No value comparison is performed.
    pub fn handle_eq_same(&self, a: &Pooled, b: &Pooled) -> (r: bool)
        requires
            self.wf(),
            self.has_id(a.id()),
            self.has_id(b.id()),
        ensures
            r == (a.id() == b.id()),
            r == (self.value_at(a.id()) == self.value_at(b.id())),
    {
        self.table.handle_eq_same(a, b)
    }

    /// Tier-2 equality, for handles of two distinct pools: slot identity is
    /// meaningless across tables, so the values are fully compared.
    pub fn handle_eq_cross(&self, a: &Pooled, other: &SharedPool<T>, b: &Pooled) -> (r: bool)
        requires
            self.wf(),
            other.wf(),
            self.has_id(a.id()),
            other.has_id(b.id()),
        ensures
            r == (self.value_at(a.id()) == other.value_at(b.id())),
    {
        self.table.handle_eq_cross(a, &other.table, b)
    }

    /// Within one pool, slot identity and value equality coincide; see the
    /// table's law of the same name.
    pub proof fn lemma_identity_matches_value(self, id1: u64, id2: u64)
        requires
            self.wf(),
            self.has_id(id1),
            self.has_id(id2),
        ensures
            (id1 == id2) <==> (self.value_at(id1) == self.value_at(id2)),
    {
        self.table.lemma_identity_matches_value(id1, id2);
    }

    /// A canonical copy is present exactly while its count is at least one.
    pub proof fn lemma_presence_iff_count(self, v: T::V)
        requires
            self.wf(),
        ensures
            self.contains_value(v) <==> self.count_of(v) >= 1,
    {
        self.table.lemma_presence_iff_count(v);
    }

    /// Live slot identities sit below `next_id`, so identity is never
    /// reused after a reclamation gap: a later equal value gets a fresh
    /// slot with a distinct identity.
    pub proof fn lemma_live_ids_below_next(self, id: u64)
        requires
            self.wf(),
            self.has_id(id),
        ensures
            id < self.next_id(),
    {
        self.table.lemma_live_ids_below_next(id);
    }
}

impl<T: PoolValue> Default for SharedPool<T> {
    /// An empty pool with the default (FNV) hashing strategy.
    fn default() -> (r: Self)
        ensures
            r.wf(),
            r.spec_len() == 0,
            r.next_id() == 0,
            forall|w: T::V| !r.contains_value(w) && r.count_of(w) == 0,
            forall|id: u64| !r.has_id(id),
    {
        Self::with_hasher(default_fnv_hasher())
    }
}

/// The distinct kind of the process-wide default pool: the same canonical
/// table shape as a `SharedPool`, but never identity-equal to one. The
/// process-wide singleton itself lives outside this library; this type is
/// the pool it wraps.
pub struct GlobalPool<T: PoolValue> {
    pool: SharedPool<T>,
}

impl<T: PoolValue> GlobalPool<T> {
    /// The pool's invariant.
    pub closed spec fn wf(self) -> bool {
        self.pool.wf()
    }

    /// The inner pool's model, for contracts that relate the two kinds.
    pub closed spec fn inner(self) -> SharedPool<T> {
        self.pool
    }

    /// A new, empty default-kind pool.
    pub fn new(hasher: fnv::FnvBuildHasher) -> (r: Self)
        ensures
            r.wf(),
            r.inner().spec_len() == 0,
            forall|w: T::V| !r.inner().contains_value(w),
    {
        GlobalPool { pool: SharedPool::with_hasher(hasher) }
    }

    /// Return a handle to the canonical copy of `*borrowed` in the
    /// default-kind pool; the table behaves exactly as a `SharedPool`'s.
    pub fn get(&mut self, borrowed: &T) -> (h: Pooled)
        requires
            old(self).wf(),
            old(self).inner().can_intern(borrowed@),
        ensures
            final(self).wf(),
            final(self).inner().contains_value(borrowed@),
            final(self).inner().has_id(h.id()),
            final(self).inner().value_at(h.id()) == borrowed@,
    {
        self.pool.get(borrowed)
    }

    /// Return a handle to the canonical copy of `owned` in the
    /// default-kind pool; a redundant owned value is discarded on a hit.
    pub fn get_from_owned(&mut self, owned: T) -> (h: Pooled)
        requires
            old(self).wf(),
            old(self).inner().can_intern(owned@),
        ensures
            final(self).wf(),
            final(self).inner().contains_value(owned@),
            final(self).inner().has_id(h.id()),
            final(self).inner().value_at(h.id()) == owned@,
    {
        self.pool.get_from_owned(owned)
    }

    /// Dereference a handle of the default-kind pool.
    pub fn value(&self, handle: &Pooled) -> (r: &T)
        requires
            self.wf(),
            self.inner().has_id(handle.id()),
        ensures
            r@ == self.inner().value_at(handle.id()),
    {
        self.pool.value(handle)
    }

    /// Release a handle of the default-kind pool.
    pub fn release(&mut self, handle: Pooled) -> (removed: bool)
        requires
            old(self).wf(),
            old(self).inner().has_id(handle.id()),
        ensures
            final(self).wf(),
            removed == (old(self).inner().count_at(handle.id()) == 1),
    {
        self.pool.release(handle)
    }

    /// Tier-2 equality across pool kinds: a default-kind handle and a
    /// shared-pool handle are compared by full value comparison only.
    pub fn handle_eq_cross(&self, a: &Pooled, other: &SharedPool<T>, b: &Pooled) -> (r: bool)
        requires
            self.wf(),
            other.wf(),
            self.inner().has_id(a.id()),
            other.has_id(b.id()),
        ensures
            r == (self.inner().value_at(a.id()) == other.value_at(b.id())),
    {
        self.pool.handle_eq_cross(a, other, b)
    }
}

impl<T: PoolValue> PartialEq<GlobalPool<T>> for SharedPool<T> {
    /// Pool kind is part of identity: an explicitly constructed pool never
    /// equals the process-wide default kind, whatever either holds.
    fn eq(&self, _other: &GlobalPool<T>) -> bool {
        false
    }
}

impl<T: PoolValue> vstd::std_specs::cmp::PartialEqSpecImpl<GlobalPool<T>> for SharedPool<T> {
    open spec fn obeys_eq_spec() -> bool {
        true
    }

    open spec fn eq_spec(&self, _other: &GlobalPool<T>) -> bool {
        false
    }
}

impl<T: PoolValue> PartialEq<SharedPool<T>> for GlobalPool<T> {
    /// Pool kind is part of identity: the process-wide default kind never
    /// equals an explicitly constructed pool, whatever either holds.
    fn eq(&self, _other: &SharedPool<T>) -> bool {
        false
    }
}

impl<T: PoolValue> vstd::std_specs::cmp::PartialEqSpecImpl<SharedPool<T>> for GlobalPool<T> {
    open spec fn obeys_eq_spec() -> bool {
        true
    }

    open spec fn eq_spec(&self, _other: &SharedPool<T>) -> bool {
        false
    }
}

} // verus!
