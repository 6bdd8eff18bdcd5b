//! The canonical table: the deduplication-and-reclamation engine. It maps
//! each distinct value to exactly one reference-counted slot, hands out
//! slot identities, and erases a slot the instant its count reaches zero.

use vstd::prelude::*;
use crate::value::PoolValue;

verus! {

/// A reference-counted handle to one slot of one canonical table. Handles
/// are created by the table's lookup operations and by `clone_handle`, and
/// are consumed by `release`; each live handle accounts for one unit of its
/// slot's reference count.
pub struct Pooled {
    id: u64,
}

impl Pooled {
    /// The identity of the slot this handle references.
    pub closed spec fn id(self) -> u64 {
        self.id
    }

    /// The slot identity, for tier-1 (same-table) identity comparison.
    pub fn slot_id(&self) -> (r: u64)
        ensures
            r == self.id(),
    {
        self.id
    }
}

/// One table record: a canonical value, its hash under the table's hashing
/// strategy, its live reference count, and its stable identity.
struct Slot<T> {
    value: T,
    hash: u64,
    count: u64,
    id: u64,
}

/// The canonical table. Invariants (see `wf`): no two slots hold equal
/// values, every slot's count is at least one, and slot identities are
/// distinct, never reused, and always below `next_id`.
pub struct Table<T: PoolValue> {
    slots: Vec<Slot<T>>,
    next: u64,
    hasher: fnv::FnvBuildHasher,
}

impl<T: PoolValue> Table<T> {
    // ----- The table's mathematical model -----

    spec fn slot_has_value(self, i: int, v: T::V) -> bool {
        0 <= i < self.slots@.len() && self.slots@[i].value@ == v
    }

    spec fn slot_has_id(self, i: int, id: u64) -> bool {
        0 <= i < self.slots@.len() && self.slots@[i].id == id
    }

    /// How many slots the table holds.
    pub closed spec fn spec_len(self) -> nat {
        self.slots@.len()
    }

    /// The identity the next freshly inserted slot will receive.
    pub closed spec fn next_id(self) -> u64 {
        self.next
    }

    /// Whether a slot with this identity is present.
    pub closed spec fn has_id(self, id: u64) -> bool {
        exists|i: int| self.slot_has_id(i, id)
    }

    spec fn idx_of_id(self, id: u64) -> int {
        choose|i: int| self.slot_has_id(i, id)
    }

    /// The value held by the slot with this identity.
    pub closed spec fn value_at(self, id: u64) -> T::V {
        self.slots@[self.idx_of_id(id)].value@
    }

    /// The reference count of the slot with this identity.
    pub closed spec fn count_at(self, id: u64) -> u64 {
        self.slots@[self.idx_of_id(id)].count
    }

    /// Whether some slot holds a value equal to `v`.
    pub closed spec fn contains_value(self, v: T::V) -> bool {
        exists|i: int| self.slot_has_value(i, v)
    }

    spec fn idx_of_value(self, v: T::V) -> int {
        choose|i: int| self.slot_has_value(i, v)
    }

    /// The identity of the slot holding a value equal to `v`.
    pub closed spec fn id_of(self, v: T::V) -> u64 {
        self.slots@[self.idx_of_value(v)].id
    }

    /// The reference count of the slot holding `v`, or zero if no slot does.
    pub closed spec fn count_of(self, v: T::V) -> nat {
        if self.contains_value(v) {
            self.slots@[self.idx_of_value(v)].count as nat
        } else {
            0
        }
    }

    /// The table's invariant: values are never duplicated, identities are
    /// distinct and below `next_id`, every count is at least one, and every
    /// stored hash is the hash of its slot's value.
    pub closed spec fn wf(self) -> bool {
        &&& forall|i: int, j: int|
            #![trigger self.slots@[i], self.slots@[j]]
            0 <= i < self.slots@.len() && 0 <= j < self.slots@.len() && i != j ==> {
                &&& self.slots@[i].value@ != self.slots@[j].value@
                &&& self.slots@[i].id != self.slots@[j].id
            }
        &&& forall|i: int| #![trigger self.slots@[i]] 0 <= i < self.slots@.len() ==> {
            &&& self.slots@[i].count >= 1
            &&& self.slots@[i].hash == T::hash_spec(self.slots@[i].value@)
            &&& self.slots@[i].id < self.next
        }
    }

    /// Machine limits under which a lookup can always admit one more handle:
    /// the value's count and the next fresh identity stay within `u64`.
    pub open spec fn can_intern(self, v: T::V) -> bool {
        self.count_of(v) < u64::MAX && self.next_id() < u64::MAX
    }

    // ----- Bridging lemmas between indices and the model -----

    proof fn lemma_idx_of_id(self, i: int)
        requires
            self.wf(),
            0 <= i < self.slots@.len(),
        ensures
            self.has_id(self.slots@[i].id),
            self.idx_of_id(self.slots@[i].id) == i,
    {
        assert(self.slot_has_id(i, self.slots@[i].id));
        let j = self.idx_of_id(self.slots@[i].id);
        assert(self.slot_has_id(j, self.slots@[i].id));
        if j != i {
            assert(self.slots@[i].id != self.slots@[j].id);
        }
    }

    proof fn lemma_idx_of_value(self, i: int)
        requires
            self.wf(),
            0 <= i < self.slots@.len(),
        ensures
            self.contains_value(self.slots@[i].value@),
            self.idx_of_value(self.slots@[i].value@) == i,
    {
        assert(self.slot_has_value(i, self.slots@[i].value@));
        let j = self.idx_of_value(self.slots@[i].value@);
        assert(self.slot_has_value(j, self.slots@[i].value@));
        if j != i {
            assert(self.slots@[i].value@ != self.slots@[j].value@);
        }
    }

    /// Two tables whose slots hold the same values and identities, index by
    /// index, have the same containment model.
    proof fn lemma_model_match(a: Self, b: Self)
        requires
            a.wf(),
            b.wf(),
            a.slots@.len() == b.slots@.len(),
            forall|k: int| #![trigger a.slots@[k]] 0 <= k < a.slots@.len() ==> {
                &&& a.slots@[k].value@ == b.slots@[k].value@
                &&& a.slots@[k].id == b.slots@[k].id
            },
        ensures
            forall|w: T::V| a.contains_value(w) <==> b.contains_value(w),
            forall|w: T::V| a.contains_value(w) ==> #[trigger] a.idx_of_value(w) == b.idx_of_value(w),
            forall|w: T::V| a.contains_value(w) ==> #[trigger] a.id_of(w) == b.id_of(w),
            forall|id: u64| a.has_id(id) <==> b.has_id(id),
            forall|id: u64| a.has_id(id) ==> #[trigger] a.idx_of_id(id) == b.idx_of_id(id),
            forall|id: u64| a.has_id(id) ==> #[trigger] a.value_at(id) == b.value_at(id),
    {
        assert forall|w: T::V| a.contains_value(w) implies b.contains_value(w) by {
            let i = a.idx_of_value(w);
            assert(a.slot_has_value(i, w));
            assert(b.slot_has_value(i, w));
        }
        assert forall|w: T::V| b.contains_value(w) implies a.contains_value(w) by {
            let i = b.idx_of_value(w);
            assert(b.slot_has_value(i, w));
            assert(a.slot_has_value(i, w));
        }
        assert forall|w: T::V| a.contains_value(w) implies #[trigger] a.idx_of_value(w)
            == b.idx_of_value(w) && a.id_of(w) == b.id_of(w) by {
            let i = a.idx_of_value(w);
            assert(a.slot_has_value(i, w));
            assert(b.slot_has_value(i, w));
            b.lemma_idx_of_value(i);
        }
        assert forall|w: T::V| a.contains_value(w) implies #[trigger] a.id_of(w) == b.id_of(w) by {
            assert(a.idx_of_value(w) == b.idx_of_value(w));
        }
        assert forall|id: u64| a.has_id(id) implies b.has_id(id) by {
            let i = a.idx_of_id(id);
            assert(a.slot_has_id(i, id));
            assert(b.slot_has_id(i, id));
        }
        assert forall|id: u64| b.has_id(id) implies a.has_id(id) by {
            let i = b.idx_of_id(id);
            assert(b.slot_has_id(i, id));
            assert(a.slot_has_id(i, id));
        }
        assert forall|id: u64| a.has_id(id) implies #[trigger] a.idx_of_id(id) == b.idx_of_id(id)
            && a.value_at(id) == b.value_at(id) by {
            let i = a.idx_of_id(id);
            assert(a.slot_has_id(i, id));
            assert(b.slot_has_id(i, id));
            b.lemma_idx_of_id(i);
        }
        assert forall|id: u64| a.has_id(id) implies #[trigger] a.value_at(id) == b.value_at(id) by {
            assert(a.idx_of_id(id) == b.idx_of_id(id));
        }
    }

    // ----- Construction -----

    /// An empty table that will hash values with the given strategy and has
    /// room for `capacity` slots before its storage grows.
    pub fn with_capacity_and_hasher(capacity: usize, hasher: fnv::FnvBuildHasher) -> (r: Self)
        ensures
            r.wf(),
            r.spec_len() == 0,
            r.next_id() == 0,
            forall|w: T::V| !r.contains_value(w) && r.count_of(w) == 0,
            forall|id: u64| !r.has_id(id),
    {
        let r = Table { slots: Vec::with_capacity(capacity), next: 0u64, hasher };
        proof {
            assert forall|w: T::V| !r.contains_value(w) && r.count_of(w) == 0 by {
                if r.contains_value(w) {
                    let i = r.idx_of_value(w);
                    assert(r.slot_has_value(i, w));
                }
            }
            assert forall|id: u64| !r.has_id(id) by {
                if r.has_id(id) {
                    let i = r.idx_of_id(id);
                    assert(r.slot_has_id(i, id));
                }
            }
        }
        r
    }

    // ----- Lookup helpers -----

    fn find_value(&self, candidate: &T, hash: u64) -> (r: Option<usize>)
        requires
            self.wf(),
            hash == T::hash_spec(candidate@),
        ensures
            match r {
                Some(i) => self.slot_has_value(i as int, candidate@),
                None => !self.contains_value(candidate@),
            },
    {
        let n = self.slots.len();
        let mut i: usize = 0;
        while i < n
            invariant
                self.wf(),
                hash == T::hash_spec(candidate@),
                n == self.slots@.len(),
                i <= n,
                forall|j: int| 0 <= j < i ==> !self.slot_has_value(j, candidate@),
            decreases n - i,
        {
            if self.slots[i].hash == hash {
                if self.slots[i].value.eq_value(candidate) {
                    return Some(i);
                }
            }
            proof {
                assert(self.slots@[i as int].hash == T::hash_spec(self.slots@[i as int].value@));
                assert(!self.slot_has_value(i as int, candidate@));
            }
            i += 1;
        }
        proof {
            if self.contains_value(candidate@) {
                let j = self.idx_of_value(candidate@);
                assert(self.slot_has_value(j, candidate@));
            }
        }
        None
    }

    /// A hit: one more handle to the slot at index `i`.
    fn lookup_hit(&mut self, i: usize) -> (h: Pooled)
        requires
            old(self).wf(),
            i < old(self).slots@.len(),
            old(self).slots@[i as int].count < u64::MAX,
        ensures
            final(self).wf(),
            h.id() == old(self).slots@[i as int].id,
            final(self).spec_len() == old(self).spec_len(),
            final(self).next_id() == old(self).next_id(),
            forall|w: T::V| final(self).contains_value(w) <==> old(self).contains_value(w),
            forall|w: T::V|
                old(self).contains_value(w) ==> #[trigger] final(self).id_of(w) == old(self).id_of(w),
            forall|id: u64| final(self).has_id(id) <==> old(self).has_id(id),
            forall|id: u64|
                old(self).has_id(id) ==> #[trigger] final(self).value_at(id) == old(self).value_at(id),
            final(self).count_of(old(self).slots@[i as int].value@) == old(self).count_of(
                old(self).slots@[i as int].value@,
            ) + 1,
            forall|w: T::V|
                w != old(self).slots@[i as int].value@ ==> #[trigger] final(self).count_of(w) == old(
                    self,
                ).count_of(w),
            final(self).count_at(h.id()) == old(self).count_at(h.id()) + 1,
            forall|id: u64|
                id != h.id() && old(self).has_id(id) ==> #[trigger] final(self).count_at(id) == old(
                    self,
                ).count_at(id),
    {
        let ghost v = old(self).slots@[i as int].value@;
        let c = self.slots[i].count;
        self.slots[i].count = c + 1;
        let id = self.slots[i].id;
        proof {
            assert forall|k: int| 0 <= k < self.slots@.len() implies {
                &&& self.slots@[k].value@ == old(self).slots@[k].value@
                &&& self.slots@[k].id == old(self).slots@[k].id
                &&& self.slots@[k].hash == old(self).slots@[k].hash
                &&& (k != i ==> self.slots@[k].count == old(self).slots@[k].count)
            } by {}
            assert(self.wf());
            Self::lemma_model_match(*old(self), *self);
            old(self).lemma_idx_of_value(i as int);
            self.lemma_idx_of_value(i as int);
            old(self).lemma_idx_of_id(i as int);
            self.lemma_idx_of_id(i as int);
            assert forall|w: T::V|
                w != v && old(self).contains_value(w) implies #[trigger] self.count_of(w)
                == old(self).count_of(w) by {
                let k = old(self).idx_of_value(w);
                assert(old(self).slot_has_value(k, w));
                if k == i {
                    assert(w == v);
                }
            }
            assert forall|w: T::V| w != v && !old(self).contains_value(w) implies #[trigger] self
                .count_of(w) == old(self).count_of(w) by {}
            assert forall|id2: u64|
                id2 != old(self).slots@[i as int].id && old(self).has_id(id2) implies #[trigger] self
                .count_at(id2) == old(self).count_at(id2) by {
                let k = old(self).idx_of_id(id2);
                assert(old(self).slot_has_id(k, id2));
                if k == i {
                    assert(id2 == old(self).slots@[i as int].id);
                }
            }
        }
        Pooled { id }
    }

    /// A miss: install a new slot holding `value`, with count one and a
    /// fresh identity.
    fn insert_new(&mut self, value: T, hash: u64) -> (h: Pooled)
        requires
            old(self).wf(),
            !old(self).contains_value(value@),
            old(self).next_id() < u64::MAX,
            hash == T::hash_spec(value@),
        ensures
            final(self).wf(),
            h.id() == old(self).next_id(),
            final(self).next_id() == old(self).next_id() + 1,
            final(self).spec_len() == old(self).spec_len() + 1,
            final(self).contains_value(value@),
            final(self).id_of(value@) == h.id(),
            final(self).has_id(h.id()),
            final(self).value_at(h.id()) == value@,
            final(self).count_of(value@) == 1,
            final(self).count_at(h.id()) == 1,
            forall|w: T::V|
                w != value@ ==> (#[trigger] final(self).contains_value(w) <==> old(self).contains_value(
                    w,
                )),
            forall|w: T::V|
                w != value@ && old(self).contains_value(w) ==> #[trigger] final(self).id_of(w) == old(
                    self,
                ).id_of(w),
            forall|w: T::V| w != value@ ==> #[trigger] final(self).count_of(w) == old(self).count_of(w),
            forall|id: u64|
                id != h.id() ==> (#[trigger] final(self).has_id(id) <==> old(self).has_id(id)),
            forall|id: u64|
                id != h.id() && old(self).has_id(id) ==> #[trigger] final(self).value_at(id) == old(
                    self,
                ).value_at(id),
            forall|id: u64|
                id != h.id() && old(self).has_id(id) ==> #[trigger] final(self).count_at(id) == old(
                    self,
                ).count_at(id),
    {
        let ghost v = value@;
        let id = self.next;
        self.slots.push(Slot { value, hash, count: 1u64, id });
        self.next = id + 1;
        proof {
            let ghost n = old(self).slots@.len() as int;
            assert forall|k: int| 0 <= k < n implies {
                &&& self.slots@[k] == old(self).slots@[k]
            } by {}
            assert forall|k: int| 0 <= k < n implies old(self).slots@[k].value@ != v by {
                if old(self).slots@[k].value@ == v {
                    old(self).lemma_idx_of_value(k);
                }
            }
            assert(self.slots@[n].value@ == v);
            assert(self.wf());
            self.lemma_idx_of_value(n);
            self.lemma_idx_of_id(n);
            // frames
            assert forall|w: T::V|
                w != v implies (#[trigger] self.contains_value(w) <==> old(self).contains_value(
                w,
            )) by {
                if old(self).contains_value(w) {
                    let k = old(self).idx_of_value(w);
                    assert(old(self).slot_has_value(k, w));
                    assert(self.slot_has_value(k, w));
                }
                if self.contains_value(w) {
                    let k = self.idx_of_value(w);
                    assert(self.slot_has_value(k, w));
                    if k == n {
                        assert(w == v);
                    } else {
                        assert(old(self).slot_has_value(k, w));
                    }
                }
            }
            assert forall|w: T::V|
                w != v && old(self).contains_value(w) implies #[trigger] self.id_of(w)
                == old(self).id_of(w) by {
                let k = old(self).idx_of_value(w);
                assert(old(self).slot_has_value(k, w));
                self.lemma_idx_of_value(k);
                old(self).lemma_idx_of_value(k);
            }
            assert forall|w: T::V|
                w != v && old(self).contains_value(w) implies #[trigger] self.count_of(w)
                == old(self).count_of(w) by {
                let k = old(self).idx_of_value(w);
                assert(old(self).slot_has_value(k, w));
                self.lemma_idx_of_value(k);
                old(self).lemma_idx_of_value(k);
            }
            assert forall|id2: u64|
                id2 != id implies (#[trigger] self.has_id(id2) <==> old(self).has_id(id2)) by {
                if old(self).has_id(id2) {
                    let k = old(self).idx_of_id(id2);
                    assert(old(self).slot_has_id(k, id2));
                    assert(self.slot_has_id(k, id2));
                }
                if self.has_id(id2) {
                    let k = self.idx_of_id(id2);
                    assert(self.slot_has_id(k, id2));
                    if k != n {
                        assert(old(self).slot_has_id(k, id2));
                    }
                }
            }
            assert forall|id2: u64|
                id2 != id && old(self).has_id(id2) implies #[trigger] self.value_at(id2)
                == old(self).value_at(id2) by {
                let k = old(self).idx_of_id(id2);
                assert(old(self).slot_has_id(k, id2));
                self.lemma_idx_of_id(k);
                old(self).lemma_idx_of_id(k);
            }
            assert forall|id2: u64|
                id2 != id && old(self).has_id(id2) implies #[trigger] self.count_at(id2)
                == old(self).count_at(id2) by {
                let k = old(self).idx_of_id(id2);
                assert(old(self).slot_has_id(k, id2));
                self.lemma_idx_of_id(k);
                old(self).lemma_idx_of_id(k);
            }
        }
        Pooled { id }
    }

    /// Look up a value equal to `*candidate`; on a hit, share the existing
    /// slot (no owned copy is made), on a miss, clone the candidate into a
    /// fresh slot with count one and a fresh identity.
    pub fn lookup_or_insert_borrowed(&mut self, candidate: &T) -> (h: Pooled)
        requires
            old(self).wf(),
            old(self).can_intern(candidate@),
        ensures
            final(self).wf(),
            final(self).contains_value(candidate@),
            final(self).has_id(h.id()),
            h.id() == final(self).id_of(candidate@),
            final(self).value_at(h.id()) == candidate@,
            final(self).count_of(candidate@) == old(self).count_of(candidate@) + 1,
            final(self).count_at(h.id()) == final(self).count_of(candidate@),
            old(self).contains_value(candidate@) ==> {
                &&& h.id() == old(self).id_of(candidate@)
                &&& final(self).spec_len() == old(self).spec_len()
                &&& final(self).next_id() == old(self).next_id()
            },
            !old(self).contains_value(candidate@) ==> {
                &&& h.id() == old(self).next_id()
                &&& final(self).spec_len() == old(self).spec_len() + 1
                &&& final(self).next_id() == old(self).next_id() + 1
            },
            forall|w: T::V|
                w != candidate@ ==> (#[trigger] final(self).contains_value(w) <==> old(
                    self,
                ).contains_value(w)),
            forall|w: T::V|
                w != candidate@ && old(self).contains_value(w) ==> #[trigger] final(self).id_of(w) == old(
                    self,
                ).id_of(w),
            forall|w: T::V|
                w != candidate@ ==> #[trigger] final(self).count_of(w) == old(self).count_of(w),
            forall|id: u64|
                id != h.id() ==> (#[trigger] final(self).has_id(id) <==> old(self).has_id(id)),
            forall|id: u64|
                id != h.id() && old(self).has_id(id) ==> #[trigger] final(self).value_at(id) == old(
                    self,
                ).value_at(id),
            forall|id: u64|
                id != h.id() && old(self).has_id(id) ==> #[trigger] final(self).count_at(id) == old(
                    self,
                ).count_at(id),
    {
        let hash = candidate.hash_value(&self.hasher);
        match self.find_value(candidate, hash) {
            Some(i) => {
                proof {
                    old(self).lemma_idx_of_value(i as int);
                    old(self).lemma_idx_of_id(i as int);
                }
                let h = self.lookup_hit(i);
                proof {
                    self.lemma_idx_of_id(self.idx_of_id(h.id()));
                }
                h
            },
            None => {
                let owned = candidate.clone_value();
                self.insert_new(owned, hash)
            },
        }
    }

    /// Look up a value equal to `candidate`; on a hit, the redundant owned
    /// candidate is discarded and the existing slot shared, on a miss, the
    /// candidate itself becomes the new slot's canonical value.
    pub fn lookup_or_insert_owned(&mut self, candidate: T) -> (h: Pooled)
        requires
            old(self).wf(),
            old(self).can_intern(candidate@),
        ensures
            final(self).wf(),
            final(self).contains_value(candidate@),
            final(self).has_id(h.id()),
            h.id() == final(self).id_of(candidate@),
            final(self).value_at(h.id()) == candidate@,
            final(self).count_of(candidate@) == old(self).count_of(candidate@) + 1,
            final(self).count_at(h.id()) == final(self).count_of(candidate@),
            old(self).contains_value(candidate@) ==> {
                &&& h.id() == old(self).id_of(candidate@)
                &&& final(self).spec_len() == old(self).spec_len()
                &&& final(self).next_id() == old(self).next_id()
            },
            !old(self).contains_value(candidate@) ==> {
                &&& h.id() == old(self).next_id()
                &&& final(self).spec_len() == old(self).spec_len() + 1
                &&& final(self).next_id() == old(self).next_id() + 1
            },
            forall|w: T::V|
                w != candidate@ ==> (#[trigger] final(self).contains_value(w) <==> old(
                    self,
                ).contains_value(w)),
            forall|w: T::V|
                w != candidate@ && old(self).contains_value(w) ==> #[trigger] final(self).id_of(w) == old(
                    self,
                ).id_of(w),
            forall|w: T::V|
                w != candidate@ ==> #[trigger] final(self).count_of(w) == old(self).count_of(w),
            forall|id: u64|
                id != h.id() ==> (#[trigger] final(self).has_id(id) <==> old(self).has_id(id)),
            forall|id: u64|
                id != h.id() && old(self).has_id(id) ==> #[trigger] final(self).value_at(id) == old(
                    self,
                ).value_at(id),
            forall|id: u64|
                id != h.id() && old(self).has_id(id) ==> #[trigger] final(self).count_at(id) == old(
                    self,
                ).count_at(id),
    {
        let hash = candidate.hash_value(&self.hasher);
        match self.find_value(&candidate, hash) {
            Some(i) => {
                proof {
                    old(self).lemma_idx_of_value(i as int);
                    old(self).lemma_idx_of_id(i as int);
                }
                let h = self.lookup_hit(i);
                proof {
                    self.lemma_idx_of_id(self.idx_of_id(h.id()));
                }
                h
            },
            None => self.insert_new(candidate, hash),
        }
    }

    /// One more handle to the slot an existing handle references (the
    /// clone operation of a pooled handle).
    pub fn clone_handle(&mut self, handle: &Pooled) -> (r: Pooled)
        requires
            old(self).wf(),
            old(self).has_id(handle.id()),
            old(self).count_at(handle.id()) < u64::MAX,
        ensures
            final(self).wf(),
            r.id() == handle.id(),
            final(self).spec_len() == old(self).spec_len(),
            final(self).next_id() == old(self).next_id(),
            forall|w: T::V| final(self).contains_value(w) <==> old(self).contains_value(w),
            forall|w: T::V|
                old(self).contains_value(w) ==> #[trigger] final(self).id_of(w) == old(
                    self,
                ).id_of(w),
            forall|id: u64| final(self).has_id(id) <==> old(self).has_id(id),
            forall|id: u64|
                old(self).has_id(id) ==> #[trigger] final(self).value_at(id) == old(self).value_at(
                    id,
                ),
            final(self).count_at(handle.id()) == old(self).count_at(handle.id()) + 1,
            forall|id: u64|
                id != handle.id() && old(self).has_id(id) ==> #[trigger] final(self).count_at(id)
                    == old(self).count_at(id),
    {
        match self.find_id(handle.slot_id()) {
            Some(i) => {
                proof {
                    old(self).lemma_idx_of_id(i as int);
                }
                let r = self.lookup_hit(i);
                r
            },
            None => {
                proof {
                    assert(false);
                }
                Pooled { id: 0u64 }
            },
        }
    }

    /// Release one handle: decrement its slot's reference count, and erase
    /// the slot the moment the count reaches zero. Returns whether the slot
    /// was removed.
    pub fn release(&mut self, handle: Pooled) -> (removed: bool)
        requires
            old(self).wf(),
            old(self).has_id(handle.id()),
        ensures
            final(self).wf(),
            final(self).next_id() == old(self).next_id(),
            removed == (old(self).count_at(handle.id()) == 1),
            removed ==> {
                &&& !final(self).has_id(handle.id())
                &&& !final(self).contains_value(old(self).value_at(handle.id()))
                &&& final(self).spec_len() == old(self).spec_len() - 1
            },
            !removed ==> {
                &&& final(self).has_id(handle.id())
                &&& final(self).value_at(handle.id()) == old(self).value_at(handle.id())
                &&& final(self).count_at(handle.id()) == old(self).count_at(handle.id()) - 1
                &&& final(self).spec_len() == old(self).spec_len()
            },
            final(self).count_of(old(self).value_at(handle.id())) == old(self).count_of(
                old(self).value_at(handle.id()),
            ) - 1,
            forall|id: u64|
                id != handle.id() ==> (#[trigger] final(self).has_id(id) <==> old(self).has_id(
                    id,
                )),
            forall|id: u64|
                id != handle.id() && old(self).has_id(id) ==> #[trigger] final(self).value_at(id)
                    == old(self).value_at(id),
            forall|id: u64|
                id != handle.id() && old(self).has_id(id) ==> #[trigger] final(self).count_at(id)
                    == old(self).count_at(id),
            forall|w: T::V|
                w != old(self).value_at(handle.id()) ==> (#[trigger] final(self).contains_value(w)
                    <==> old(self).contains_value(w)),
            forall|w: T::V|
                w != old(self).value_at(handle.id()) && old(self).contains_value(w)
                    ==> #[trigger] final(self).id_of(w) == old(self).id_of(w),
            forall|w: T::V|
                w != old(self).value_at(handle.id()) ==> #[trigger] final(self).count_of(w) == old(
                    self,
                ).count_of(w),
    {
        let ghost hid = handle.id();
        match self.find_id(handle.slot_id()) {
            Some(i) => {
                proof {
                    old(self).lemma_idx_of_id(i as int);
                    old(self).lemma_idx_of_value(i as int);
                }
                let ghost rv = old(self).slots@[i as int].value@;
                let c = self.slots[i].count;
                if c == 1 {
                    let _slot = self.slots.swap_remove(i);
                    proof {
                        let ghost n = old(self).slots@.len() as int;
                        assert(self.slots@.len() == n - 1);
                        assert forall|k: int| 0 <= k < n - 1 implies #[trigger] self.slots@[k]
                            == (if k == i { old(self).slots@[n - 1] } else { old(self).slots@[k] }) by {}
                        assert(self.wf());
                        assert forall|id2: u64| self.has_id(id2) implies id2 != hid && old(
                            self,
                        ).has_id(id2) by {
                            let k = self.idx_of_id(id2);
                            assert(self.slot_has_id(k, id2));
                            let g = if k == i { n - 1 } else { k };
                            assert(old(self).slot_has_id(g, id2));
                            if id2 == hid {
                                assert(old(self).slots@[g].id == old(self).slots@[i as int].id);
                                assert(g != i);
                            }
                        }
                        assert forall|w: T::V| self.contains_value(w) implies w != rv && old(
                            self,
                        ).contains_value(w) by {
                            let k = self.idx_of_value(w);
                            assert(self.slot_has_value(k, w));
                            let g = if k == i { n - 1 } else { k };
                            assert(old(self).slot_has_value(g, w));
                            if w == rv {
                                assert(old(self).slots@[g].value@ == old(
                                    self,
                                ).slots@[i as int].value@);
                                assert(g != i);
                            }
                        }
                        assert forall|id2: u64|
                            id2 != hid && old(self).has_id(id2) implies #[trigger] self.has_id(
                            id2,
                        ) by {
                            let k = old(self).idx_of_id(id2);
                            assert(old(self).slot_has_id(k, id2));
                            assert(k != i);
                            if k == n - 1 {
                                assert(self.slot_has_id(i as int, id2));
                            } else {
                                assert(self.slot_has_id(k, id2));
                            }
                        }
                        assert forall|id2: u64|
                            id2 != hid && old(self).has_id(id2) implies #[trigger] self.value_at(
                            id2,
                        ) == old(self).value_at(id2) by {
                            let k = old(self).idx_of_id(id2);
                            assert(old(self).slot_has_id(k, id2));
                            assert(k != i);
                            old(self).lemma_idx_of_id(k);
                            if k == n - 1 {
                                assert(self.slot_has_id(i as int, id2));
                                self.lemma_idx_of_id(i as int);
                            } else {
                                assert(self.slot_has_id(k, id2));
                                self.lemma_idx_of_id(k);
                            }
                        }
                        assert forall|id2: u64|
                            id2 != hid && old(self).has_id(id2) implies #[trigger] self.count_at(
                            id2,
                        ) == old(self).count_at(id2) by {
                            let k = old(self).idx_of_id(id2);
                            assert(old(self).slot_has_id(k, id2));
                            assert(k != i);
                            old(self).lemma_idx_of_id(k);
                            if k == n - 1 {
                                assert(self.slot_has_id(i as int, id2));
                                self.lemma_idx_of_id(i as int);
                            } else {
                                assert(self.slot_has_id(k, id2));
                                self.lemma_idx_of_id(k);
                            }
                        }
                        assert forall|w: T::V|
                            w != rv && old(self).contains_value(w) implies #[trigger] self
                            .contains_value(w) by {
                            let k = old(self).idx_of_value(w);
                            assert(old(self).slot_has_value(k, w));
                            assert(k != i);
                            if k == n - 1 {
                                assert(self.slot_has_value(i as int, w));
                            } else {
                                assert(self.slot_has_value(k, w));
                            }
                        }
                        assert forall|w: T::V|
                            w != rv && old(self).contains_value(w) implies #[trigger] self.id_of(w)
                            == old(self).id_of(w) by {
                            let k = old(self).idx_of_value(w);
                            assert(old(self).slot_has_value(k, w));
                            assert(k != i);
                            old(self).lemma_idx_of_value(k);
                            if k == n - 1 {
                                assert(self.slot_has_value(i as int, w));
                                self.lemma_idx_of_value(i as int);
                            } else {
                                assert(self.slot_has_value(k, w));
                                self.lemma_idx_of_value(k);
                            }
                        }
                        assert forall|w: T::V|
                            w != rv && old(self).contains_value(w) implies #[trigger] self.count_of(
                            w,
                        ) == old(self).count_of(w) by {
                            let k = old(self).idx_of_value(w);
                            assert(old(self).slot_has_value(k, w));
                            assert(k != i);
                            old(self).lemma_idx_of_value(k);
                            if k == n - 1 {
                                assert(self.slot_has_value(i as int, w));
                                self.lemma_idx_of_value(i as int);
                            } else {
                                assert(self.slot_has_value(k, w));
                                self.lemma_idx_of_value(k);
                            }
                        }
                    }
                    true
                } else {
                    self.slots[i].count = c - 1;
                    proof {
                        assert forall|k: int| 0 <= k < self.slots@.len() implies {
                            &&& self.slots@[k].value@ == old(self).slots@[k].value@
                            &&& self.slots@[k].id == old(self).slots@[k].id
                            &&& self.slots@[k].hash == old(self).slots@[k].hash
                            &&& (k != i ==> self.slots@[k].count == old(self).slots@[k].count)
                        } by {}
                        assert(self.wf());
                        Self::lemma_model_match(*old(self), *self);
                        self.lemma_idx_of_value(i as int);
                        self.lemma_idx_of_id(i as int);
                        assert forall|w: T::V|
                            w != rv && old(self).contains_value(w) implies #[trigger] self.count_of(
                            w,
                        ) == old(self).count_of(w) by {
                            let k = old(self).idx_of_value(w);
                            assert(old(self).slot_has_value(k, w));
                            if k == i {
                                assert(w == rv);
                            }
                        }
                        assert forall|id2: u64|
                            id2 != hid && old(self).has_id(id2) implies #[trigger] self.count_at(
                            id2,
                        ) == old(self).count_at(id2) by {
                            let k = old(self).idx_of_id(id2);
                            assert(old(self).slot_has_id(k, id2));
                            if k == i {
                                assert(id2 == hid);
                            }
                        }
                    }
                    false
                }
            },
            None => {
                proof {
                    assert(false);
                }
                false
            },
        }
    }

    // ----- Observers -----

    /// How many canonical slots the table holds.
    pub fn len(&self) -> (r: usize)
        ensures
            r == self.spec_len(),
    {
        self.slots.len()
    }

    /// Whether the handle's slot is still present in this table.
    pub fn has_slot(&self, handle: &Pooled) -> (r: bool)
        requires
            self.wf(),
        ensures
            r == self.has_id(handle.id()),
    {
        match self.find_id(handle.slot_id()) {
            Some(_) => true,
            None => false,
        }
    }

    /// The handle's slot reference count, or zero if the slot is gone.
    pub fn count(&self, handle: &Pooled) -> (r: u64)
        requires
            self.wf(),
        ensures
            self.has_id(handle.id()) ==> r == self.count_at(handle.id()),
            !self.has_id(handle.id()) ==> r == 0,
    {
        match self.find_id(handle.slot_id()) {
            Some(i) => {
                proof {
                    self.lemma_idx_of_id(i as int);
                }
                self.slots[i].count
            },
            None => 0,
        }
    }

    /// Dereference a handle: read-only access to the canonical value.
    pub fn value(&self, handle: &Pooled) -> (r: &T)
        requires
            self.wf(),
            self.has_id(handle.id()),
        ensures
            r@ == self.value_at(handle.id()),
    {
        match self.find_id(handle.slot_id()) {
            Some(i) => {
                proof {
                    self.lemma_idx_of_id(i as int);
                }
                &self.slots[i].value
            },
            None => {
                proof {
                    assert(false);
                }
                vstd::pervasive::unreached()
            },
        }
    }

    /// Whether one more handle to a value equal to `*candidate` can be
    /// created within machine limits (counts and identities are 64-bit).
    pub fn can_admit(&self, candidate: &T) -> (r: bool)
        requires
            self.wf(),
        ensures
            r == self.can_intern(candidate@),
    {
        if self.next == u64::MAX {
            return false;
        }
        let hash = candidate.hash_value(&self.hasher);
        match self.find_value(candidate, hash) {
            Some(i) => {
                proof {
                    self.lemma_idx_of_value(i as int);
                }
                self.slots[i].count < u64::MAX
            },
            None => true,
        }
    }

    /// The hash of the handle's canonical value under the table's hashing
    /// strategy. It is a function of the value alone, so handles holding
    /// equal values hash alike even when they come from different tables:
    /// hashing is consistent with both tiers of the equality protocol.
    pub fn handle_hash(&self, handle: &Pooled) -> (r: u64)
        requires
            self.wf(),
            self.has_id(handle.id()),
        ensures
            r == T::hash_spec(self.value_at(handle.id())),
    {
        match self.find_id(handle.slot_id()) {
            Some(i) => {
                proof {
                    self.lemma_idx_of_id(i as int);
                }
                self.slots[i].hash
            },
            None => {
                proof {
                    assert(false);
                }
                vstd::pervasive::unreached()
            },
        }
    }

    /// Tier-1 equality: two handles into this one table reference equal
    /// values exactly when they reference the same slot, because the table
    /// never holds duplicate values. No value comparison is performed.
    pub fn handle_eq_same(&self, a: &Pooled, b: &Pooled) -> (r: bool)
        requires
            self.wf(),
            self.has_id(a.id()),
            self.has_id(b.id()),
        ensures
            r == (a.id() == b.id()),
            r == (self.value_at(a.id()) == self.value_at(b.id())),
    {
        let r = a.slot_id() == b.slot_id();
        proof {
            self.lemma_identity_matches_value(a.id(), b.id());
        }
        r
    }

    /// Tier-2 equality: handles from two distinct tables are compared by
    /// full value comparison; slot identity is meaningless across tables.
    pub fn handle_eq_cross(&self, a: &Pooled, other: &Table<T>, b: &Pooled) -> (r: bool)
        requires
            self.wf(),
            other.wf(),
            self.has_id(a.id()),
            other.has_id(b.id()),
        ensures
            r == (self.value_at(a.id()) == other.value_at(b.id())),
    {
        self.value(a).eq_value(other.value(b))
    }

    // ----- The laws the table obeys -----

    /// Within one table, slot identity and value equality coincide: handles
    /// reference the same slot exactly when they reference equal values, so
    /// tier-1 identity comparison never differs from full value comparison.
    pub proof fn lemma_identity_matches_value(self, id1: u64, id2: u64)
        requires
            self.wf(),
            self.has_id(id1),
            self.has_id(id2),
        ensures
            (id1 == id2) <==> (self.value_at(id1) == self.value_at(id2)),
    {
        let i = self.idx_of_id(id1);
        let j = self.idx_of_id(id2);
        assert(self.slot_has_id(i, id1));
        assert(self.slot_has_id(j, id2));
        if id1 == id2 {
            assert(i == j) by {
                if i != j {
                    assert(self.slots@[i].id != self.slots@[j].id);
                }
            }
        } else {
            assert(i != j);
            assert(self.slots@[i].value@ != self.slots@[j].value@);
        }
    }

    /// A slot is present exactly while its reference count is at least one:
    /// the count never rests at zero inside the table.
    pub proof fn lemma_presence_iff_count(self, v: T::V)
        requires
            self.wf(),
        ensures
            self.contains_value(v) <==> self.count_of(v) >= 1,
    {
        if self.contains_value(v) {
            let i = self.idx_of_value(v);
            assert(self.slot_has_value(i, v));
        }
    }

    /// Every live slot identity is below `next_id`, so an identity handed
    /// out by a fresh insert is distinct from every identity that was live
    /// before it: identity is never reused across a reclamation gap.
    pub proof fn lemma_live_ids_below_next(self, id: u64)
        requires
            self.wf(),
            self.has_id(id),
        ensures
            id < self.next_id(),
    {
        let i = self.idx_of_id(id);
        assert(self.slot_has_id(i, id));
    }

    fn find_id(&self, id: u64) -> (r: Option<usize>)
        requires
            self.wf(),
        ensures
            match r {
                Some(i) => self.slot_has_id(i as int, id),
                None => !self.has_id(id),
            },
    {
        let n = self.slots.len();
        let mut i: usize = 0;
        while i < n
            invariant
                self.wf(),
                n == self.slots@.len(),
                i <= n,
                forall|j: int| 0 <= j < i ==> !self.slot_has_id(j, id),
            decreases n - i,
        {
            if self.slots[i].id == id {
                return Some(i);
            }
            i += 1;
        }
        proof {
            if self.has_id(id) {
                let j = self.idx_of_id(id);
                assert(self.slot_has_id(j, id));
            }
        }
        None
    }
}

} // verus!
