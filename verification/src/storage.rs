use vstd::prelude::*;

use crate::entity::{Entity, EntityDirect};
use crate::index::{TrimmedIndex, MAX_DATA_CAPACITY};
use crate::iter::{EcsStepDestroy, EcsWalk};
use crate::slot::{free_code, fresh_free_slot, Slot, SlotIndex, FREE_LIST_END};
use crate::version::{VersionArchetype, VERSION_START};

verus! {

/// The dense storage of one archetype: every entity's components, packed
/// contiguously, addressed through a sparse array of generational slots.
///
/// Live slots point to a dense position; free slots form a linked free list
/// whose head is `free_head`. Removing an entity swaps the last dense entry
/// into its place and releases its slot, which advances the slot's version so
/// that every old handle to it stops resolving.
#[derive(Clone)]
pub struct Storage<C, const A: u8> {
    version: VersionArchetype,
    len: usize,
    capacity: usize,
    free_head: SlotIndex,
    slots: Vec<Slot>,
    entities: Vec<Entity<A>>,
    data: Vec<C>,
    created: Vec<Entity<A>>,
    destroyed: Vec<Entity<A>>,
    free_list: Ghost<Seq<u32>>,
}

/// The sequence `s` with position `i` replaced by its last element and the
/// last element dropped, which is what a swap-remove leaves.
pub open spec fn swap_removed<T>(s: Seq<T>, i: int) -> Seq<T> {
    s.update(i, s.last()).drop_last()
}

impl<C, const A: u8> Storage<C, A> {
    // ---- the model ----------------------------------------------------------

    spec fn slot_raw(&self, s: int) -> u32 {
        self.slots@[s].index.raw()
    }

    spec fn slot_free(&self, s: int) -> bool {
        self.slots@[s].index.spec_is_free()
    }

    spec fn slot_version(&self, s: int) -> u32 {
        self.slots@[s].version@
    }

    /// Whether the handle points to a live slot with its own version.
    spec fn resolves(&self, e: Entity<A>) -> bool {
        &&& e.spec_well_typed()
        &&& e.spec_index() < self.slots@.len()
        &&& !self.slot_free(e.spec_index() as int)
        &&& self.slot_version(e.spec_index() as int) == e.spec_version()
    }

    /// The dense position of a handle's data.
    pub closed spec fn spec_position(&self, e: Entity<A>) -> int {
        self.slot_raw(e.spec_index() as int) as int
    }

    /// The entities stored, in dense order (the order of iteration).
    pub closed spec fn spec_entities(&self) -> Seq<Entity<A>> {
        self.entities@
    }

    /// The components stored, in dense order.
    pub closed spec fn spec_data(&self) -> Seq<C> {
        self.data@
    }

    /// The entities created since the events were last cleared, in order.
    pub closed spec fn spec_created(&self) -> Seq<Entity<A>> {
        self.created@
    }

    /// The entities destroyed since the events were last cleared, in order.
    pub closed spec fn spec_destroyed(&self) -> Seq<Entity<A>> {
        self.destroyed@
    }

    /// How many entities this storage can hold before it must grow.
    pub closed spec fn spec_capacity(&self) -> nat {
        self.capacity as nat
    }

    /// The overall version of the storage, advanced on every removal.
    pub closed spec fn spec_version(&self) -> u32 {
        self.version@
    }

    /// A handle that this storage issued once and has since destroyed: its
    /// slot exists and has moved on to a newer version.
    pub closed spec fn spec_stale(&self, e: Entity<A>) -> bool {
        &&& e.spec_well_typed()
        &&& e.spec_index() < self.slots@.len()
        &&& e.spec_version() < self.slot_version(e.spec_index() as int)
    }

    spec fn free_link(fl: Seq<u32>, k: int) -> int {
        if k + 1 < fl.len() {
            free_code(fl[k + 1] as int)
        } else {
            FREE_LIST_END as int
        }
    }

    spec fn wf_sizes(&self) -> bool {
        &&& self.len == self.entities@.len()
        &&& self.len == self.data@.len()
        &&& self.capacity == self.slots@.len()
        &&& self.len <= self.capacity
        &&& self.capacity <= MAX_DATA_CAPACITY
    }

    spec fn wf_dense(&self) -> bool {
        forall|i: int|
            #![trigger self.entities@[i]]
            0 <= i < self.len ==> {
                let e = self.entities@[i];
                &&& e.spec_well_typed()
                &&& e.spec_index() < self.capacity
                &&& !self.slot_free(e.spec_index() as int)
                &&& self.slot_raw(e.spec_index() as int) == i
                &&& self.slot_version(e.spec_index() as int) == e.spec_version()
            }
    }

    spec fn wf_sparse(&self) -> bool {
        forall|s: int|
            #![trigger self.slots@[s]]
            0 <= s < self.capacity ==> {
                &&& self.slots@[s].index.wf()
                &&& (!self.slot_free(s) ==> {
                    &&& self.slot_raw(s) < self.len
                    &&& self.entities@[self.slot_raw(s) as int].spec_index() == s
                })
                &&& (self.slot_free(s) ==> self.free_list@.contains(s as u32))
            }
    }

    spec fn wf_free_list(&self) -> bool {
        let fl = self.free_list@;
        &&& fl.len() + self.len == self.capacity
        &&& fl.no_duplicates()
        &&& self.free_head.raw() == (if fl.len() > 0 {
            free_code(fl[0] as int)
        } else {
            FREE_LIST_END as int
        })
        &&& forall|k: int|
            #![trigger fl[k]]
            0 <= k < fl.len() ==> {
                &&& fl[k] < self.capacity
                &&& self.slot_free(fl[k] as int)
                &&& self.slot_raw(fl[k] as int) == Self::free_link(fl, k)
            }
    }

    spec fn wf_versions(&self) -> bool {
        &&& VERSION_START <= self.version@
        &&& forall|s: int|
            #![trigger self.slots@[s]]
            0 <= s < self.capacity ==> self.slot_version(s) <= self.version@
    }

    /// The storage's internal consistency: dense entries and live slots point
    /// at each other, the free slots form one linked list from the head, and
    /// no slot's version is ahead of the storage's version (both start equal,
    /// and every release advances both).
    pub closed spec fn wf(&self) -> bool {
        &&& self.wf_sizes()
        &&& self.wf_dense()
        &&& self.wf_sparse()
        &&& self.wf_free_list()
        &&& self.wf_versions()
    }

    /// No live handle's version is ahead of the storage's version, which
    /// itself never falls below the starting version.
    pub proof fn lemma_live_versions(&self)
        requires
            self.wf(),
        ensures
            VERSION_START <= self.spec_version(),
            forall|e: Entity<A>| #[trigger] self@.contains_key(e) ==> e.spec_version() <= self.spec_version(),
            forall|i: int|
                0 <= i < self.spec_entities().len() ==> (#[trigger] self.spec_entities()[i]).spec_version()
                    <= self.spec_version(),
    {
        assert forall|i: int| 0 <= i < self.spec_entities().len() implies (
        #[trigger] self.spec_entities()[i]).spec_version() <= self.spec_version() by {
            let e = self.entities@[i];
            assert(self.slots@[e.spec_index() as int].version@ <= self.version@);
        }
        assert forall|e: Entity<A>| #[trigger] self@.contains_key(e) implies e.spec_version()
            <= self.spec_version() by {
            assert(self.slots@[e.spec_index() as int].version@ <= self.version@);
        }
    }

    /// The model has one entry per stored entity.
    pub proof fn lemma_view_len(&self)
        requires
            self.wf(),
        ensures
            self@.len() == self.spec_entities().len(),
            self@.dom().finite(),
    {
        self.lemma_view_dense();
        let dom = self.entities@.to_set();
        assert(self@.dom() =~= dom) by {
            assert forall|e: Entity<A>| #[trigger] self@.dom().contains(e) implies dom.contains(e) by {
                assert(self.entities@[self.spec_position(e)] == e);
            }
            assert forall|e: Entity<A>| dom.contains(e) implies #[trigger] self@.dom().contains(e) by {
                let i = choose|i: int| 0 <= i < self.entities@.len() && self.entities@[i] == e;
                assert(self@.contains_key(self.spec_entities()[i]));
            }
        }
        assert(self.entities@.no_duplicates()) by {
            assert forall|i: int, j: int|
                0 <= i < self.entities@.len() && 0 <= j < self.entities@.len() && i != j
                implies self.entities@[i] != self.entities@[j] by {
                assert(self.spec_position(self.spec_entities()[i]) == i);
                assert(self.spec_position(self.spec_entities()[j]) == j);
            }
        }
        self.entities@.unique_seq_to_set();
    }

    /// A stale handle never resolves.
    pub proof fn lemma_stale_not_live(&self, e: Entity<A>)
        requires
            self.spec_stale(e),
        ensures
            !self@.contains_key(e),
    {
    }

    /// In a consistent storage, the model holds exactly the stored entities,
    /// each mapped to the data at its dense position.
    pub proof fn lemma_view_dense(&self)
        requires
            self.wf(),
        ensures
            self.spec_entities().len() == self.spec_data().len(),
            self.spec_data().len() <= self.spec_capacity() <= MAX_DATA_CAPACITY,
            forall|i: int|
                0 <= i < self.spec_entities().len() ==> #[trigger] self@.contains_key(
                    self.spec_entities()[i],
                ) && self.spec_position(self.spec_entities()[i]) == i && self@[self.spec_entities()[i]]
                    == self.spec_data()[i],
            forall|e: Entity<A>|
                #[trigger] self@.contains_key(e) ==> 0 <= self.spec_position(e)
                    < self.spec_entities().len() && self.spec_entities()[self.spec_position(e)] == e,
    {
        assert forall|e: Entity<A>| #[trigger] self@.contains_key(e) implies 0 <= self.spec_position(
            e,
        ) < self.spec_entities().len() && self.spec_entities()[self.spec_position(e)] == e by {
            let s = e.spec_index() as int;
            assert(self.slots@[s].index.wf());
            let d = self.slot_raw(s) as int;
            let f = self.entities@[d];
            assert(f.spec_well_typed());
            e.lemma_eq_parts(f);
        }
    }
}

impl<C, const A: u8> Storage<C, A> {
    /// Creates an empty storage of capacity zero, which grows on demand.
    pub fn new() -> (r: Self)
        ensures
            r.wf(),
            r@ == Map::<Entity<A>, C>::empty(),
            r.spec_entities() == Seq::<Entity<A>>::empty(),
            r.spec_data() == Seq::<C>::empty(),
            r.spec_capacity() == 0,
            r.spec_version() == VERSION_START,
            r.spec_created() == Seq::<Entity<A>>::empty(),
            r.spec_destroyed() == Seq::<Entity<A>>::empty(),
    {
        Self::with_capacity(0)
    }

    /// Creates an empty storage with room for `capacity` entities.
    ///
    /// Data indices must fit inside entity handles, so the capacity may not
    /// exceed `MAX_DATA_CAPACITY`.
    pub fn with_capacity(capacity: usize) -> (r: Self)
        requires
            capacity <= MAX_DATA_CAPACITY,
        ensures
            r.wf(),
            r@ == Map::<Entity<A>, C>::empty(),
            r.spec_entities() == Seq::<Entity<A>>::empty(),
            r.spec_data() == Seq::<C>::empty(),
            r.spec_capacity() == capacity,
            r.spec_version() == VERSION_START,
            r.spec_created() == Seq::<Entity<A>>::empty(),
            r.spec_destroyed() == Seq::<Entity<A>>::empty(),
    {
        let mut slots: Vec<Slot> = Vec::new();
        let free_head = Slot::populate_free_list(TrimmedIndex::zero(), &mut slots, capacity);
        let ghost fl = Seq::new(capacity as nat, |k: int| k as u32);
        let r = Storage {
            version: VersionArchetype::start(),
            len: 0,
            capacity,
            free_head,
            slots,
            entities: Vec::new(),
            data: Vec::new(),
            created: Vec::new(),
            destroyed: Vec::new(),
            free_list: Ghost(fl),
        };
        proof {
            assert(fl.no_duplicates());
            assert forall|s: int| 0 <= s < capacity implies #[trigger] r.slots@[s].index.wf()
                && (r.slot_free(s) ==> r.free_list@.contains(s as u32)) by {
                assert(fl[s] == s as u32);
            }
            assert(r@ =~= Map::<Entity<A>, C>::empty());
        }
        r
    }

    /// The number of entities stored.
    pub fn len(&self) -> (r: usize)
        requires
            self.wf(),
        ensures
            r == self.spec_entities().len(),
            r == self@.len(),
    {
        proof {
            self.lemma_view_len();
        }
        self.len
    }

    /// Whether no entity is stored.
    pub fn is_empty(&self) -> (r: bool)
        requires
            self.wf(),
        ensures
            r == (self.spec_entities().len() == 0),
            r == (self@.len() == 0),
    {
        proof {
            self.lemma_view_len();
        }
        self.len == 0
    }

    /// How many entities fit before the storage must grow.
    pub fn capacity(&self) -> (r: usize)
        ensures
            r == self.spec_capacity(),
    {
        self.capacity
    }

    /// The overall version for this storage, advanced on every removal.
    pub fn version(&self) -> (r: VersionArchetype)
        ensures
            r@ == self.spec_version(),
    {
        self.version
    }

    /// The stored entity handles, in dense order.
    pub fn entities(&self) -> (r: &[Entity<A>])
        ensures
            r@ == self.spec_entities(),
    {
        self.entities.as_slice()
    }

    /// The stored components, in dense order.
    pub fn components(&self) -> (r: &[C])
        ensures
            r@ == self.spec_data(),
    {
        self.data.as_slice()
    }

    /// The entities created since the events were last cleared, oldest first.
    pub fn created(&self) -> (r: &[Entity<A>])
        ensures
            r@ == self.spec_created(),
    {
        self.created.as_slice()
    }

    /// The entities destroyed since the events were last cleared, oldest first.
    pub fn destroyed(&self) -> (r: &[Entity<A>])
        ensures
            r@ == self.spec_destroyed(),
    {
        self.destroyed.as_slice()
    }

    /// Forgets every creation and destruction event, leaving the entities as
    /// they are.
    pub fn clear_events(&mut self)
        requires
            old(self).wf(),
        ensures
            final(self).wf(),
            final(self)@ == old(self)@,
            final(self).spec_entities() == old(self).spec_entities(),
            final(self).spec_data() == old(self).spec_data(),
            final(self).spec_capacity() == old(self).spec_capacity(),
            final(self).spec_version() == old(self).spec_version(),
            Self::stale_kept(&*old(self), &*final(self)),
            final(self).spec_created() == Seq::<Entity<A>>::empty(),
            final(self).spec_destroyed() == Seq::<Entity<A>>::empty(),
    {
        self.created.clear();
        self.destroyed.clear();
        proof {
            assert(self@ =~= old(self)@);
        }
    }
}

impl<C, const A: u8> Storage<C, A> {
    /// Resolves the slot index and dense index for a given entity. Both
    /// indices point to valid corresponding cells.
    fn resolve_entity(&self, entity: Entity<A>) -> (r: Option<(TrimmedIndex, TrimmedIndex)>)
        requires
            self.wf(),
        ensures
            r is Some <==> self@.contains_key(entity),
            r matches Some(p) ==> p.0.spec_value() == entity.spec_index() && p.1.spec_value()
                == self.spec_position(entity),
    {
        // Nothing to resolve if we have nothing stored.
        if self.len == 0 {
            proof {
                self.lemma_view_len();
                if self@.contains_key(entity) {
                    assert(self@.dom().contains(entity));
                }
            }
            return None;
        }
        let slot_index = entity.index();
        let version = entity.version();
        let slot_index_usize = slot_index.get_usize();
        // The handle may come from another world, so it must be bounds-checked.
        if slot_index_usize >= self.capacity {
            return None;
        }
        let slot = &self.slots[slot_index_usize];
        if slot.version().get() != version || slot.is_free() {
            return None;
        }
        proof {
            assert(self.slots@[slot_index_usize as int].index.wf());
        }
        let dense_index = slot.index().index_data().unwrap();
        Some((slot_index, dense_index))
    }

    /// Resolves an entity to its position in the dense data, if it is live.
    pub fn resolve(&self, entity: Entity<A>) -> (r: Option<usize>)
        requires
            self.wf(),
        ensures
            r is Some <==> self@.contains_key(entity),
            r matches Some(i) ==> i == self.spec_position(entity) && i < self.spec_entities().len()
                && self.spec_entities()[i as int] == entity && self.spec_data()[i as int]
                == self@[entity],
    {
        proof {
            self.lemma_view_dense();
        }
        match self.resolve_entity(entity) {
            Some((_, dense_index)) => Some(dense_index.get_usize()),
            None => None,
        }
    }

    /// Whether the entity is live in this storage.
    pub fn contains(&self, entity: Entity<A>) -> (r: bool)
        requires
            self.wf(),
        ensures
            r == self@.contains_key(entity),
    {
        self.resolve_entity(entity).is_some()
    }

    /// The components of a live entity.
    pub fn get(&self, entity: Entity<A>) -> (r: Option<&C>)
        requires
            self.wf(),
        ensures
            r is Some <==> self@.contains_key(entity),
            r matches Some(c) ==> *c == self@[entity],
    {
        match self.resolve(entity) {
            Some(index) => Some(&self.data[index]),
            None => None,
        }
    }

    /// Converts an entity key to a direct handle that bypasses slot lookup,
    /// valid until the storage's version next changes.
    pub fn to_direct(&self, entity: Entity<A>) -> (r: Option<EntityDirect<A>>)
        requires
            self.wf(),
        ensures
            r is Some <==> self@.contains_key(entity),
            r matches Some(d) ==> d.spec_index() == self.spec_position(entity) && d.spec_version()
                == self.spec_version(),
    {
        match self.resolve_entity(entity) {
            Some((_, dense_index)) => Some(EntityDirect::new(dense_index, self.version.get())),
            None => None,
        }
    }

    /// Resolves a direct handle to its dense position: it must carry the
    /// storage's current version and point inside the dense data.
    pub fn resolve_direct_key(&self, entity: EntityDirect<A>) -> (r: Option<usize>)
        requires
            self.wf(),
        ensures
            r is Some <==> (entity.spec_version() == self.spec_version() && entity.spec_index()
                < self.spec_entities().len()),
            r matches Some(i) ==> i == entity.spec_index(),
    {
        if self.len == 0 {
            return None;
        }
        if entity.version() != self.version.get() {
            return None;
        }
        let dense_index = entity.index().get_usize();
        if dense_index >= self.len {
            return None;
        }
        Some(dense_index)
    }

    /// The entity a direct handle points to, if the handle is current.
    pub fn direct_entity(&self, entity: EntityDirect<A>) -> (r: Option<Entity<A>>)
        requires
            self.wf(),
        ensures
            r is Some <==> (entity.spec_version() == self.spec_version() && entity.spec_index()
                < self.spec_entities().len()),
            r matches Some(e) ==> e == self.spec_entities()[entity.spec_index() as int]
                && self@.contains_key(e),
    {
        proof {
            self.lemma_view_dense();
        }
        match self.resolve_direct_key(entity) {
            Some(i) => Some(self.entities[i]),
            None => None,
        }
    }
}

impl<C, const A: u8> Storage<C, A> {
    /// Every handle that was stale before is still stale.
    pub open spec fn stale_kept(old_s: &Self, new_s: &Self) -> bool {
        forall|e: Entity<A>| #[trigger] old_s.spec_stale(e) ==> new_s.spec_stale(e)
    }

    /// Stores the data in the first slot of the free list and returns its
    /// new handle. There must be spare capacity.
    fn force_create(&mut self, data: C) -> (r: Entity<A>)
        requires
            old(self).wf(),
            old(self).len < old(self).capacity,
        ensures
            final(self).wf(),
            final(self)@ == old(self)@.insert(r, data),
            !old(self)@.contains_key(r),
            !old(self).spec_stale(r),
            final(self).spec_entities() == old(self).spec_entities().push(r),
            final(self).spec_data() == old(self).spec_data().push(data),
            final(self).spec_capacity() == old(self).spec_capacity(),
            final(self).spec_version() == old(self).spec_version(),
            Self::stale_kept(&*old(self), &*final(self)),
            r.spec_well_typed(),
            r.spec_version() <= final(self).spec_version(),
            final(self).spec_created() == old(self).spec_created().push(r),
            final(self).spec_destroyed() == old(self).spec_destroyed(),
    {
        let ghost fl = self.free_list@;
        proof {
            assert(fl.len() > 0);
            assert(fl[0] < self.capacity);
        }
        // We never reach the end of the free list while below capacity.
        let slot_index = self.free_head.index_free().unwrap();
        let si = slot_index.get_usize();
        let dense_index = TrimmedIndex::new_usize(self.len).unwrap();
        proof {
            assert(si == fl[0]);
        }
        let mut slot = self.slots[si];
        self.free_head = slot.index();
        slot.assign(dense_index);
        self.slots.set(si, slot);
        let entity = Entity::new(slot_index, slot.version().get());
        self.entities.push(entity);
        self.data.push(data);
        self.created.push(entity);
        self.len = self.len + 1;
        self.free_list = Ghost(fl.drop_first());
        proof {
            let o = old(self);
            assert(!o@.contains_key(entity));
            assert(!o.spec_stale(entity));
            assert forall|i: int| 0 <= i < self.len implies {
                let e = #[trigger] self.entities@[i];
                &&& e.spec_well_typed()
                &&& e.spec_index() < self.capacity
                &&& !self.slot_free(e.spec_index() as int)
                &&& self.slot_raw(e.spec_index() as int) == i
                &&& self.slot_version(e.spec_index() as int) == e.spec_version()
            } by {
                if i < o.len {
                    assert(o.entities@[i] == self.entities@[i]);
                }
            }
            assert forall|s: int| 0 <= s < self.capacity implies {
                &&& #[trigger] self.slots@[s].index.wf()
                &&& (!self.slot_free(s) ==> {
                    &&& self.slot_raw(s) < self.len
                    &&& self.entities@[self.slot_raw(s) as int].spec_index() == s
                })
                &&& (self.slot_free(s) ==> self.free_list@.contains(s as u32))
            } by {
                if s != si {
                    assert(o.slots@[s] == self.slots@[s]);
                    if self.slot_free(s) {
                        let k = choose|k: int| 0 <= k < fl.len() && fl[k] == s as u32;
                        assert(k != 0);
                        assert(self.free_list@[k - 1] == s as u32);
                    } else {
                        assert(o.entities@[o.slot_raw(s) as int] == self.entities@[self.slot_raw(s) as int]);
                    }
                }
            }
            let nfl = self.free_list@;
            assert forall|k: int| 0 <= k < nfl.len() implies {
                &&& #[trigger] nfl[k] < self.capacity
                &&& self.slot_free(nfl[k] as int)
                &&& self.slot_raw(nfl[k] as int) == Self::free_link(nfl, k)
            } by {
                assert(nfl[k] == fl[k + 1]);
                assert(fl[k + 1] != fl[0]);
            }
            assert(self.wf());
            assert forall|e: Entity<A>| #[trigger] o.spec_stale(e) implies self.spec_stale(e) by {
                if e.spec_index() != si {
                    assert(o.slots@[e.spec_index() as int] == self.slots@[e.spec_index() as int]);
                }
            }
            assert(self@ =~= o@.insert(entity, data)) by {
                assert forall|e: Entity<A>| #[trigger] self@.contains_key(e) <==> o@.insert(entity, data).contains_key(e) by {
                    if e.spec_index() == si {
                        if e.spec_well_typed() {
                            e.lemma_eq_parts(entity);
                        }
                    } else if e.spec_index() < self.capacity {
                        assert(o.slots@[e.spec_index() as int] == self.slots@[e.spec_index() as int]);
                    }
                }
                assert forall|e: Entity<A>| #[trigger] self@.contains_key(e) implies self@[e] == o@.insert(entity, data)[e] by {
                    if e.spec_index() == si {
                        e.lemma_eq_parts(entity);
                    } else {
                        assert(o.slots@[e.spec_index() as int] == self.slots@[e.spec_index() as int]);
                        assert(o.slots@[e.spec_index() as int].index.wf());
                    }
                }
            }
        }
        entity
    }
}

impl<C, const A: u8> Storage<C, A> {
    /// The capacity a full storage grows to: it doubles (plus one), up to the
    /// addressable maximum.
    pub open spec fn grown_capacity(capacity: nat) -> nat {
        if (capacity + 1) * 2 < MAX_DATA_CAPACITY {
            ((capacity + 1) * 2) as nat
        } else {
            MAX_DATA_CAPACITY as nat
        }
    }

    /// Grows a full storage to accommodate more data, rebuilding the free list
    /// from the new slots. Fails only when already at the maximum capacity.
    fn grow(&mut self) -> (r: bool)
        requires
            old(self).wf(),
            old(self).len == old(self).capacity,
        ensures
            r == (old(self).capacity < MAX_DATA_CAPACITY),
            final(self).wf(),
            final(self)@ == old(self)@,
            final(self).spec_entities() == old(self).spec_entities(),
            final(self).spec_data() == old(self).spec_data(),
            final(self).spec_version() == old(self).spec_version(),
            final(self).spec_capacity() == (if r {
                Self::grown_capacity(old(self).spec_capacity())
            } else {
                old(self).spec_capacity()
            }),
            Self::stale_kept(&*old(self), &*final(self)),
            final(self).spec_created() == old(self).spec_created(),
            final(self).spec_destroyed() == old(self).spec_destroyed(),
    {
        if self.capacity >= MAX_DATA_CAPACITY as usize {
            return false;
        }
        let new_capacity = if (self.capacity + 1) * 2 < MAX_DATA_CAPACITY as usize {
            (self.capacity + 1) * 2
        } else {
            MAX_DATA_CAPACITY as usize
        };
        let free_start = TrimmedIndex::new_usize(self.len).unwrap();
        let ghost old_cap = self.capacity;
        // Every slot is occupied, so the old free list is empty: build a new
        // one from the fresh slots.
        self.free_head = Slot::populate_free_list(free_start, &mut self.slots, new_capacity);
        self.capacity = new_capacity;
        let ghost fl = Seq::new((new_capacity - old_cap) as nat, |k: int| (old_cap + k) as u32);
        self.free_list = Ghost(fl);
        proof {
            let o = old(self);
            assert forall|i: int| 0 <= i < self.len implies {
                let e = #[trigger] self.entities@[i];
                &&& e.spec_well_typed()
                &&& e.spec_index() < self.capacity
                &&& !self.slot_free(e.spec_index() as int)
                &&& self.slot_raw(e.spec_index() as int) == i
                &&& self.slot_version(e.spec_index() as int) == e.spec_version()
            } by {
                let e = self.entities@[i];
                assert(o.entities@[i] == e);
                assert(o.slots@[e.spec_index() as int] == self.slots@[e.spec_index() as int]);
            }
            assert forall|s: int| 0 <= s < self.capacity implies {
                &&& #[trigger] self.slots@[s].index.wf()
                &&& (!self.slot_free(s) ==> {
                    &&& self.slot_raw(s) < self.len
                    &&& self.entities@[self.slot_raw(s) as int].spec_index() == s
                })
                &&& (self.slot_free(s) ==> self.free_list@.contains(s as u32))
            } by {
                if s < old_cap {
                    assert(o.slots@[s] == self.slots@[s]);
                    if self.slot_free(s) {
                        assert(o.free_list@.contains(s as u32));
                    }
                } else {
                    assert(fresh_free_slot(self.slots@[s], s, new_capacity as int));
                    assert(fl[s - old_cap] == s as u32);
                }
            }
            assert(fl.no_duplicates());
            assert forall|k: int| 0 <= k < fl.len() implies {
                &&& #[trigger] fl[k] < self.capacity
                &&& self.slot_free(fl[k] as int)
                &&& self.slot_raw(fl[k] as int) == Self::free_link(fl, k)
            } by {
                assert(fresh_free_slot(self.slots@[old_cap + k], old_cap + k, new_capacity as int));
            }
            assert(self.wf());
            assert forall|e: Entity<A>| #[trigger] o.spec_stale(e) implies self.spec_stale(e) by {
                assert(o.slots@[e.spec_index() as int] == self.slots@[e.spec_index() as int]);
            }
            assert(self@ =~= o@) by {
                assert forall|e: Entity<A>| #[trigger] self@.contains_key(e) <==> o@.contains_key(e) by {
                    if e.spec_index() < old_cap {
                        assert(o.slots@[e.spec_index() as int] == self.slots@[e.spec_index() as int]);
                    } else if e.spec_index() < self.capacity {
                        assert(fresh_free_slot(self.slots@[e.spec_index() as int], e.spec_index() as int, new_capacity as int));
                    }
                }
                assert forall|e: Entity<A>| #[trigger] self@.contains_key(e) implies self@[e] == o@[e] by {
                    assert(o.slots@[e.spec_index() as int] == self.slots@[e.spec_index() as int]);
                }
            }
        }
        true
    }

    /// Adds a new entity with the given components and returns its handle,
    /// growing the storage when it is full.
    ///
    /// A storage can not grow past `MAX_DATA_CAPACITY`, so it must hold
    /// fewer entities than that.
    pub fn push(&mut self, data: C) -> (r: Entity<A>)
        requires
            old(self).wf(),
            old(self).spec_entities().len() < MAX_DATA_CAPACITY,
        ensures
            final(self).wf(),
            final(self)@ == old(self)@.insert(r, data),
            !old(self)@.contains_key(r),
            !old(self).spec_stale(r),
            final(self).spec_entities() == old(self).spec_entities().push(r),
            final(self).spec_data() == old(self).spec_data().push(data),
            final(self).spec_capacity() == (if old(self).spec_entities().len()
                < old(self).spec_capacity() {
                old(self).spec_capacity()
            } else {
                Self::grown_capacity(old(self).spec_capacity())
            }),
            final(self).spec_version() == old(self).spec_version(),
            r.spec_version() <= final(self).spec_version(),
            Self::stale_kept(&*old(self), &*final(self)),
            final(self).spec_created() == old(self).spec_created().push(r),
            final(self).spec_destroyed() == old(self).spec_destroyed(),
    {
        if self.len >= self.capacity {
            let grown = self.grow();
            assert(grown);
        }
        self.force_create(data)
    }

    /// Adds a new entity if there is spare capacity, without growing.
    /// Otherwise hands the components back.
    pub fn push_within_capacity(&mut self, data: C) -> (r: Result<Entity<A>, C>)
        requires
            old(self).wf(),
        ensures
            final(self).wf(),
            r is Err <==> old(self).spec_entities().len() == old(self).spec_capacity(),
            r matches Err(d) ==> d == data && final(self)@ == old(self)@ && final(self).spec_entities()
                == old(self).spec_entities() && final(self).spec_data() == old(self).spec_data()
                && final(self).spec_created() == old(self).spec_created(),
            r matches Ok(e) ==> {
                &&& final(self)@ == old(self)@.insert(e, data)
                &&& e.spec_version() <= final(self).spec_version()
                &&& !old(self)@.contains_key(e)
                &&& !old(self).spec_stale(e)
                &&& final(self).spec_entities() == old(self).spec_entities().push(e)
                &&& final(self).spec_data() == old(self).spec_data().push(data)
                &&& final(self).spec_created() == old(self).spec_created().push(e)
            },
            final(self).spec_destroyed() == old(self).spec_destroyed(),
            final(self).spec_capacity() == old(self).spec_capacity(),
            final(self).spec_version() == old(self).spec_version(),
            Self::stale_kept(&*old(self), &*final(self)),
    {
        if self.len >= self.capacity {
            return Err(data);
        }
        Ok(self.force_create(data))
    }

    /// Adds a new entity if there is spare capacity, without growing.
    /// Returns `None` (dropping the components) when full.
    pub fn try_push(&mut self, data: C) -> (r: Option<Entity<A>>)
        requires
            old(self).wf(),
        ensures
            final(self).wf(),
            r is None <==> old(self).spec_entities().len() == old(self).spec_capacity(),
            r is None ==> final(self)@ == old(self)@ && final(self).spec_entities()
                == old(self).spec_entities() && final(self).spec_data() == old(self).spec_data()
                && final(self).spec_created() == old(self).spec_created(),
            r matches Some(e) ==> {
                &&& final(self)@ == old(self)@.insert(e, data)
                &&& e.spec_version() <= final(self).spec_version()
                &&& !old(self)@.contains_key(e)
                &&& !old(self).spec_stale(e)
                &&& final(self).spec_entities() == old(self).spec_entities().push(e)
                &&& final(self).spec_data() == old(self).spec_data().push(data)
                &&& final(self).spec_created() == old(self).spec_created().push(e)
            },
            final(self).spec_destroyed() == old(self).spec_destroyed(),
            final(self).spec_capacity() == old(self).spec_capacity(),
            final(self).spec_version() == old(self).spec_version(),
            Self::stale_kept(&*old(self), &*final(self)),
    {
        match self.push_within_capacity(data) {
            Ok(e) => Some(e),
            Err(_) => None,
        }
    }
}

impl<C, const A: u8> Storage<C, A> {
    /// Removes the entity at the given slot and dense position: the last
    /// dense entry moves into the hole, and the slot joins the free list with
    /// an advanced version.
    fn force_destroy(&mut self, slot_index: TrimmedIndex, dense_index: TrimmedIndex, Ghost(
        entity,
    ): Ghost<Entity<A>>) -> (r: C)
        requires
            old(self).wf(),
            old(self)@.contains_key(entity),
            slot_index.spec_value() == entity.spec_index(),
            dense_index.spec_value() == old(self).spec_position(entity),
            entity.spec_version() < u32::MAX,
            old(self).spec_version() < u32::MAX,
        ensures
            final(self).wf(),
            r == old(self)@[entity],
            final(self)@ == old(self)@.remove(entity),
            final(self).spec_stale(entity),
            final(self).spec_entities() == swap_removed(
                old(self).spec_entities(),
                old(self).spec_position(entity),
            ),
            final(self).spec_data() == swap_removed(
                old(self).spec_data(),
                old(self).spec_position(entity),
            ),
            final(self).spec_capacity() == old(self).spec_capacity(),
            final(self).spec_version() == old(self).spec_version() + 1,
            Self::stale_kept(&*old(self), &*final(self)),
            final(self).spec_created() == old(self).spec_created(),
            final(self).spec_destroyed() == old(self).spec_destroyed().push(entity),
    {
        proof {
            self.lemma_view_dense();
        }
        let ghost fl = self.free_list@;
        let si = slot_index.get_usize();
        let di = dense_index.get_usize();
        let last = self.len - 1;
        let last_entity = self.entities[last];
        let last_slot = last_entity.index().get_usize();
        proof {
            assert(self.entities@[last as int] == last_entity);
            assert(self.entities@[di as int] == entity);
        }
        self.destroyed.push(self.entities[di]);
        self.entities.swap_remove(di);
        let result = self.data.swap_remove(di);
        // Order matters here to support the case where the target is last:
        // first re-point the last entity's slot, then release the target.
        let mut moved = self.slots[last_slot];
        moved.assign(dense_index);
        self.slots.set(last_slot, moved);
        let mut released = self.slots[si];
        released.release(self.free_head);
        self.slots.set(si, released);
        self.version = self.version.next();
        self.free_head = SlotIndex::new_free(slot_index);
        self.len = self.len - 1;
        self.free_list = Ghost(seq![si as u32] + fl);
        proof {
            let o = old(self);
            let nfl = self.free_list@;
            assert(!fl.contains(si as u32)) by {
                if fl.contains(si as u32) {
                    let k = choose|k: int| 0 <= k < fl.len() && fl[k] == si as u32;
                    assert(o.slot_free(fl[k] as int));
                }
            }
            assert(last_slot != si ==> last != di) by {
                if last == di {
                    assert(o.entities@[last as int] == entity);
                }
            }
            // Slots other than the target and the moved one are untouched.
            assert forall|s: int| 0 <= s < self.capacity && s != si && s != last_slot implies
                #[trigger] self.slots@[s] == o.slots@[s] by {}
            assert forall|i: int| 0 <= i < self.len implies {
                let e = #[trigger] self.entities@[i];
                &&& e.spec_well_typed()
                &&& e.spec_index() < self.capacity
                &&& !self.slot_free(e.spec_index() as int)
                &&& self.slot_raw(e.spec_index() as int) == i
                &&& self.slot_version(e.spec_index() as int) == e.spec_version()
            } by {
                let e = self.entities@[i];
                if i == di {
                    assert(e == last_entity);
                    assert(o.entities@[last as int] == e);
                } else {
                    assert(o.entities@[i] == e);
                    assert(e.spec_index() != si);
                    assert(e.spec_index() != last_slot);
                }
            }
            assert forall|s: int| 0 <= s < self.capacity implies {
                &&& #[trigger] self.slots@[s].index.wf()
                &&& (!self.slot_free(s) ==> {
                    &&& self.slot_raw(s) < self.len
                    &&& self.entities@[self.slot_raw(s) as int].spec_index() == s
                })
                &&& (self.slot_free(s) ==> self.free_list@.contains(s as u32))
            } by {
                assert(o.slots@[s].index.wf());
                if s == si {
                    assert(nfl[0] == si as u32);
                } else if s == last_slot {
                    assert(self.entities@[di as int] == last_entity);
                } else {
                    assert(self.slots@[s] == o.slots@[s]);
                    if self.slot_free(s) {
                        let k = choose|k: int| 0 <= k < fl.len() && fl[k] == s as u32;
                        assert(nfl[k + 1] == s as u32);
                    } else {
                        let d = o.slot_raw(s) as int;
                        assert(o.entities@[d].spec_index() == s);
                        assert(d != di);
                        assert(d != last);
                        assert(self.entities@[d] == o.entities@[d]);
                    }
                }
            }
            assert(nfl.no_duplicates()) by {
                assert forall|a: int, b: int| 0 <= a < nfl.len() && 0 <= b < nfl.len() && a != b
                    implies nfl[a] != nfl[b] by {
                    if a > 0 && b > 0 {
                        assert(nfl[a] == fl[a - 1]);
                        assert(nfl[b] == fl[b - 1]);
                    } else if a == 0 {
                        assert(nfl[b] == fl[b - 1]);
                    } else {
                        assert(nfl[a] == fl[a - 1]);
                    }
                }
            }
            assert forall|k: int| 0 <= k < nfl.len() implies {
                &&& #[trigger] nfl[k] < self.capacity
                &&& self.slot_free(nfl[k] as int)
                &&& self.slot_raw(nfl[k] as int) == Self::free_link(nfl, k)
            } by {
                if k > 0 {
                    assert(nfl[k] == fl[k - 1]);
                    assert(o.slot_free(fl[k - 1] as int));
                    assert(fl[k - 1] != last_slot);
                    assert(fl[k - 1] != si);
                }
            }
            assert(self.wf());
            assert forall|e: Entity<A>| #[trigger] o.spec_stale(e) implies self.spec_stale(e) by {
                if e.spec_index() != si && e.spec_index() != last_slot {
                    assert(self.slots@[e.spec_index() as int] == o.slots@[e.spec_index() as int]);
                }
            }
            assert(self@ =~= o@.remove(entity)) by {
                assert forall|e: Entity<A>| #[trigger] self@.contains_key(e) <==> o@.remove(entity).contains_key(e) by {
                    if e.spec_index() == si {
                        if e.spec_well_typed() && o@.contains_key(e) {
                            e.lemma_eq_parts(entity);
                        }
                    } else if e.spec_index() < self.capacity && e.spec_index() != last_slot {
                        assert(self.slots@[e.spec_index() as int] == o.slots@[e.spec_index() as int]);
                    }
                }
                assert forall|e: Entity<A>| #[trigger] self@.contains_key(e) implies self@[e] == o@.remove(entity)[e] by {
                    let s = e.spec_index() as int;
                    if s == last_slot {
                        assert(o.slots@[s].index.wf());
                    } else {
                        assert(self.slots@[s] == o.slots@[s]);
                        assert(o.slots@[s].index.wf());
                        let d = o.slot_raw(s) as int;
                        assert(o.entities@[d].spec_index() == s);
                        assert(d != di);
                        assert(d != last);
                    }
                }
            }
        }
        result
    }

    /// Whether destroying the entity stays within the version limits: it is
    /// not live here, or the storage version is not at its maximum (no slot
    /// version is ever ahead of it).
    pub fn can_destroy(&self, entity: Entity<A>) -> (r: bool)
        requires
            self.wf(),
        ensures
            r == (self@.contains_key(entity) ==> self.spec_version() < u32::MAX),
    {
        !self.contains(entity) || self.version.get() < u32::MAX
    }

    /// Whether destroying through the direct handle stays within the
    /// version limits: the handle is not current, or the storage version is
    /// not at its maximum.
    pub fn can_destroy_direct(&self, entity: EntityDirect<A>) -> (r: bool)
        requires
            self.wf(),
        ensures
            r == ((entity.spec_version() == self.spec_version() && entity.spec_index()
                < self.spec_entities().len()) ==> self.spec_version() < u32::MAX),
    {
        match self.direct_entity(entity) {
            None => true,
            Some(_) => self.version.get() < u32::MAX,
        }
    }

    /// Removes the given entity if it is live here, returning its components.
    ///
    /// This destroys the entity by invalidating every handle to it. Version
    /// counters never wrap around, so the storage version may not be at its
    /// maximum (the entity's slot version is never ahead of it).
    pub fn destroy(&mut self, entity: Entity<A>) -> (r: Option<C>)
        requires
            old(self).wf(),
            old(self)@.contains_key(entity) ==> old(self).spec_version() < u32::MAX,
        ensures
            final(self).wf(),
            r is Some <==> old(self)@.contains_key(entity),
            r matches Some(c) ==> c == old(self)@[entity],
            final(self)@ == old(self)@.remove(entity),
            !final(self)@.contains_key(entity),
            old(self)@.contains_key(entity) ==> {
                &&& final(self).spec_stale(entity)
                &&& final(self).spec_entities() == swap_removed(
                    old(self).spec_entities(),
                    old(self).spec_position(entity),
                )
                &&& final(self).spec_data() == swap_removed(
                    old(self).spec_data(),
                    old(self).spec_position(entity),
                )
                &&& final(self).spec_version() == old(self).spec_version() + 1
                &&& final(self).spec_destroyed() == old(self).spec_destroyed().push(entity)
            },
            !old(self)@.contains_key(entity) ==> {
                &&& final(self).spec_entities() == old(self).spec_entities()
                &&& final(self).spec_data() == old(self).spec_data()
                &&& final(self).spec_version() == old(self).spec_version()
                &&& final(self).spec_destroyed() == old(self).spec_destroyed()
            },
            final(self).spec_created() == old(self).spec_created(),
            final(self).spec_capacity() == old(self).spec_capacity(),
            Self::stale_kept(&*old(self), &*final(self)),
    {
        proof {
            self.lemma_live_versions();
        }
        match self.resolve_entity(entity) {
            Some((slot_index, dense_index)) => {
                Some(self.force_destroy(slot_index, dense_index, Ghost(entity)))
            },
            None => {
                proof {
                    assert(self@ =~= old(self)@.remove(entity));
                }
                None
            },
        }
    }

    /// Removes the entity a direct handle points to, if the handle is current.
    pub fn destroy_direct(&mut self, entity: EntityDirect<A>) -> (r: Option<C>)
        requires
            old(self).wf(),
            (entity.spec_version() == old(self).spec_version() && entity.spec_index()
                < old(self).spec_entities().len()) ==> old(self).spec_version() < u32::MAX,
        ensures
            final(self).wf(),
            r is Some <==> (entity.spec_version() == old(self).spec_version() && entity.spec_index()
                < old(self).spec_entities().len()),
            r matches Some(c) ==> {
                let e = old(self).spec_entities()[entity.spec_index() as int];
                &&& c == old(self)@[e]
                &&& final(self)@ == old(self)@.remove(e)
                &&& final(self).spec_stale(e)
                &&& final(self).spec_destroyed() == old(self).spec_destroyed().push(e)
            },
            r is None ==> final(self)@ == old(self)@ && final(self).spec_entities()
                == old(self).spec_entities() && final(self).spec_destroyed() == old(self).spec_destroyed(),
            final(self).spec_created() == old(self).spec_created(),
            final(self).spec_capacity() == old(self).spec_capacity(),
            Self::stale_kept(&*old(self), &*final(self)),
    {
        match self.direct_entity(entity) {
            Some(e) => self.destroy(e),
            None => None,
        }
    }
}

impl<C, const A: u8> Storage<C, A> {
    /// Mutable access to the components of a live entity.
    pub fn get_mut(&mut self, entity: Entity<A>) -> (r: Option<&mut C>)
        requires
            old(self).wf(),
        ensures
            r is Some <==> old(self)@.contains_key(entity),
            r matches Some(c) ==> *c == old(self)@[entity],
            r matches Some(c) ==> final(self).spec_data() == old(self).spec_data().update(
                old(self).spec_position(entity),
                *final(c),
            ),
            final(self).spec_entities() == old(self).spec_entities(),
            final(self).spec_capacity() == old(self).spec_capacity(),
            final(self).spec_version() == old(self).spec_version(),
            final(self).spec_created() == old(self).spec_created(),
            final(self).spec_destroyed() == old(self).spec_destroyed(),
            Self::stale_kept(&*old(self), &*final(self)),
            final(self).wf(),
            r matches Some(c) ==> final(self)@ == old(self)@.insert(entity, *final(c)),
            r is None ==> final(self)@ == old(self)@,
    {
        proof {
            self.lemma_view_dense();
        }
        match self.resolve(entity) {
            Some(index) => Some(&mut self.data[index]),
            None => None,
        }
    }

    /// Mutable access to the components at a dense position, the way an
    /// iteration over the storage visits them.
    pub fn get_mut_at(&mut self, index: usize) -> (r: &mut C)
        requires
            old(self).wf(),
            index < old(self).spec_data().len(),
        ensures
            *r == old(self).spec_data()[index as int],
            final(self).spec_data() == old(self).spec_data().update(index as int, *final(r)),
            final(self).spec_entities() == old(self).spec_entities(),
            final(self).spec_capacity() == old(self).spec_capacity(),
            final(self).spec_version() == old(self).spec_version(),
            final(self).spec_created() == old(self).spec_created(),
            final(self).spec_destroyed() == old(self).spec_destroyed(),
            Self::stale_kept(&*old(self), &*final(self)),
            final(self).wf(),
            final(self)@ == old(self)@.insert(old(self).spec_entities()[index as int], *final(r)),
    {
        proof {
            self.lemma_view_dense();
        }
        &mut self.data[index]
    }
}

impl<C, const A: u8> Storage<C, A> {
    /// Carries out one visit of a destroying walk that goes backwards over
    /// the dense positions: destroys the entity at `index` if the step asks
    /// for it, and says where the walk goes next.
    ///
    /// A removal moves only the last entity into the hole, so the positions
    /// below `index`, which the walk has yet to visit, keep their entities:
    /// each entity is visited exactly once.
    pub fn walk_back_step(&mut self, index: usize, step: EcsStepDestroy) -> (r: EcsWalk)
        requires
            old(self).wf(),
            index < old(self).spec_entities().len(),
            step.spec_destroys() ==> old(self).spec_version() < u32::MAX,
        ensures
            final(self).wf(),
            r == (if step.spec_breaks() {
                EcsWalk::Stopped
            } else if index == 0 {
                EcsWalk::Finished
            } else {
                EcsWalk::Next((index - 1) as usize)
            }),
            final(self).spec_entities().take(index as int) == old(self).spec_entities().take(index as int),
            final(self).spec_data().take(index as int) == old(self).spec_data().take(index as int),
            step.spec_destroys() ==> {
                let e = old(self).spec_entities()[index as int];
                &&& final(self)@ == old(self)@.remove(e)
                &&& final(self).spec_entities().len() == old(self).spec_entities().len() - 1
                &&& final(self).spec_stale(e)
                &&& final(self).spec_version() == old(self).spec_version() + 1
                &&& final(self).spec_destroyed() == old(self).spec_destroyed().push(e)
            },
            !step.spec_destroys() ==> {
                &&& final(self)@ == old(self)@
                &&& final(self).spec_entities() == old(self).spec_entities()
                &&& final(self).spec_data() == old(self).spec_data()
                &&& final(self).spec_version() == old(self).spec_version()
                &&& final(self).spec_destroyed() == old(self).spec_destroyed()
            },
            final(self).spec_created() == old(self).spec_created(),
            final(self).spec_capacity() == old(self).spec_capacity(),
            Self::stale_kept(&*old(self), &*final(self)),
    {
        proof {
            self.lemma_view_dense();
        }
        if step.destroys() {
            let entity = self.entities[index];
            let ghost es = self.entities@;
            let ghost ds = self.data@;
            self.destroy(entity);
            proof {
                assert(swap_removed(es, index as int).take(index as int) =~= es.take(index as int));
                assert(swap_removed(ds, index as int).take(index as int) =~= ds.take(index as int));
            }
        }
        match step {
            EcsStepDestroy::Break | EcsStepDestroy::BreakDestroy => EcsWalk::Stopped,
            _ => {
                if index == 0 {
                    EcsWalk::Finished
                } else {
                    EcsWalk::Next(index - 1)
                }
            },
        }
    }
}

impl<C, const A: u8> Default for Storage<C, A> {
    /// An empty storage of capacity zero.
    fn default() -> (r: Self)
        ensures
            r.wf(),
            r@ == Map::<Entity<A>, C>::empty(),
            r.spec_capacity() == 0,
            r.spec_version() == VERSION_START,
    {
        Storage::new()
    }
}

impl<C, const A: u8> View for Storage<C, A> {
    type V = Map<Entity<A>, C>;

    /// Every live handle, mapped to its entity's components.
    closed spec fn view(&self) -> Map<Entity<A>, C> {
        Map::new(|e: Entity<A>| self.resolves(e), |e: Entity<A>| self.data@[self.slot_raw(e.spec_index() as int) as int])
    }
}

} // verus!
