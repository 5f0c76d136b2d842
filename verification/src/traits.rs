use vstd::prelude::*;

use crate::entity::{ArchetypeId, Entity, EntityAny, EntityDirect, EntityDirectAny};
use crate::index::MAX_DATA_CAPACITY;
use crate::storage::Storage;
use crate::version::VersionArchetype;

verus! {

/// A handle type that identifies an entity: typed or untyped, through its
/// slot or directly through its dense position.
pub trait EntityKey: Copy {
    /// The direct handle this key converts to.
    type DirectOutput;
}

impl<const A: u8> EntityKey for Entity<A> {
    type DirectOutput = EntityDirect<A>;
}

impl<const A: u8> EntityKey for EntityDirect<A> {
    type DirectOutput = EntityDirect<A>;
}

impl EntityKey for EntityAny {
    type DirectOutput = EntityDirectAny;
}

impl EntityKey for EntityDirectAny {
    type DirectOutput = EntityDirectAny;
}

/// A storage that can resolve handles of type `K` to its entities.
pub trait StorageCanResolve<K: EntityKey> {
    /// What destroying an entity hands back.
    type Components;

    /// The storage's internal consistency.
    spec fn resolve_wf(&self) -> bool;

    /// The dense position the key resolves to, if any.
    spec fn spec_resolve_for(&self, entity: K) -> Option<int>;

    /// Whether destroying through this key stays within the version limits.
    spec fn can_destroy(&self, entity: K) -> bool;

    /// Resolves the key to a dense position.
    fn resolve_for(&self, entity: K) -> (r: Option<usize>)
        requires
            self.resolve_wf(),
        ensures
            r matches Some(i) ==> self.spec_resolve_for(entity) == Some(i as int),
            r is None ==> self.spec_resolve_for(entity) is None,
    ;

    /// Converts the key to a direct handle, if it resolves.
    fn resolve_direct(&self, entity: K) -> (r: Option<K::DirectOutput>)
        requires
            self.resolve_wf(),
        ensures
            r is Some <==> self.spec_resolve_for(entity) is Some,
    ;

    /// Destroys the entity the key resolves to, if any.
    fn resolve_destroy(&mut self, entity: K) -> (r: Option<Self::Components>)
        requires
            old(self).resolve_wf(),
            old(self).can_destroy(entity),
        ensures
            final(self).resolve_wf(),
            r is Some <==> old(self).spec_resolve_for(entity) is Some,
    ;
}

impl<C, const A: u8> StorageCanResolve<Entity<A>> for Storage<C, A> {
    type Components = C;

    open spec fn resolve_wf(&self) -> bool {
        self.wf()
    }

    open spec fn spec_resolve_for(&self, entity: Entity<A>) -> Option<int> {
        if self@.contains_key(entity) {
            Some(self.spec_position(entity))
        } else {
            None
        }
    }

    open spec fn can_destroy(&self, entity: Entity<A>) -> bool {
        self@.contains_key(entity) ==> self.spec_version() < u32::MAX
    }

    fn resolve_for(&self, entity: Entity<A>) -> (r: Option<usize>) {
        Storage::resolve(self, entity)
    }

    fn resolve_direct(&self, entity: Entity<A>) -> (r: Option<EntityDirect<A>>)
        ensures
            r matches Some(d) ==> d.spec_index() == self.spec_position(entity) && d.spec_version()
                == self.spec_version(),
    {
        Storage::to_direct(self, entity)
    }

    fn resolve_destroy(&mut self, entity: Entity<A>) -> (r: Option<C>)
        ensures
            final(self)@ == old(self)@.remove(entity),
            r matches Some(c) ==> c == old(self)@[entity],
    {
        Storage::destroy(self, entity)
    }
}

impl<C, const A: u8> StorageCanResolve<EntityDirect<A>> for Storage<C, A> {
    type Components = C;

    open spec fn resolve_wf(&self) -> bool {
        self.wf()
    }

    open spec fn spec_resolve_for(&self, entity: EntityDirect<A>) -> Option<int> {
        if entity.spec_version() == self.spec_version() && entity.spec_index() < self.spec_entities().len() {
            Some(entity.spec_index() as int)
        } else {
            None
        }
    }

    open spec fn can_destroy(&self, entity: EntityDirect<A>) -> bool {
        (entity.spec_version() == self.spec_version() && entity.spec_index() < self.spec_entities().len())
            ==> self.spec_version() < u32::MAX
    }

    fn resolve_for(&self, entity: EntityDirect<A>) -> (r: Option<usize>) {
        Storage::resolve_direct_key(self, entity)
    }

    fn resolve_direct(&self, entity: EntityDirect<A>) -> (r: Option<EntityDirect<A>>)
        ensures
            r matches Some(d) ==> d == entity,
    {
        match Storage::resolve_direct_key(self, entity) {
            Some(_) => Some(entity),
            None => None,
        }
    }

    fn resolve_destroy(&mut self, entity: EntityDirect<A>) -> (r: Option<C>) {
        Storage::destroy_direct(self, entity)
    }
}

/// An archetype: the storage of every entity that has one fixed set of
/// components, identified at runtime by the archetype ID `A`.
pub trait Archetype<const A: u8>: Sized {
    /// The components every entity of this archetype has.
    type Components;

    /// The archetype's internal consistency.
    spec fn archetype_wf(&self) -> bool;

    /// Every live entity, mapped to its components.
    spec fn archetype_view(&self) -> Map<Entity<A>, Self::Components>;

    /// The capacity available before the archetype must grow.
    spec fn archetype_capacity(&self) -> nat;

    /// The overall version of the archetype.
    spec fn archetype_version(&self) -> u32;

    /// The entities created since the events were last cleared, in order.
    spec fn archetype_created(&self) -> Seq<Entity<A>>;

    /// The entities destroyed since the events were last cleared, in order.
    spec fn archetype_destroyed(&self) -> Seq<Entity<A>>;

    /// Whether destroying the entity stays within the version limits.
    spec fn can_destroy_entity(&self, entity: Entity<A>) -> bool;

    /// The archetype's runtime ID.
    fn archetype_id() -> (r: ArchetypeId)
        ensures
            r == A,
    ;

    /// An empty archetype.
    fn new() -> (r: Self)
        ensures
            r.archetype_wf(),
            r.archetype_view() == Map::<Entity<A>, Self::Components>::empty(),
    ;

    /// An empty archetype with room for `capacity` entities.
    fn with_capacity(capacity: usize) -> (r: Self)
        requires
            capacity <= MAX_DATA_CAPACITY,
        ensures
            r.archetype_wf(),
            r.archetype_view() == Map::<Entity<A>, Self::Components>::empty(),
            r.archetype_capacity() == capacity,
    ;

    /// The number of live entities.
    fn len(&self) -> (r: usize)
        requires
            self.archetype_wf(),
        ensures
            r == self.archetype_view().len(),
    ;

    /// The capacity available before the archetype must grow.
    fn capacity(&self) -> (r: usize)
        ensures
            r == self.archetype_capacity(),
    ;

    /// Whether no entity is live.
    fn is_empty(&self) -> (r: bool)
        requires
            self.archetype_wf(),
        ensures
            r == (self.archetype_view().len() == 0),
    ;

    /// The overall version of the archetype, advanced on every removal.
    fn version(&self) -> (r: VersionArchetype)
        ensures
            r@ == self.archetype_version(),
    ;

    /// The live entities, in dense order.
    fn entities(&self) -> (r: &[Entity<A>])
        requires
            self.archetype_wf(),
        ensures
            r@.len() == self.archetype_view().len(),
            forall|i: int| 0 <= i < r@.len() ==> self.archetype_view().contains_key(#[trigger] r@[i]),
    ;

    /// Adds an entity with the given components, growing when full.
    fn create(&mut self, components: Self::Components) -> (r: Entity<A>)
        requires
            old(self).archetype_wf(),
            old(self).archetype_view().len() < MAX_DATA_CAPACITY,
        ensures
            final(self).archetype_wf(),
            !old(self).archetype_view().contains_key(r),
            final(self).archetype_view() == old(self).archetype_view().insert(r, components),
            final(self).archetype_created() == old(self).archetype_created().push(r),
            final(self).archetype_destroyed() == old(self).archetype_destroyed(),
    ;

    /// Adds an entity if there is spare capacity; hands the components back otherwise.
    fn create_within_capacity(&mut self, components: Self::Components) -> (r: Result<Entity<A>, Self::Components>)
        requires
            old(self).archetype_wf(),
        ensures
            final(self).archetype_wf(),
            r is Err <==> old(self).archetype_view().len() == old(self).archetype_capacity(),
            r matches Err(c) ==> c == components && final(self).archetype_view() == old(self).archetype_view(),
            r matches Ok(e) ==> !old(self).archetype_view().contains_key(e) && final(self).archetype_view()
                == old(self).archetype_view().insert(e, components),
    ;

    /// Whether the entity is live here.
    fn contains(&self, entity: Entity<A>) -> (r: bool)
        requires
            self.archetype_wf(),
        ensures
            r == self.archetype_view().contains_key(entity),
    ;

    /// Removes the entity if it is live, returning its components.
    fn destroy(&mut self, entity: Entity<A>) -> (r: Option<Self::Components>)
        requires
            old(self).archetype_wf(),
            old(self).can_destroy_entity(entity),
        ensures
            final(self).archetype_wf(),
            r is Some <==> old(self).archetype_view().contains_key(entity),
            r matches Some(c) ==> c == old(self).archetype_view()[entity],
            final(self).archetype_view() == old(self).archetype_view().remove(entity),
            final(self).archetype_created() == old(self).archetype_created(),
            final(self).archetype_destroyed() == if r is Some {
                old(self).archetype_destroyed().push(entity)
            } else {
                old(self).archetype_destroyed()
            },
    ;

    /// The entities created since the events were last cleared, in order.
    fn created(&self) -> (r: &[Entity<A>])
        ensures
            r@ == self.archetype_created(),
    ;

    /// The entities destroyed since the events were last cleared, in order.
    fn destroyed(&self) -> (r: &[Entity<A>])
        ensures
            r@ == self.archetype_destroyed(),
    ;

    /// Forgets every creation and destruction event.
    fn clear_events(&mut self)
        requires
            old(self).archetype_wf(),
        ensures
            final(self).archetype_wf(),
            final(self).archetype_view() == old(self).archetype_view(),
            final(self).archetype_created() == Seq::<Entity<A>>::empty(),
            final(self).archetype_destroyed() == Seq::<Entity<A>>::empty(),
    ;
}

impl<C, const A: u8> Archetype<A> for Storage<C, A> {
    type Components = C;

    open spec fn archetype_wf(&self) -> bool {
        self.wf()
    }

    open spec fn archetype_view(&self) -> Map<Entity<A>, C> {
        self@
    }

    open spec fn archetype_capacity(&self) -> nat {
        self.spec_capacity()
    }

    open spec fn archetype_version(&self) -> u32 {
        self.spec_version()
    }

    open spec fn archetype_created(&self) -> Seq<Entity<A>> {
        self.spec_created()
    }

    open spec fn archetype_destroyed(&self) -> Seq<Entity<A>> {
        self.spec_destroyed()
    }

    open spec fn can_destroy_entity(&self, entity: Entity<A>) -> bool {
        self@.contains_key(entity) ==> self.spec_version() < u32::MAX
    }

    fn archetype_id() -> (r: ArchetypeId) {
        A
    }

    fn new() -> (r: Self) {
        Storage::new()
    }

    fn with_capacity(capacity: usize) -> (r: Self) {
        Storage::with_capacity(capacity)
    }

    fn len(&self) -> (r: usize) {
        Storage::len(self)
    }

    fn capacity(&self) -> (r: usize) {
        Storage::capacity(self)
    }

    fn is_empty(&self) -> (r: bool) {
        Storage::is_empty(self)
    }

    fn version(&self) -> (r: VersionArchetype) {
        Storage::version(self)
    }

    fn entities(&self) -> (r: &[Entity<A>]) {
        proof {
            self.lemma_view_dense();
            self.lemma_view_len();
        }
        Storage::entities(self)
    }

    fn create(&mut self, components: C) -> (r: Entity<A>) {
        proof {
            self.lemma_view_len();
        }
        self.push(components)
    }

    fn create_within_capacity(&mut self, components: C) -> (r: Result<Entity<A>, C>) {
        proof {
            self.lemma_view_len();
        }
        self.push_within_capacity(components)
    }

    fn contains(&self, entity: Entity<A>) -> (r: bool) {
        Storage::contains(self, entity)
    }

    fn destroy(&mut self, entity: Entity<A>) -> (r: Option<C>) {
        Storage::destroy(self, entity)
    }

    fn created(&self) -> (r: &[Entity<A>]) {
        Storage::created(self)
    }

    fn destroyed(&self) -> (r: &[Entity<A>]) {
        Storage::destroyed(self)
    }

    fn clear_events(&mut self) {
        Storage::clear_events(self)
    }
}

} // verus!
