use vstd::prelude::*;

use crate::error::EcsError;
use crate::index::{TrimmedIndex, MAX_DATA_CAPACITY};
use crate::version::VERSION_START;

verus! {

/// The runtime identifier of an archetype within a world.
pub type ArchetypeId = u8;

/// The packed form `[ index (24 bits) | archetype id (8 bits) ]` of an entity.
pub open spec fn pack(index: u32, archetype_id: u8) -> u32 {
    ((index as int) * 256 + (archetype_id as int)) as u32
}

/// Packing an in-range index with an archetype ID, then unpacking, gives both back.
proof fn lemma_pack(index: u32, archetype_id: u8)
    requires
        index < MAX_DATA_CAPACITY,
    ensures
        ((index << 8u32) | (archetype_id as u32)) == pack(index, archetype_id),
        pack(index, archetype_id) >> 8u32 == index,
        pack(index, archetype_id) as u8 == archetype_id,
{
    let a = archetype_id as u32;
    assert(((index << 8u32) | a) == ((index * 256 + a) as u32) && ((index * 256 + a) as u32)
        >> 8u32 == index && ((index * 256 + a) as u32) as u8 == a as u8) by (bit_vector)
        requires
            index < 0x100_0000u32,
            a < 256u32,
    ;
}

/// Any packed word splits into an in-range index and an archetype ID.
proof fn lemma_unpack(data: u32)
    ensures
        data >> 8u32 < MAX_DATA_CAPACITY,
        pack(data >> 8u32, data as u8) == data,
{
    assert(data >> 8u32 < 0x100_0000u32 && (((data >> 8u32) * 256 + ((data as u8) as u32))
        as u32) == data) by (bit_vector);
}

/// A dynamically typed handle to an entity of some runtime archetype.
///
/// As a data structure, an entity has two parts -- a slot index and a
/// generational version number. The slot index is used by the archetype data
/// structure to find the entity's component data, and the version number is
/// used to safely avoid attempts to access data for a stale handle. The
/// archetype ID shares a word with the index.
#[derive(Clone, Copy, PartialEq, Eq, Structural, Hash, Debug)]
pub struct EntityAny {
    data: u32,
    version: u32,
}

impl EntityAny {
    #[verifier::type_invariant]
    spec fn version_nonzero(self) -> bool {
        self.version >= VERSION_START
    }

    /// The slot index this entity points to.
    pub closed spec fn spec_index(self) -> u32 {
        self.data >> 8u32
    }

    /// The archetype this entity belongs to.
    pub closed spec fn spec_archetype_id(self) -> u8 {
        self.data as u8
    }

    /// The generational version of this entity.
    pub closed spec fn spec_version(self) -> u32 {
        self.version
    }

    /// The raw representation `(packed index and archetype, version)`.
    pub closed spec fn spec_raw(self) -> (u32, u32) {
        (self.data, self.version)
    }

    /// Every entity's index is in range.
    pub broadcast proof fn lemma_index_bounded(self)
        ensures
            #[trigger] self.spec_index() < MAX_DATA_CAPACITY,
    {
        lemma_unpack(self.data);
    }

    /// Entities are equal exactly when their index, archetype and version agree.
    pub proof fn lemma_eq_parts(self, other: EntityAny)
        ensures
            (self == other) <==> (self.spec_index() == other.spec_index()
                && self.spec_archetype_id() == other.spec_archetype_id() && self.spec_version()
                == other.spec_version()),
    {
        lemma_unpack(self.data);
        lemma_unpack(other.data);
    }

    /// Builds an entity from its slot index, archetype and version.
    pub(crate) fn new(index: TrimmedIndex, archetype_id: ArchetypeId, version: u32) -> (r: Self)
        requires
            version >= VERSION_START,
        ensures
            r.spec_index() == index.spec_value(),
            r.spec_archetype_id() == archetype_id,
            r.spec_version() == version,
    {
        let index = index.get();
        let archetype_id32: u32 = archetype_id as u32;
        proof {
            lemma_pack(index, archetype_id);
        }
        let data = (index << 8u32) | archetype_id32;
        EntityAny { data, version }
    }

    /// The slot index this entity points to.
    pub fn index(&self) -> (r: TrimmedIndex)
        ensures
            r.spec_value() == self.spec_index(),
    {
        proof {
            lemma_unpack(self.data);
        }
        TrimmedIndex::new_u32(self.data >> 8u32).unwrap()
    }

    /// The generational version of this entity, which is never zero.
    pub fn version(&self) -> (r: u32)
        ensures
            r == self.spec_version(),
            r >= VERSION_START,
    {
        proof {
            use_type_invariant(self);
        }
        self.version
    }

    /// Returns this entity's raw `ARCHETYPE_ID` value.
    ///
    /// This is the same `ARCHETYPE_ID` as the archetype this entity belongs to.
    pub fn archetype_id(self) -> (r: ArchetypeId)
        ensures
            r == self.spec_archetype_id(),
    {
        self.data as u8
    }

    /// Returns the raw data of this entity, for storage outside the world.
    pub fn raw(self) -> (r: (u32, u32))
        ensures
            r == self.spec_raw(),
    {
        (self.data, self.version)
    }

    /// Rebuilds an entity from raw data. Fails if the version is zero, which
    /// no live entity can have.
    pub fn from_raw(raw: (u32, u32)) -> (r: Result<EntityAny, EcsError>)
        ensures
            r is Err <==> raw.1 == 0,
            r matches Err(e) ==> e == EcsError::InvalidRawEntity,
            r matches Ok(e) ==> e.spec_raw() == raw,
    {
        if raw.1 == 0 {
            Err(EcsError::InvalidRawEntity)
        } else {
            Ok(EntityAny { data: raw.0, version: raw.1 })
        }
    }
}

/// A statically typed handle to an entity of the archetype with ID `A`.
///
/// On its own, this key does very little. Its primary purpose is to provide
/// indexed access to component data within an ECS world and its archetypes.
#[derive(Clone, Copy, Eq, Hash, Debug)]
pub struct Entity<const A: u8> {
    inner: EntityAny,
}

impl<const A: u8> Entity<A> {
    #[verifier::type_invariant]
    spec fn of_archetype(self) -> bool {
        self.inner.spec_archetype_id() == A
    }

    /// The untyped handle inside.
    pub closed spec fn spec_any(self) -> EntityAny {
        self.inner
    }

    /// The slot index this entity points to.
    pub open spec fn spec_index(self) -> u32 {
        self.spec_any().spec_index()
    }

    /// The generational version of this entity.
    pub open spec fn spec_version(self) -> u32 {
        self.spec_any().spec_version()
    }

    /// Whether the handle carries archetype ID `A`, which every handle built
    /// by this library does.
    pub open spec fn spec_well_typed(self) -> bool {
        self.spec_any().spec_archetype_id() == A
    }

    /// Typed handles are equal exactly when their index and version agree.
    pub proof fn lemma_eq_parts(self, other: Self)
        requires
            self.spec_well_typed(),
            other.spec_well_typed(),
        ensures
            (self == other) <==> (self.spec_index() == other.spec_index() && self.spec_version()
                == other.spec_version()),
    {
        self.inner.lemma_eq_parts(other.inner);
    }

    /// Builds a typed entity from its slot index and version.
    pub(crate) fn new(index: TrimmedIndex, version: u32) -> (r: Self)
        requires
            version >= VERSION_START,
        ensures
            r.spec_index() == index.spec_value(),
            r.spec_version() == version,
            r.spec_well_typed(),
    {
        Entity { inner: EntityAny::new(index, A, version) }
    }

    /// The slot index this entity points to.
    pub(crate) fn index(&self) -> (r: TrimmedIndex)
        ensures
            r.spec_value() == self.spec_index(),
    {
        self.inner.index()
    }

    /// The generational version of this entity, which is never zero.
    pub(crate) fn version(&self) -> (r: u32)
        ensures
            r == self.spec_version(),
            r >= VERSION_START,
            self.spec_well_typed(),
    {
        proof {
            use_type_invariant(self);
        }
        self.inner.version()
    }

    /// Creates a new typed entity from an `EntityAny`.
    ///
    /// The given `EntityAny` must be an entity of this archetype; see
    /// `try_from_any` for a checked conversion.
    pub fn from_any(entity: EntityAny) -> (r: Self)
        requires
            entity.spec_archetype_id() == A,
        ensures
            r.spec_any() == entity,
    {
        Entity { inner: entity }
    }

    /// Converts an `EntityAny` if it belongs to this archetype.
    pub fn try_from_any(entity: EntityAny) -> (r: Result<Self, EcsError>)
        ensures
            r is Ok <==> entity.spec_archetype_id() == A,
            r matches Ok(t) ==> t.spec_any() == entity,
            r matches Err(e) ==> e == EcsError::InvalidEntityType,
    {
        if entity.archetype_id() == A {
            Ok(Entity { inner: entity })
        } else {
            Err(EcsError::InvalidEntityType)
        }
    }

    /// Returns this entity's raw `ARCHETYPE_ID` value.
    ///
    /// This is the same `ARCHETYPE_ID` as the archetype this entity belongs to.
    pub fn archetype_id(self) -> (r: ArchetypeId)
        ensures
            r == A,
    {
        A
    }

    /// Returns the untyped form of this handle.
    pub fn into_any(self) -> (r: EntityAny)
        ensures
            r == self.spec_any(),
            r.spec_archetype_id() == A,
    {
        proof {
            use_type_invariant(&self);
        }
        self.inner
    }
}

/// A handle that addresses an entity by its dense position in an archetype,
/// valid only while the archetype's overall version is unchanged.
#[derive(Clone, Copy, PartialEq, Eq, Structural, Hash, Debug)]
pub struct EntityDirectAny {
    data: u32,
    version: u32,
}

impl EntityDirectAny {
    #[verifier::type_invariant]
    spec fn version_nonzero(self) -> bool {
        self.version >= VERSION_START
    }

    /// The dense data index this handle points to.
    pub closed spec fn spec_index(self) -> u32 {
        self.data >> 8u32
    }

    /// The archetype this handle belongs to.
    pub closed spec fn spec_archetype_id(self) -> u8 {
        self.data as u8
    }

    /// The archetype version this handle was made at.
    pub closed spec fn spec_version(self) -> u32 {
        self.version
    }

    /// Builds a direct handle from a dense index, archetype and archetype version.
    pub(crate) fn new(index: TrimmedIndex, archetype_id: ArchetypeId, version: u32) -> (r: Self)
        requires
            version >= VERSION_START,
        ensures
            r.spec_index() == index.spec_value(),
            r.spec_archetype_id() == archetype_id,
            r.spec_version() == version,
    {
        let index = index.get();
        let archetype_id32: u32 = archetype_id as u32;
        proof {
            lemma_pack(index, archetype_id);
        }
        let data = (index << 8u32) | archetype_id32;
        EntityDirectAny { data, version }
    }

    /// The dense data index this handle points to.
    pub fn index(&self) -> (r: TrimmedIndex)
        ensures
            r.spec_value() == self.spec_index(),
    {
        proof {
            lemma_unpack(self.data);
        }
        TrimmedIndex::new_u32(self.data >> 8u32).unwrap()
    }

    /// The archetype version this handle was made at.
    pub fn version(&self) -> (r: u32)
        ensures
            r == self.spec_version(),
            r >= VERSION_START,
    {
        proof {
            use_type_invariant(self);
        }
        self.version
    }

    /// Returns this handle's raw `ARCHETYPE_ID` value.
    pub fn archetype_id(self) -> (r: ArchetypeId)
        ensures
            r == self.spec_archetype_id(),
    {
        self.data as u8
    }
}

/// A statically typed direct handle to an entity of the archetype with ID `A`.
#[derive(Clone, Copy, Eq, Hash, Debug)]
pub struct EntityDirect<const A: u8> {
    inner: EntityDirectAny,
}

impl<const A: u8> EntityDirect<A> {
    #[verifier::type_invariant]
    spec fn of_archetype(self) -> bool {
        self.inner.spec_archetype_id() == A
    }

    /// The untyped handle inside.
    pub closed spec fn spec_any(self) -> EntityDirectAny {
        self.inner
    }

    /// The dense data index this handle points to.
    pub open spec fn spec_index(self) -> u32 {
        self.spec_any().spec_index()
    }

    /// The archetype version this handle was made at.
    pub open spec fn spec_version(self) -> u32 {
        self.spec_any().spec_version()
    }

    /// Builds a typed direct handle from a dense index and archetype version.
    pub(crate) fn new(index: TrimmedIndex, version: u32) -> (r: Self)
        requires
            version >= VERSION_START,
        ensures
            r.spec_index() == index.spec_value(),
            r.spec_version() == version,
    {
        EntityDirect { inner: EntityDirectAny::new(index, A, version) }
    }

    /// The dense data index this handle points to.
    pub(crate) fn index(&self) -> (r: TrimmedIndex)
        ensures
            r.spec_value() == self.spec_index(),
    {
        self.inner.index()
    }

    /// The archetype version this handle was made at.
    pub(crate) fn version(&self) -> (r: u32)
        ensures
            r == self.spec_version(),
    {
        self.inner.version()
    }

    /// Converts an `EntityDirectAny` if it belongs to this archetype.
    pub fn try_from_any(entity: EntityDirectAny) -> (r: Result<Self, EcsError>)
        ensures
            r is Ok <==> entity.spec_archetype_id() == A,
            r matches Ok(t) ==> t.spec_any() == entity,
            r matches Err(e) ==> e == EcsError::InvalidEntityType,
    {
        if entity.archetype_id() == A {
            Ok(EntityDirect { inner: entity })
        } else {
            Err(EcsError::InvalidEntityType)
        }
    }

    /// Returns this handle's raw `ARCHETYPE_ID` value.
    pub fn archetype_id(self) -> (r: ArchetypeId)
        ensures
            r == A,
    {
        A
    }

    /// Returns the untyped form of this handle.
    pub fn into_any(self) -> (r: EntityDirectAny)
        ensures
            r == self.spec_any(),
            r.spec_archetype_id() == A,
    {
        proof {
            use_type_invariant(&self);
        }
        self.inner
    }
}

impl<const A: u8> PartialEq for Entity<A> {
    fn eq(&self, other: &Self) -> (r: bool) {
        self.inner == other.inner
    }
}

impl<const A: u8> vstd::std_specs::cmp::PartialEqSpecImpl for Entity<A> {
    open spec fn obeys_eq_spec() -> bool {
        true
    }

    open spec fn eq_spec(&self, other: &Self) -> bool {
        *self == *other
    }
}

impl<const A: u8> PartialEq for EntityDirect<A> {
    fn eq(&self, other: &Self) -> (r: bool) {
        self.inner == other.inner
    }
}

impl<const A: u8> vstd::std_specs::cmp::PartialEqSpecImpl for EntityDirect<A> {
    open spec fn obeys_eq_spec() -> bool {
        true
    }

    open spec fn eq_spec(&self, other: &Self) -> bool {
        *self == *other
    }
}


impl<const A: u8> From<Entity<A>> for EntityAny {
    fn from(entity: Entity<A>) -> (r: Self) {
        entity.into_any()
    }
}

impl<const A: u8> vstd::std_specs::convert::FromSpecImpl<Entity<A>> for EntityAny {
    open spec fn obeys_from_spec() -> bool {
        true
    }

    open spec fn from_spec(v: Entity<A>) -> Self {
        v.spec_any()
    }
}

impl<const A: u8> TryFrom<EntityAny> for Entity<A> {
    type Error = EcsError;

    fn try_from(entity: EntityAny) -> (r: Result<Self, EcsError>)
        ensures
            r is Ok <==> entity.spec_archetype_id() == A,
            r matches Ok(t) ==> t.spec_any() == entity,
            r matches Err(e) ==> e == EcsError::InvalidEntityType,
    {
        Self::try_from_any(entity)
    }
}

impl<const A: u8> vstd::std_specs::convert::TryFromSpecImpl<EntityAny> for Entity<A> {
    open spec fn obeys_try_from_spec() -> bool {
        true
    }

    closed spec fn try_from_spec(v: EntityAny) -> Result<Self, EcsError> {
        if v.spec_archetype_id() == A {
            Ok(Entity { inner: v })
        } else {
            Err(EcsError::InvalidEntityType)
        }
    }
}

impl<const A: u8> From<EntityDirect<A>> for EntityDirectAny {
    fn from(entity: EntityDirect<A>) -> (r: Self) {
        entity.into_any()
    }
}

impl<const A: u8> vstd::std_specs::convert::FromSpecImpl<EntityDirect<A>> for EntityDirectAny {
    open spec fn obeys_from_spec() -> bool {
        true
    }

    open spec fn from_spec(v: EntityDirect<A>) -> Self {
        v.spec_any()
    }
}

impl<const A: u8> TryFrom<EntityDirectAny> for EntityDirect<A> {
    type Error = EcsError;

    fn try_from(entity: EntityDirectAny) -> (r: Result<Self, EcsError>)
        ensures
            r is Ok <==> entity.spec_archetype_id() == A,
            r matches Ok(t) ==> t.spec_any() == entity,
            r matches Err(e) ==> e == EcsError::InvalidEntityType,
    {
        Self::try_from_any(entity)
    }
}

impl<const A: u8> vstd::std_specs::convert::TryFromSpecImpl<EntityDirectAny> for EntityDirect<A> {
    open spec fn obeys_try_from_spec() -> bool {
        true
    }

    closed spec fn try_from_spec(v: EntityDirectAny) -> Result<Self, EcsError> {
        if v.spec_archetype_id() == A {
            Ok(EntityDirect { inner: v })
        } else {
            Err(EcsError::InvalidEntityType)
        }
    }
}


/// Turning an entity into raw data and back gives the same entity.
pub proof fn lemma_raw_round_trip(entity: EntityAny)
    ensures
        forall|e: EntityAny| #[trigger] e.spec_raw() == entity.spec_raw() ==> e == entity,
{
}

} // verus!
