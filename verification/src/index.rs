use vstd::prelude::*;

verus! {

/// How many bits of a `u32` entity index are reserved for the archetype ID.
pub const ARCHETYPE_ID_BITS: u32 = 8;

/// The number of data cells an archetype can address (`1 << 24`).
pub const MAX_DATA_CAPACITY: u32 = 16777216;

/// The largest valid data index.
pub const MAX_DATA_INDEX: u32 = 16777215;

/// A size-checked index that can always fit in an entity and a live slot.
#[derive(Clone, Copy, Debug, PartialEq, Eq)]
pub struct TrimmedIndex(u32);

impl TrimmedIndex {
    #[verifier::type_invariant]
    spec fn in_bounds(self) -> bool {
        self.0 < MAX_DATA_CAPACITY
    }

    /// The integer this index stands for.
    pub closed spec fn spec_value(self) -> u32 {
        self.0
    }

    /// Creates a `TrimmedIndex` pointing to zero.
    pub fn zero() -> (r: Self)
        ensures
            r.spec_value() == 0,
    {
        TrimmedIndex(0)
    }

    /// Creates a new `TrimmedIndex` if the given index is within bounds.
    pub fn new_u32(index: u32) -> (r: Option<Self>)
        ensures
            r is Some <==> index < MAX_DATA_CAPACITY,
            r matches Some(t) ==> t.spec_value() == index,
    {
        if index < MAX_DATA_CAPACITY {
            Some(TrimmedIndex(index))
        } else {
            None
        }
    }

    /// Creates a new `TrimmedIndex` if the given index is within bounds.
    pub fn new_usize(index: usize) -> (r: Option<Self>)
        ensures
            r is Some <==> index < MAX_DATA_CAPACITY,
            r matches Some(t) ==> t.spec_value() == index,
    {
        if index < MAX_DATA_CAPACITY as usize {
            Some(TrimmedIndex(index as u32))
        } else {
            None
        }
    }

    /// The index as a `u32`.
    pub fn get(&self) -> (r: u32)
        ensures
            r == self.spec_value(),
            r < MAX_DATA_CAPACITY,
    {
        proof { use_type_invariant(self); }
        self.0
    }

    /// The index as a `usize`.
    pub fn get_usize(&self) -> (r: usize)
        ensures
            r == self.spec_value(),
            r < MAX_DATA_CAPACITY,
    {
        proof { use_type_invariant(self); }
        self.0 as usize
    }
}

} // verus!
