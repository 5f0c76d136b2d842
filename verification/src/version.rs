use vstd::prelude::*;

verus! {

/// The version every slot and archetype starts at.
pub const VERSION_START: u32 = 1;

/// The generational version of a storage slot.
///
/// A slot's version grows by one each time the slot is released, which
/// invalidates every entity handle that was issued for the previous version.
#[derive(Clone, Copy, PartialEq, Eq, Structural, Debug)]
pub struct VersionSlot {
    version: u32,
}

/// The overall version of an archetype storage, advanced on every removal.
#[derive(Clone, Copy, PartialEq, Eq, Structural, Debug)]
pub struct VersionArchetype {
    version: u32,
}

impl View for VersionSlot {
    type V = u32;

    closed spec fn view(&self) -> u32 {
        self.version
    }
}

impl View for VersionArchetype {
    type V = u32;

    closed spec fn view(&self) -> u32 {
        self.version
    }
}

impl VersionSlot {
    #[verifier::type_invariant]
    spec fn nonzero(self) -> bool {
        self.version >= VERSION_START
    }

    /// The first version of a fresh slot.
    pub fn start() -> (r: Self)
        ensures
            r@ == VERSION_START,
    {
        VersionSlot { version: VERSION_START }
    }

    /// The raw version number, which is never zero.
    pub fn get(&self) -> (r: u32)
        ensures
            r == self@,
            r >= VERSION_START,
    {
        proof {
            use_type_invariant(self);
        }
        self.version
    }

    /// The next version. A version never wraps around, so it must not be
    /// at its maximum.
    pub fn next(&self) -> (r: VersionSlot)
        requires
            self@ < u32::MAX,
        ensures
            r@ == self@ + 1,
    {
        proof {
            use_type_invariant(self);
        }
        VersionSlot { version: self.version + 1 }
    }
}

impl VersionArchetype {
    #[verifier::type_invariant]
    spec fn nonzero(self) -> bool {
        self.version >= VERSION_START
    }

    /// The first version of a fresh archetype storage.
    pub fn start() -> (r: Self)
        ensures
            r@ == VERSION_START,
    {
        VersionArchetype { version: VERSION_START }
    }

    /// The raw version number, which is never zero.
    pub fn get(&self) -> (r: u32)
        ensures
            r == self@,
            r >= VERSION_START,
    {
        proof {
            use_type_invariant(self);
        }
        self.version
    }

    /// The next version. A version never wraps around, so it must not be
    /// at its maximum.
    pub fn next(&self) -> (r: VersionArchetype)
        requires
            self@ < u32::MAX,
        ensures
            r@ == self@ + 1,
    {
        proof {
            use_type_invariant(self);
        }
        VersionArchetype { version: self.version + 1 }
    }
}

} // verus!
