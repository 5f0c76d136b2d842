use vstd::prelude::*;

use crate::index::{TrimmedIndex, MAX_DATA_CAPACITY};
use crate::version::{VersionSlot, VERSION_START};

verus! {

/// The highest order bit marks which slot indices belong to the free list.
///
/// A bad entity handle (say, from a different world) must never be able to
/// treat a freed slot as a live data slot, so free slots are tagged.
pub const FREE_BIT: u32 = 0x8000_0000;

/// A reserved index marking the end of the free list. It is bigger than any
/// index that fits in an entity or slot, and has the free bit baked into it.
pub const FREE_LIST_END: u32 = 0xFFFF_FFFF;

/// The data index stored in a slot.
///
/// Points to the dense list (entity data) if the slot is live, or to the
/// sparse list (other slots) if the slot is a member of the free list.
#[derive(Clone, Copy, PartialEq, Eq, Structural, Debug)]
pub(crate) struct SlotIndex(pub(crate) u32);

/// The encoding of a free slot index pointing at slot `i`.
pub open spec fn free_code(i: int) -> int {
    i + FREE_BIT
}

impl SlotIndex {
    /// The raw encoded value.
    pub(crate) open spec fn raw(self) -> u32 {
        self.0
    }

    /// Whether the value is one a slot can legitimately hold: a data index,
    /// a free-list link to a valid slot, or the free-list end.
    pub(crate) open spec fn wf(self) -> bool {
        ||| self.0 < MAX_DATA_CAPACITY
        ||| self.0 == FREE_LIST_END
        ||| (FREE_BIT <= self.0 && self.0 - FREE_BIT < MAX_DATA_CAPACITY)
    }

    /// Whether the value tags the free list.
    pub(crate) open spec fn spec_is_free(self) -> bool {
        self.0 >= FREE_BIT
    }

    /// Assigns this index to some non-free data index.
    pub(crate) fn new_data(index: TrimmedIndex) -> (r: Self)
        ensures
            r.raw() == index.spec_value(),
            r.wf(),
            !r.spec_is_free(),
    {
        SlotIndex(index.get())
    }

    /// Assigns this index to some free slot index.
    pub(crate) fn new_free(index: TrimmedIndex) -> (r: Self)
        ensures
            r.raw() == free_code(index.spec_value() as int),
            r.wf(),
            r.spec_is_free(),
            r.raw() != FREE_LIST_END,
    {
        let i = index.get();
        assert(i | FREE_BIT == i + FREE_BIT) by (bit_vector)
            requires
                i < 0x100_0000u32,
        ;
        SlotIndex(i | FREE_BIT)
    }

    /// Creates a new `SlotIndex` at the end of the free list.
    pub(crate) fn free_end() -> (r: Self)
        ensures
            r.raw() == FREE_LIST_END,
            r.wf(),
            r.spec_is_free(),
    {
        SlotIndex(FREE_LIST_END)
    }

    /// Returns true if this slot index points to the free list.
    pub(crate) fn is_free(&self) -> (r: bool)
        ensures
            r == self.spec_is_free(),
    {
        let v = self.0;
        assert((FREE_BIT & v != 0) == (v >= FREE_BIT)) by (bit_vector);
        (FREE_BIT & v) != 0
    }

    /// Returns true if this points to the end of the free list.
    pub(crate) fn is_free_end(&self) -> (r: bool)
        ensures
            r == (self.raw() == FREE_LIST_END),
    {
        self.0 == FREE_LIST_END
    }

    /// Returns the data index this slot points to. The slot must be live.
    pub(crate) fn index_data(&self) -> (r: Option<TrimmedIndex>)
        requires
            self.wf(),
            !self.spec_is_free(),
        ensures
            r matches Some(t) && t.spec_value() == self.raw(),
    {
        if self.is_free_end() {
            None
        } else {
            TrimmedIndex::new_u32(self.0)
        }
    }

    /// Returns the free-list entry this slot points to, unless it is the end.
    pub(crate) fn index_free(&self) -> (r: Option<TrimmedIndex>)
        requires
            self.wf(),
            self.spec_is_free(),
        ensures
            r is None <==> self.raw() == FREE_LIST_END,
            r matches Some(t) ==> free_code(t.spec_value() as int) == self.raw(),
    {
        if self.is_free_end() {
            None
        } else {
            let v = self.0;
            assert(v & !FREE_BIT == v - FREE_BIT) by (bit_vector)
                requires
                    v >= 0x8000_0000u32,
            ;
            TrimmedIndex::new_u32(v & !FREE_BIT)
        }
    }
}

/// An entry of the sparse slot array: where its entity lives, and its version.
#[derive(Clone, Copy, Debug)]
pub struct Slot {
    pub(crate) index: SlotIndex,
    pub(crate) version: VersionSlot,
}

/// The slot that the free-list builder writes at position `i` when the list
/// ends at `end`: a fresh version pointing to `i + 1`, or to the list end.
pub(crate) open spec fn fresh_free_slot(s: Slot, i: int, end: int) -> bool {
    &&& s.index.raw() == (if i + 1 < end { free_code(i + 1) } else { FREE_LIST_END as int })
    &&& s.version@ == VERSION_START
}

impl Slot {
    /// Fills the slot array from `start` up to `capacity` with a fresh free
    /// list, each slot pointing to the next, and returns the list head.
    pub(crate) fn populate_free_list(start: TrimmedIndex, slots: &mut Vec<Slot>, capacity: usize) -> (r:
        SlotIndex)
        requires
            old(slots).len() == start.spec_value(),
            start.spec_value() < capacity || (capacity == 0 && start.spec_value() == 0),
            capacity <= MAX_DATA_CAPACITY,
        ensures
            final(slots).len() == capacity,
            forall|i: int|
                0 <= i < start.spec_value() ==> #[trigger] final(slots)@[i] == old(slots)@[i],
            forall|i: int|
                start.spec_value() <= i < capacity ==> fresh_free_slot(
                    #[trigger] final(slots)@[i],
                    i,
                    capacity as int,
                ),
            r.raw() == (if capacity > 0 { free_code(start.spec_value() as int) } else {
                FREE_LIST_END as int
            }),
            r.wf(),
    {
        if capacity > 0 {
            let start_idx = start.get_usize();
            let end_idx = capacity - 1;
            let mut idx = start_idx;
            // Every slot but the last points to its successor.
            while idx < end_idx
                invariant
                    start_idx <= idx <= end_idx,
                    end_idx + 1 == capacity,
                    capacity <= MAX_DATA_CAPACITY,
                    slots.len() == idx,
                    start_idx == start.spec_value(),
                    forall|i: int| 0 <= i < start_idx ==> #[trigger] slots@[i] == old(slots)@[i],
                    forall|i: int|
                        start_idx <= i < idx ==> fresh_free_slot(
                            #[trigger] slots@[i],
                            i,
                            capacity as int,
                        ),
                decreases end_idx - idx,
            {
                let next = TrimmedIndex::new_usize(idx + 1).unwrap();
                let slot = Slot::new_free(SlotIndex::new_free(next));
                slots.push(slot);
                idx = idx + 1;
            }
            // The last slot points off the end of the free list.
            let last_slot = Slot::new_free(SlotIndex::free_end());
            slots.push(last_slot);
            SlotIndex::new_free(start)
        } else {
            SlotIndex::free_end()
        }
    }

    /// A fresh free slot pointing to the given free-list entry.
    pub(crate) fn new_free(next_free: SlotIndex) -> (r: Self)
        requires
            next_free.spec_is_free(),
        ensures
            r.index == next_free,
            r.version@ == VERSION_START,
    {
        Slot { index: next_free, version: VersionSlot::start() }
    }

    /// Returns this slot's index. May point to data or a free list entry.
    pub(crate) fn index(&self) -> (r: SlotIndex)
        ensures
            r == self.index,
    {
        self.index
    }

    /// Returns true if this slot is freed.
    pub(crate) fn is_free(&self) -> (r: bool)
        ensures
            r == self.index.spec_is_free(),
    {
        self.index.is_free()
    }

    /// Gets the slot's generational version.
    pub(crate) fn version(&self) -> (r: VersionSlot)
        ensures
            r == self.version,
    {
        self.version
    }

    /// Assigns a slot to some data. This does not change the version.
    pub(crate) fn assign(&mut self, index_data: TrimmedIndex)
        ensures
            final(self).index.raw() == index_data.spec_value(),
            final(self).version == old(self).version,
    {
        self.index = SlotIndex::new_data(index_data);
    }

    /// Releases a slot into the free list and advances its version,
    /// invalidating every handle to it.
    pub(crate) fn release(&mut self, index_next_free: SlotIndex)
        requires
            !old(self).index.spec_is_free(),
            old(self).version@ < u32::MAX,
        ensures
            final(self).index == index_next_free,
            final(self).version@ == old(self).version@ + 1,
    {
        self.index = index_next_free;
        self.version = self.version.next();
    }
}

} // verus!
