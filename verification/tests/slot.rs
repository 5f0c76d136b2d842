use gecs::index::{TrimmedIndex, MAX_DATA_CAPACITY, MAX_DATA_INDEX};
use gecs::slot::{FREE_BIT, FREE_LIST_END};
use gecs::version::{VersionArchetype, VersionSlot, VERSION_START};

#[test]
fn verify_free_list_end_is_invalid_data_index() {
    assert!(TrimmedIndex::new_u32(!FREE_BIT & FREE_LIST_END).is_none());
}

#[test]
fn trimmed_index_bounds() {
    assert_eq!(TrimmedIndex::new_u32(0).unwrap().get(), 0);
    assert_eq!(TrimmedIndex::new_u32(MAX_DATA_INDEX).unwrap().get(), 16777215);
    assert!(TrimmedIndex::new_u32(MAX_DATA_CAPACITY).is_none());
    assert!(TrimmedIndex::new_usize(16777216).is_none());
    assert_eq!(TrimmedIndex::new_usize(42).unwrap().get_usize(), 42);
    assert_eq!(TrimmedIndex::zero().get(), 0);
}

#[test]
fn free_bit_is_outside_data_range() {
    assert!(TrimmedIndex::new_u32(FREE_BIT).is_none());
    assert!(TrimmedIndex::new_u32(FREE_LIST_END).is_none());
}

#[test]
fn versions_start_at_one_and_advance() {
    let slot = VersionSlot::start();
    assert_eq!(slot.get(), VERSION_START);
    assert_eq!(slot.next().get(), 2);
    let archetype = VersionArchetype::start();
    assert_eq!(archetype.get(), 1);
    assert_eq!(archetype.next().next().get(), 3);
}
