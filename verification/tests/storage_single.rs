use gecs::entity::Entity;
use gecs::storage::Storage;

#[derive(Debug, PartialEq)]
pub struct CompA(pub u32);
#[derive(Debug, PartialEq)]
pub struct CompZ; // ZST

const TEST_CAPACITY: usize = 4;
const ARCH_FOO: u8 = 0;

type ArchFoo = Storage<(CompA, CompZ), ARCH_FOO>;

fn arch_foo() -> ArchFoo {
    Storage::with_capacity(TEST_CAPACITY + 1)
}

fn find_a(arch: &ArchFoo, entity: Entity<ARCH_FOO>) -> Option<u32> {
    arch.get(entity).map(|c| c.0 .0)
}

fn sum_a(arch: &ArchFoo) -> u32 {
    arch.components().iter().map(|c| c.0 .0).sum()
}

#[test]
pub fn test_single_push() {
    let mut arch = arch_foo();

    arch.push((CompA(0), CompZ));
    arch.push((CompA(1), CompZ));
    arch.push((CompA(2), CompZ));
    arch.push((CompA(3), CompZ));
    arch.push((CompA(4), CompZ));

    assert_eq!(arch.len(), 5);

    assert!(arch.try_push((CompA(6), CompZ)).is_none());
}

#[test]
pub fn test_single_entity() {
    let mut arch = arch_foo();

    let entity_0 = arch.push((CompA(0), CompZ));
    let entity_1 = arch.push((CompA(1), CompZ));
    let entity_2 = arch.push((CompA(2), CompZ));
    let entity_3 = arch.push((CompA(3), CompZ));
    let entity_4 = arch.push((CompA(4), CompZ));

    let all = [entity_0, entity_1, entity_2, entity_3, entity_4];
    for entity in all {
        let index = arch.resolve(entity).unwrap();
        assert!(arch.entities()[index] == entity);
    }

    assert!(arch.destroy(entity_0).is_some());
    assert!(arch.destroy(entity_1).is_some());
    assert!(arch.destroy(entity_2).is_some());
    assert!(arch.destroy(entity_3).is_some());
    assert!(arch.destroy(entity_4).is_some());

    let entity_0b = arch.push((CompA(0), CompZ));
    let entity_1b = arch.push((CompA(1), CompZ));
    let entity_2b = arch.push((CompA(2), CompZ));
    let entity_3b = arch.push((CompA(3), CompZ));
    let entity_4b = arch.push((CompA(4), CompZ));

    assert!(entity_0 != entity_0b);
    assert!(entity_1 != entity_1b);
    assert!(entity_2 != entity_2b);
    assert!(entity_3 != entity_3b);
    assert!(entity_4 != entity_4b);

    let all_b = [entity_0b, entity_1b, entity_2b, entity_3b, entity_4b];
    for entity in all_b {
        let index = arch.resolve(entity).unwrap();
        assert!(arch.entities()[index] == entity);
    }
    for entity in all {
        assert!(arch.resolve(entity).is_none());
    }
}

#[test]
pub fn test_single_find() {
    let mut arch = arch_foo();

    let entity_0 = arch.push((CompA(0), CompZ));
    let entity_1 = arch.push((CompA(1), CompZ));
    let entity_2 = arch.push((CompA(2), CompZ));
    let entity_3 = arch.push((CompA(3), CompZ));
    let entity_4 = arch.push((CompA(4), CompZ));

    assert_eq!(find_a(&arch, entity_0), Some(0));
    assert_eq!(find_a(&arch, entity_1), Some(1));
    assert_eq!(find_a(&arch, entity_2), Some(2));
    assert_eq!(find_a(&arch, entity_3), Some(3));
    assert_eq!(find_a(&arch, entity_4), Some(4));

    assert_eq!(arch.get_mut(entity_0).map(|c| c.0 .0), Some(0));
    assert_eq!(arch.get_mut(entity_1).map(|c| c.0 .0), Some(1));
    assert_eq!(arch.get_mut(entity_2).map(|c| c.0 .0), Some(2));
    assert_eq!(arch.get_mut(entity_3).map(|c| c.0 .0), Some(3));
    assert_eq!(arch.get_mut(entity_4).map(|c| c.0 .0), Some(4));

    arch.destroy(entity_2).unwrap();

    assert_eq!(find_a(&arch, entity_0), Some(0));
    assert_eq!(find_a(&arch, entity_1), Some(1));
    assert_eq!(find_a(&arch, entity_3), Some(3));
    assert_eq!(find_a(&arch, entity_4), Some(4));

    assert_eq!(arch.get_mut(entity_0).map(|c| c.0 .0), Some(0));
    assert_eq!(arch.get_mut(entity_1).map(|c| c.0 .0), Some(1));
    assert_eq!(arch.get_mut(entity_3).map(|c| c.0 .0), Some(3));
    assert_eq!(arch.get_mut(entity_4).map(|c| c.0 .0), Some(4));

    assert_eq!(find_a(&arch, entity_2), None);
    assert!(arch.get_mut(entity_2).is_none());
}

#[test]
pub fn test_single_test_single_iter() {
    let mut arch = arch_foo();

    let _entity_0 = arch.push((CompA(0), CompZ));
    let _entity_1 = arch.push((CompA(1), CompZ));
    let _entity_2 = arch.push((CompA(2), CompZ));
    let _entity_3 = arch.push((CompA(3), CompZ));
    let _entity_4 = arch.push((CompA(4), CompZ));

    assert_eq!(sum_a(&arch), 0 + 1 + 2 + 3 + 4);

    arch.destroy(_entity_2).unwrap();

    assert_eq!(sum_a(&arch), 0 + 1 + 3 + 4);
}

#[test]
pub fn test_single_iter_write() {
    let mut arch = arch_foo();

    let _entity_0 = arch.push((CompA(0), CompZ));
    let _entity_1 = arch.push((CompA(1), CompZ));
    let _entity_2 = arch.push((CompA(2), CompZ));
    let _entity_3 = arch.push((CompA(3), CompZ));
    let _entity_4 = arch.push((CompA(4), CompZ));

    let entities: Vec<Entity<ARCH_FOO>> = arch.entities().to_vec();
    for entity in entities {
        arch.get_mut(entity).unwrap().0 .0 += 100;
    }

    assert_eq!(sum_a(&arch), 100 + 101 + 102 + 103 + 104);

    arch.destroy(_entity_2).unwrap();

    assert_eq!(sum_a(&arch), 100 + 101 + 103 + 104);
}

#[test]
pub fn test_single_remove_replace() {
    let mut arch = arch_foo();

    let entity_0 = arch.push((CompA(0), CompZ));
    let entity_1 = arch.push((CompA(1), CompZ));
    let entity_2 = arch.push((CompA(2), CompZ));
    let entity_3 = arch.push((CompA(3), CompZ));
    let entity_4 = arch.push((CompA(4), CompZ));

    assert_eq!(arch.len(), 5);

    assert_eq!(arch.destroy(entity_4).unwrap().0 .0, 4);
    assert_eq!(arch.len(), 4);

    assert_eq!(arch.destroy(entity_1).unwrap().0 .0, 1);
    assert_eq!(arch.len(), 3);

    assert_eq!(arch.destroy(entity_2).unwrap().0 .0, 2);
    assert_eq!(arch.len(), 2);

    assert_eq!(arch.destroy(entity_3).unwrap().0 .0, 3);
    assert_eq!(arch.len(), 1);

    assert_eq!(arch.destroy(entity_0).unwrap().0 .0, 0);
    assert_eq!(arch.len(), 0);

    assert_eq!(find_a(&arch, entity_0), None);
    assert_eq!(find_a(&arch, entity_1), None);
    assert_eq!(find_a(&arch, entity_2), None);
    assert_eq!(find_a(&arch, entity_3), None);
    assert_eq!(find_a(&arch, entity_4), None);

    assert!(arch.destroy(entity_0).is_none());
    assert!(arch.destroy(entity_1).is_none());
    assert!(arch.destroy(entity_2).is_none());
    assert!(arch.destroy(entity_3).is_none());
    assert!(arch.destroy(entity_4).is_none());

    let entity_0b = arch.push((CompA(1000), CompZ));
    let entity_1b = arch.push((CompA(1001), CompZ));
    let entity_2b = arch.push((CompA(1002), CompZ));
    let entity_3b = arch.push((CompA(1003), CompZ));
    let entity_4b = arch.push((CompA(1004), CompZ));

    assert_eq!(find_a(&arch, entity_0b), Some(1000));
    assert_eq!(find_a(&arch, entity_1b), Some(1001));
    assert_eq!(find_a(&arch, entity_2b), Some(1002));
    assert_eq!(find_a(&arch, entity_3b), Some(1003));
    assert_eq!(find_a(&arch, entity_4b), Some(1004));
}

#[test]
fn swap_remove_moves_last_into_hole() {
    let mut arch = arch_foo();
    let e0 = arch.push((CompA(0), CompZ));
    let e1 = arch.push((CompA(1), CompZ));
    let e2 = arch.push((CompA(2), CompZ));
    arch.destroy(e0).unwrap();
    assert_eq!(arch.entities(), &[e2, e1]);
    assert_eq!(arch.components()[0].0, CompA(2));
    assert_eq!(arch.components()[1].0, CompA(1));
    assert_eq!(arch.resolve(e2), Some(0));
    assert_eq!(arch.resolve(e1), Some(1));
}

#[test]
fn version_advances_only_on_removal() {
    let mut arch = arch_foo();
    assert_eq!(arch.version().get(), 1);
    let e0 = arch.push((CompA(0), CompZ));
    assert_eq!(arch.version().get(), 1);
    arch.destroy(e0).unwrap();
    assert_eq!(arch.version().get(), 2);
    assert!(arch.destroy(e0).is_none());
    assert_eq!(arch.version().get(), 2);
}

#[test]
fn growth_doubles_plus_one() {
    let mut arch: ArchFoo = Storage::new();
    assert_eq!(arch.capacity(), 0);
    assert!(arch.is_empty());
    arch.push((CompA(0), CompZ));
    assert_eq!(arch.capacity(), 2);
    arch.push((CompA(1), CompZ));
    arch.push((CompA(2), CompZ));
    assert_eq!(arch.capacity(), 6);
    assert_eq!(arch.len(), 3);
}

#[test]
fn push_within_capacity_hands_back_components() {
    let mut arch: Storage<CompA, 0> = Storage::with_capacity(1);
    assert!(arch.push_within_capacity(CompA(7)).is_ok());
    match arch.push_within_capacity(CompA(8)) {
        Err(back) => assert_eq!(back, CompA(8)),
        Ok(_) => panic!("storage was full"),
    }
    assert_eq!(arch.len(), 1);
    assert_eq!(arch.capacity(), 1);
}

#[test]
fn direct_handles_go_stale_on_removal() {
    let mut arch = arch_foo();
    let e0 = arch.push((CompA(0), CompZ));
    let e1 = arch.push((CompA(1), CompZ));
    let d1 = arch.to_direct(e1).unwrap();
    assert_eq!(arch.resolve_direct_key(d1), Some(1));
    assert_eq!(arch.direct_entity(d1), Some(e1));
    arch.destroy(e0).unwrap();
    assert!(arch.resolve_direct_key(d1).is_none());
    assert!(arch.direct_entity(d1).is_none());
    let d1 = arch.to_direct(e1).unwrap();
    assert_eq!(arch.destroy_direct(d1).unwrap().0, CompA(1));
    assert!(arch.is_empty());
    assert!(!arch.contains(e1));
}

#[test]
fn events_record_creation_and_destruction() {
    let mut arch = arch_foo();
    let e0 = arch.push((CompA(0), CompZ));
    let e1 = arch.push((CompA(1), CompZ));
    assert_eq!(arch.created(), &[e0, e1]);
    assert!(arch.destroyed().is_empty());
    arch.destroy(e0).unwrap();
    assert!(arch.destroy(e0).is_none());
    assert_eq!(arch.destroyed(), &[e0]);
    arch.clear_events();
    assert!(arch.created().is_empty());
    assert!(arch.destroyed().is_empty());
    assert_eq!(arch.len(), 1);
    assert!(arch.contains(e1));
}

#[test]
fn destroy_version_limits_are_checkable() {
    let mut arch = arch_foo();
    let e0 = arch.push((CompA(0), CompZ));
    assert!(arch.can_destroy(e0));
    let d0 = arch.to_direct(e0).unwrap();
    assert!(arch.can_destroy_direct(d0));
    arch.destroy(e0).unwrap();
    // A stale handle destroys nothing, so it is always within the limits.
    assert!(arch.can_destroy(e0));
    assert!(arch.can_destroy_direct(d0));
}

#[test]
fn default_storage_is_empty() {
    let arch: ArchFoo = Default::default();
    assert!(arch.is_empty());
    assert_eq!(arch.capacity(), 0);
    assert_eq!(arch.version().get(), 1);
}

#[test]
pub fn test_iter_test_single_iter() {
    let mut arch: ArchFoo = Storage::default();

    arch.push((CompA(0), CompZ));
    arch.push((CompA(1), CompZ));
    arch.push((CompA(2), CompZ));
    arch.push((CompA(3), CompZ));
    arch.push((CompA(4), CompZ));

    let mut vec = Vec::new();

    for view in arch.components().iter() {
        vec.push(view.0 .0);
    }

    assert_eq!(vec, vec![0, 1, 2, 3, 4]);

    vec.clear();

    for index in 0..arch.len() {
        arch.get_mut_at(index).0 .0 += 1;
    }

    for view in arch.components().iter() {
        vec.push(view.0 .0);
    }

    assert_eq!(vec, vec![1, 2, 3, 4, 5]);
}

#[test]
fn get_mut_at_writes_the_dense_position() {
    let mut arch = arch_foo();
    let e0 = arch.push((CompA(7), CompZ));
    let e1 = arch.push((CompA(8), CompZ));
    arch.get_mut_at(1).0 .0 = 80;
    assert_eq!(find_a(&arch, e0), Some(7));
    assert_eq!(find_a(&arch, e1), Some(80));
}
