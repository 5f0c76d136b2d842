use gecs::entity::Entity;
use gecs::storage::Storage;
use gecs::traits::Archetype;

#[derive(Clone, Default, Debug, PartialEq)]
pub struct CompA(pub u32);
#[derive(Clone, Default, Debug, PartialEq)]
pub struct CompB(pub u32);
#[derive(Clone, Default, Debug, PartialEq)]
pub struct CompC(pub u32);

const ARCH_FOO: u8 = 3;
const ARCH_BAR: u8 = 4;

type ArchFoo = Storage<(CompA, CompB), ARCH_FOO>;
type ArchBar = Storage<(CompA, CompC), ARCH_BAR>;

#[derive(Clone, Default)]
struct EcsWorld {
    arch_foo: ArchFoo,
    arch_bar: ArchBar,
}

impl EcsWorld {
    fn new() -> Self {
        EcsWorld { arch_foo: Storage::new(), arch_bar: Storage::new() }
    }
}

fn foo_pair(world: &EcsWorld, entity: Entity<ARCH_FOO>) -> Option<(u32, u32)> {
    world.arch_foo.get(entity).map(|c| (c.0 .0, c.1 .0))
}

fn bar_pair(world: &EcsWorld, entity: Entity<ARCH_BAR>) -> Option<(u32, u32)> {
    world.arch_bar.get(entity).map(|c| (c.0 .0, c.1 .0))
}

#[test]
fn archetype_trait_reports_id() {
    assert_eq!(<ArchFoo as Archetype<ARCH_FOO>>::archetype_id(), 3);
    assert_eq!(<ArchBar as Archetype<ARCH_BAR>>::archetype_id(), 4);
}

#[test]
pub fn test_multi_create_direct() {
    let mut world = EcsWorld {
        arch_foo: Storage::with_capacity(5),
        arch_bar: Storage::with_capacity(3),
    };

    world.arch_foo.create((CompA(0), CompB(10)));
    world.arch_foo.create((CompA(1), CompB(11)));
    world.arch_foo.create((CompA(2), CompB(12)));
    world.arch_foo.create((CompA(3), CompB(13)));
    world.arch_foo.create((CompA(4), CompB(14)));

    world.arch_bar.create((CompA(5), CompC(15)));
    world.arch_bar.create((CompA(6), CompC(16)));
    world.arch_bar.create((CompA(7), CompC(17)));
    world.arch_bar.create((CompA(8), CompC(18)));
    world.arch_bar.create((CompA(9), CompC(19)));

    assert_eq!(world.arch_foo.len(), 5);
    assert_eq!(world.arch_bar.len(), 5);
}

#[test]
pub fn test_multi_create_indirect() {
    let mut world = EcsWorld::new();

    world.arch_foo.push((CompA(0), CompB(10)));
    world.arch_foo.push((CompA(1), CompB(11)));
    world.arch_foo.push((CompA(2), CompB(12)));
    world.arch_foo.push((CompA(3), CompB(13)));
    world.arch_foo.push((CompA(4), CompB(14)));

    world.arch_bar.push((CompA(5), CompC(15)));
    world.arch_bar.push((CompA(6), CompC(16)));
    world.arch_bar.push((CompA(7), CompC(17)));
    world.arch_bar.push((CompA(8), CompC(18)));
    world.arch_bar.push((CompA(9), CompC(19)));

    assert_eq!(world.arch_foo.len(), 5);
    assert_eq!(world.arch_bar.len(), 5);
}

#[test]
pub fn test_multi_find() {
    let mut world = EcsWorld::new();

    let entity_0 = world.arch_foo.push((CompA(0), CompB(10)));
    let entity_1 = world.arch_foo.push((CompA(1), CompB(11)));
    let entity_2 = world.arch_foo.push((CompA(2), CompB(12)));
    let entity_3 = world.arch_foo.push((CompA(3), CompB(13)));
    let entity_4 = world.arch_foo.push((CompA(4), CompB(14)));

    let entity_5 = world.arch_bar.push((CompA(5), CompC(15)));
    let entity_6 = world.arch_bar.push((CompA(6), CompC(16)));
    let entity_7 = world.arch_bar.push((CompA(7), CompC(17)));
    let entity_8 = world.arch_bar.push((CompA(8), CompC(18)));
    let entity_9 = world.arch_bar.push((CompA(9), CompC(19)));

    assert_eq!(foo_pair(&world, entity_0), Some((0, 10)));
    assert_eq!(foo_pair(&world, entity_1), Some((1, 11)));
    assert_eq!(foo_pair(&world, entity_2), Some((2, 12)));
    assert_eq!(foo_pair(&world, entity_3), Some((3, 13)));
    assert_eq!(foo_pair(&world, entity_4), Some((4, 14)));
    assert_eq!(bar_pair(&world, entity_5), Some((5, 15)));
    assert_eq!(bar_pair(&world, entity_6), Some((6, 16)));
    assert_eq!(bar_pair(&world, entity_7), Some((7, 17)));
    assert_eq!(bar_pair(&world, entity_8), Some((8, 18)));
    assert_eq!(bar_pair(&world, entity_9), Some((9, 19)));

    world.arch_foo.destroy(entity_2).unwrap();
    world.arch_bar.destroy(entity_7).unwrap();

    assert_eq!(foo_pair(&world, entity_0), Some((0, 10)));
    assert_eq!(foo_pair(&world, entity_1), Some((1, 11)));
    assert_eq!(foo_pair(&world, entity_3), Some((3, 13)));
    assert_eq!(foo_pair(&world, entity_4), Some((4, 14)));
    assert_eq!(bar_pair(&world, entity_5), Some((5, 15)));
    assert_eq!(bar_pair(&world, entity_6), Some((6, 16)));
    assert_eq!(bar_pair(&world, entity_8), Some((8, 18)));
    assert_eq!(bar_pair(&world, entity_9), Some((9, 19)));

    assert!(foo_pair(&world, entity_2).is_none());
    assert!(bar_pair(&world, entity_7).is_none());
    assert!(world.arch_foo.get_mut(entity_2).is_none());
    assert!(world.arch_bar.get_mut(entity_7).is_none());
}

#[test]
pub fn test_multi_iter() {
    let mut world = EcsWorld::new();

    let _entity_0 = world.arch_foo.push((CompA(0), CompB(10)));
    let _entity_1 = world.arch_foo.push((CompA(1), CompB(11)));
    let _entity_2 = world.arch_foo.push((CompA(2), CompB(12)));
    let _entity_3 = world.arch_foo.push((CompA(3), CompB(13)));
    let _entity_4 = world.arch_foo.push((CompA(4), CompB(14)));

    let _entity_5 = world.arch_bar.push((CompA(5), CompC(15)));
    let _entity_6 = world.arch_bar.push((CompA(6), CompC(16)));
    let _entity_7 = world.arch_bar.push((CompA(7), CompC(17)));
    let _entity_8 = world.arch_bar.push((CompA(8), CompC(18)));
    let _entity_9 = world.arch_bar.push((CompA(9), CompC(19)));

    let sum_a = |world: &EcsWorld| -> u32 {
        world.arch_foo.components().iter().map(|c| c.0 .0).sum::<u32>()
            + world.arch_bar.components().iter().map(|c| c.0 .0).sum::<u32>()
    };
    assert_eq!(sum_a(&world), 0 + 1 + 2 + 3 + 4 + 5 + 6 + 7 + 8 + 9);

    let sum_b: u32 = world.arch_foo.components().iter().map(|c| c.1 .0).sum();
    assert_eq!(sum_b, 10 + 11 + 12 + 13 + 14);

    let sum_c: u32 = world.arch_bar.components().iter().map(|c| c.1 .0).sum();
    assert_eq!(sum_c, 15 + 16 + 17 + 18 + 19);

    world.arch_foo.destroy(_entity_2).unwrap();
    world.arch_bar.destroy(_entity_7).unwrap();

    assert_eq!(sum_a(&world), 0 + 1 + 3 + 4 + 5 + 6 + 8 + 9);
}

#[test]
pub fn test_multi_replace() {
    let mut world = EcsWorld::new();

    let entity_0 = world.arch_foo.push((CompA(0), CompB(10)));
    let entity_1 = world.arch_foo.push((CompA(1), CompB(11)));
    let entity_2 = world.arch_foo.push((CompA(2), CompB(12)));
    let entity_3 = world.arch_foo.push((CompA(3), CompB(13)));
    let entity_4 = world.arch_foo.push((CompA(4), CompB(14)));

    let entity_5 = world.arch_bar.push((CompA(5), CompC(15)));
    let entity_6 = world.arch_bar.push((CompA(6), CompC(16)));
    let entity_7 = world.arch_bar.push((CompA(7), CompC(17)));
    let entity_8 = world.arch_bar.push((CompA(8), CompC(18)));
    let entity_9 = world.arch_bar.push((CompA(9), CompC(19)));

    assert_eq!(world.arch_foo.len(), 5);
    assert_eq!(world.arch_bar.len(), 5);

    assert_eq!(world.arch_foo.destroy(entity_4).unwrap(), (CompA(4), CompB(14)));
    assert_eq!(world.arch_foo.len(), 4);

    assert_eq!(world.arch_foo.destroy(entity_1).unwrap(), (CompA(1), CompB(11)));
    assert_eq!(world.arch_foo.len(), 3);

    assert_eq!(world.arch_foo.destroy(entity_2).unwrap(), (CompA(2), CompB(12)));
    assert_eq!(world.arch_foo.len(), 2);

    assert_eq!(world.arch_foo.destroy(entity_3).unwrap(), (CompA(3), CompB(13)));
    assert_eq!(world.arch_foo.len(), 1);

    assert_eq!(world.arch_foo.destroy(entity_0).unwrap(), (CompA(0), CompB(10)));
    assert_eq!(world.arch_foo.len(), 0);

    assert_eq!(world.arch_bar.destroy(entity_9).unwrap(), (CompA(9), CompC(19)));
    assert_eq!(world.arch_bar.len(), 4);

    assert_eq!(world.arch_bar.destroy(entity_6).unwrap(), (CompA(6), CompC(16)));
    assert_eq!(world.arch_bar.len(), 3);

    assert_eq!(world.arch_bar.destroy(entity_7).unwrap(), (CompA(7), CompC(17)));
    assert_eq!(world.arch_bar.len(), 2);

    assert_eq!(world.arch_bar.destroy(entity_8).unwrap(), (CompA(8), CompC(18)));
    assert_eq!(world.arch_bar.len(), 1);

    assert_eq!(world.arch_bar.destroy(entity_5).unwrap(), (CompA(5), CompC(15)));
    assert_eq!(world.arch_bar.len(), 0);

    for entity in [entity_0, entity_1, entity_2, entity_3, entity_4] {
        assert!(foo_pair(&world, entity).is_none());
        assert!(world.arch_foo.destroy(entity).is_none());
    }
    for entity in [entity_5, entity_6, entity_7, entity_8, entity_9] {
        assert!(bar_pair(&world, entity).is_none());
        assert!(world.arch_bar.destroy(entity).is_none());
    }

    let entity_0b = world.arch_foo.push((CompA(1000), CompB(1010)));
    let entity_1b = world.arch_foo.push((CompA(1001), CompB(1011)));
    let entity_2b = world.arch_foo.push((CompA(1002), CompB(1012)));
    let entity_3b = world.arch_foo.push((CompA(1003), CompB(1013)));
    let entity_4b = world.arch_foo.push((CompA(1004), CompB(1014)));
    let entity_5b = world.arch_bar.push((CompA(1005), CompC(1015)));
    let entity_6b = world.arch_bar.push((CompA(1006), CompC(1016)));
    let entity_7b = world.arch_bar.push((CompA(1007), CompC(1017)));
    let entity_8b = world.arch_bar.push((CompA(1008), CompC(1018)));
    let entity_9b = world.arch_bar.push((CompA(1009), CompC(1019)));

    assert_eq!(foo_pair(&world, entity_0b), Some((1000, 1010)));
    assert_eq!(foo_pair(&world, entity_1b), Some((1001, 1011)));
    assert_eq!(foo_pair(&world, entity_2b), Some((1002, 1012)));
    assert_eq!(foo_pair(&world, entity_3b), Some((1003, 1013)));
    assert_eq!(foo_pair(&world, entity_4b), Some((1004, 1014)));
    assert_eq!(bar_pair(&world, entity_5b), Some((1005, 1015)));
    assert_eq!(bar_pair(&world, entity_6b), Some((1006, 1016)));
    assert_eq!(bar_pair(&world, entity_7b), Some((1007, 1017)));
    assert_eq!(bar_pair(&world, entity_8b), Some((1008, 1018)));
    assert_eq!(bar_pair(&world, entity_9b), Some((1009, 1019)));
}

#[test]
fn test_size_hint() {
    let mut foo: Storage<CompA, 0> = Storage::new();
    let mut bar: Storage<CompA, 1> = Storage::new();
    let mut baz: Storage<CompA, 2> = Storage::new();
    let mut qux: Storage<CompA, 3> = Storage::new();

    for _ in 0..4 {
        foo.push(CompA(0));
    }
    for _ in 0..11 {
        bar.push(CompA(0));
    }
    for _ in 0..23 {
        baz.push(CompA(0));
    }
    for _ in 0..6 {
        qux.push(CompA(0));
    }

    let created = || {
        foo.created()
            .iter()
            .map(|e| e.into_any())
            .chain(bar.created().iter().map(|e| e.into_any()))
            .chain(baz.created().iter().map(|e| e.into_any()))
            .chain(qux.created().iter().map(|e| e.into_any()))
    };

    assert_eq!(created().count(), 4 + 11 + 23 + 6);

    let (min, max) = created().size_hint();
    assert!(max.is_some_and(|max| max >= min));
    assert_eq!(min, 4 + 11 + 23 + 6);
    assert_eq!(max, Some(4 + 11 + 23 + 6));

    let mut iter = created();
    for _ in 0..10 {
        iter.next();
    }

    let (min, max) = iter.size_hint();
    assert!(max.is_some_and(|max| max >= min));
    assert_eq!(min, 4 + 11 + 23 + 6 - 10);
    assert_eq!(max, Some(4 + 11 + 23 + 6 - 10));
}

#[test]
fn archetype_trait_tracks_events() {
    let mut foo: ArchFoo = <ArchFoo as Archetype<ARCH_FOO>>::new();
    let e = foo.create((CompA(1), CompB(2)));
    assert_eq!(<ArchFoo as Archetype<ARCH_FOO>>::created(&foo), &[e]);
    assert_eq!(<ArchFoo as Archetype<ARCH_FOO>>::destroy(&mut foo, e), Some((CompA(1), CompB(2))));
    assert_eq!(<ArchFoo as Archetype<ARCH_FOO>>::destroyed(&foo), &[e]);
    <ArchFoo as Archetype<ARCH_FOO>>::clear_events(&mut foo);
    assert!(<ArchFoo as Archetype<ARCH_FOO>>::created(&foo).is_empty());
    assert_eq!(<ArchFoo as Archetype<ARCH_FOO>>::len(&foo), 0);
}

fn each_a(world: &mut EcsWorld, add: u32) {
    for index in 0..world.arch_foo.len() {
        world.arch_foo.get_mut_at(index).0 .0 += add;
    }
    for index in 0..world.arch_bar.len() {
        world.arch_bar.get_mut_at(index).0 .0 += add;
    }
}

fn sum_of_a(world: &EcsWorld) -> u32 {
    world.arch_foo.components().iter().map(|c| c.0 .0).sum::<u32>()
        + world.arch_bar.components().iter().map(|c| c.0 .0).sum::<u32>()
}

fn sum_of_b(world: &EcsWorld) -> u32 {
    world.arch_foo.components().iter().map(|c| c.1 .0).sum()
}

fn sum_of_c(world: &EcsWorld) -> u32 {
    world.arch_bar.components().iter().map(|c| c.1 .0).sum()
}

fn sum_of_ab(world: &EcsWorld) -> u32 {
    world.arch_foo.components().iter().map(|c| c.0 .0 + c.1 .0).sum()
}

fn sum_of_ac(world: &EcsWorld) -> u32 {
    world.arch_bar.components().iter().map(|c| c.0 .0 + c.1 .0).sum()
}

#[test]
pub fn test_multi_iter_write() {
    let mut world = EcsWorld::default();

    let _entity_0 = world.arch_foo.push((CompA(0), CompB(10)));
    let _entity_1 = world.arch_foo.push((CompA(1), CompB(11)));
    let _entity_2 = world.arch_foo.push((CompA(2), CompB(12)));
    let _entity_3 = world.arch_foo.push((CompA(3), CompB(13)));
    let _entity_4 = world.arch_foo.push((CompA(4), CompB(14)));

    let _entity_5 = world.arch_bar.push((CompA(5), CompC(15)));
    let _entity_6 = world.arch_bar.push((CompA(6), CompC(16)));
    let _entity_7 = world.arch_bar.push((CompA(7), CompC(17)));
    let _entity_8 = world.arch_bar.push((CompA(8), CompC(18)));
    let _entity_9 = world.arch_bar.push((CompA(9), CompC(19)));

    each_a(&mut world, 100);
    for index in 0..world.arch_foo.len() {
        world.arch_foo.get_mut_at(index).1 .0 += 100;
    }
    for index in 0..world.arch_bar.len() {
        world.arch_bar.get_mut_at(index).1 .0 += 100;
    }

    assert_eq!(sum_of_a(&world), 100 + 101 + 102 + 103 + 104 + 105 + 106 + 107 + 108 + 109);
    assert_eq!(sum_of_b(&world), 110 + 111 + 112 + 113 + 114);
    assert_eq!(sum_of_c(&world), 115 + 116 + 117 + 118 + 119);
    assert_eq!(sum_of_ab(&world), 100 + 101 + 102 + 103 + 104 + 110 + 111 + 112 + 113 + 114);
    assert_eq!(sum_of_ac(&world), 105 + 106 + 107 + 108 + 109 + 115 + 116 + 117 + 118 + 119);

    assert!(world.arch_foo.destroy(_entity_2).is_some());
    assert!(world.arch_bar.destroy(_entity_7).is_some());

    assert_eq!(sum_of_a(&world), 100 + 101 + 103 + 104 + 105 + 106 + 108 + 109);
    assert_eq!(sum_of_b(&world), 110 + 111 + 113 + 114);
    assert_eq!(sum_of_c(&world), 115 + 116 + 118 + 119);
    assert_eq!(sum_of_ab(&world), 100 + 101 + 103 + 104 + 110 + 111 + 113 + 114);
    assert_eq!(sum_of_ac(&world), 105 + 106 + 108 + 109 + 115 + 116 + 118 + 119);
}

#[test]
pub fn test_default() {
    let mut world = EcsWorld::default();

    let entity_0 = world.arch_foo.push(<(CompA, CompB)>::default());
    let entity_1 = world.arch_bar.push((CompA(1), CompC::default()));

    let components_0 = world.arch_foo.destroy(entity_0).unwrap();
    let components_1 = world.arch_bar.destroy(entity_1).unwrap();

    assert_eq!(components_0.0 .0, 0);
    assert_eq!(components_1.0 .0, 1);
}

#[test]
pub fn test_multi_find_clone() {
    let mut old_world = EcsWorld::default();

    let entity_0 = old_world.arch_foo.push((CompA(0), CompB(10)));
    let entity_1 = old_world.arch_foo.push((CompA(1), CompB(11)));
    let entity_2 = old_world.arch_foo.push((CompA(2), CompB(12)));
    let entity_3 = old_world.arch_foo.push((CompA(3), CompB(13)));
    let entity_4 = old_world.arch_foo.push((CompA(4), CompB(14)));

    let entity_5 = old_world.arch_bar.push((CompA(5), CompC(15)));
    let entity_6 = old_world.arch_bar.push((CompA(6), CompC(16)));
    let entity_7 = old_world.arch_bar.push((CompA(7), CompC(17)));
    let entity_8 = old_world.arch_bar.push((CompA(8), CompC(18)));
    let entity_9 = old_world.arch_bar.push((CompA(9), CompC(19)));

    let mut world = old_world.clone();

    old_world.arch_foo.destroy(entity_1);
    old_world.arch_foo.destroy(entity_3);
    old_world.arch_bar.destroy(entity_5);
    old_world.arch_bar.destroy(entity_7);
    old_world.arch_bar.destroy(entity_9);

    let foo = [entity_0, entity_1, entity_2, entity_3, entity_4];
    let bar = [entity_5, entity_6, entity_7, entity_8, entity_9];
    for (k, entity) in foo.iter().enumerate() {
        let k = k as u32;
        assert_eq!(foo_pair(&world, *entity), Some((k, k + 10)));
    }
    for (k, entity) in bar.iter().enumerate() {
        let k = k as u32 + 5;
        assert_eq!(bar_pair(&world, *entity), Some((k, k + 10)));
    }

    for (k, entity) in foo.iter().enumerate() {
        let k = k as u32;
        let c = world.arch_foo.get_mut(*entity).unwrap();
        assert_eq!((c.0 .0, c.1 .0), (k, k + 10));
    }
    for (k, entity) in bar.iter().enumerate() {
        let k = k as u32 + 5;
        let c = world.arch_bar.get_mut(*entity).unwrap();
        assert_eq!((c.0 .0, c.1 .0), (k, k + 10));
    }

    assert!(world.arch_foo.destroy(entity_2).is_some());
    assert!(world.arch_bar.destroy(entity_7).is_some());

    for (k, entity) in foo.iter().enumerate() {
        let k = k as u32;
        if k == 2 {
            assert_eq!(foo_pair(&world, *entity), None);
            assert!(world.arch_foo.get_mut(*entity).is_none());
        } else {
            assert_eq!(foo_pair(&world, *entity), Some((k, k + 10)));
        }
    }
    for (k, entity) in bar.iter().enumerate() {
        let k = k as u32 + 5;
        if k == 7 {
            assert_eq!(bar_pair(&world, *entity), None);
            assert!(world.arch_bar.get_mut(*entity).is_none());
        } else {
            assert_eq!(bar_pair(&world, *entity), Some((k, k + 10)));
        }
    }
}
