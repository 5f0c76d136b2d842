use gecs::entity::{Entity, EntityAny, EntityDirect, EntityDirectAny};
use gecs::error::EcsError;
use gecs::storage::Storage;

#[derive(Debug, PartialEq)]
pub struct CompA(pub u32);
#[derive(Debug, PartialEq)]
pub struct CompB(pub u32);
#[derive(Debug, PartialEq)]
pub struct CompC(pub u32);
#[derive(Debug, PartialEq)]
pub struct CompZ; // ZST

const ARCH_FOO: u8 = 0;
const ARCH_BAR: u8 = 1;

#[derive(Default)]
struct EcsWorld {
    arch_foo: Storage<(CompA, CompZ), ARCH_FOO>,
    arch_bar: Storage<(CompB, CompZ), ARCH_BAR>,
}

enum SelectEntity {
    ArchFoo(Entity<ARCH_FOO>),
    ArchBar(Entity<ARCH_BAR>),
}

enum SelectEntityDirect {
    ArchFoo(EntityDirect<ARCH_FOO>),
    ArchBar(EntityDirect<ARCH_BAR>),
}

impl From<Entity<ARCH_FOO>> for SelectEntity {
    fn from(entity: Entity<ARCH_FOO>) -> Self {
        SelectEntity::ArchFoo(entity)
    }
}

impl From<EntityDirect<ARCH_FOO>> for SelectEntityDirect {
    fn from(entity: EntityDirect<ARCH_FOO>) -> Self {
        SelectEntityDirect::ArchFoo(entity)
    }
}

impl TryFrom<EntityAny> for SelectEntity {
    type Error = EcsError;

    fn try_from(entity: EntityAny) -> Result<Self, EcsError> {
        match entity.archetype_id() {
            ARCH_FOO => Ok(SelectEntity::ArchFoo(Entity::<ARCH_FOO>::from_any(entity))),
            ARCH_BAR => Ok(SelectEntity::ArchBar(Entity::<ARCH_BAR>::from_any(entity))),
            _ => Err(EcsError::InvalidEntityType),
        }
    }
}

impl TryFrom<EntityDirectAny> for SelectEntityDirect {
    type Error = EcsError;

    fn try_from(entity: EntityDirectAny) -> Result<Self, EcsError> {
        match entity.archetype_id() {
            ARCH_FOO => EntityDirect::<ARCH_FOO>::try_from_any(entity).map(SelectEntityDirect::ArchFoo),
            ARCH_BAR => EntityDirect::<ARCH_BAR>::try_from_any(entity).map(SelectEntityDirect::ArchBar),
            _ => Err(EcsError::InvalidEntityType),
        }
    }
}

#[test]
fn test_select() {
    let mut world = EcsWorld::default();

    let entity: Entity<ARCH_FOO> = world.arch_foo.push((CompA(1), CompZ));

    match entity.try_into() {
        Ok(SelectEntity::ArchFoo(entity)) => assert!(world.arch_foo.contains(entity)),
        Ok(SelectEntity::ArchBar(_)) => panic!(),
        Err(_) => panic!(),
    };
}

#[test]
fn test_select_direct() {
    let mut world = EcsWorld::default();

    let entity = world.arch_foo.push((CompA(1), CompZ));
    let entity: EntityDirect<ARCH_FOO> = world.arch_foo.to_direct(entity).unwrap();

    match entity.try_into() {
        Ok(SelectEntityDirect::ArchFoo(entity)) => {
            assert!(world.arch_foo.direct_entity(entity).is_some())
        }
        Ok(SelectEntityDirect::ArchBar(_)) => panic!(),
        Err(_) => panic!(),
    };
}

#[test]
fn test_select_any() {
    let mut world = EcsWorld::default();

    let entity: EntityAny = world.arch_foo.push((CompA(1), CompZ)).into_any();

    match entity.try_into() {
        Ok(SelectEntity::ArchFoo(entity)) => assert!(world.arch_foo.contains(entity)),
        Ok(SelectEntity::ArchBar(_)) => panic!(),
        Err(_) => panic!(),
    };
}

#[test]
fn test_select_any_direct() {
    let mut world = EcsWorld::default();

    let entity = world.arch_foo.push((CompA(1), CompZ));
    let entity: EntityDirectAny = world.arch_foo.to_direct(entity).unwrap().into_any();

    match entity.try_into() {
        Ok(SelectEntityDirect::ArchFoo(entity)) => {
            assert!(world.arch_foo.direct_entity(entity).is_some())
        }
        Ok(SelectEntityDirect::ArchBar(_)) => panic!(),
        Err(_) => panic!(),
    };
}

#[test]
fn select_refuses_an_unknown_archetype() {
    let mut other: Storage<(CompA, CompZ), 7> = Storage::new();
    let entity = other.push((CompA(1), CompZ)).into_any();
    let select: Result<SelectEntity, _> = entity.try_into();
    assert!(matches!(select, Err(EcsError::InvalidEntityType)));
}

const VIEW_FOO: u8 = 3;
const VIEW_BAR: u8 = 4;

#[derive(Default)]
struct ViewWorld {
    arch_foo: Storage<(CompA, CompB), VIEW_FOO>,
    arch_bar: Storage<(CompA, CompC), VIEW_BAR>,
}

enum SelectView<'a> {
    ArchFoo(&'a (CompA, CompB)),
    ArchBar(&'a (CompA, CompC)),
}

impl ViewWorld {
    fn view(&self, entity: EntityAny) -> Option<SelectView<'_>> {
        match entity.archetype_id() {
            VIEW_FOO => self.arch_foo.get(Entity::<VIEW_FOO>::from_any(entity)).map(SelectView::ArchFoo),
            VIEW_BAR => self.arch_bar.get(Entity::<VIEW_BAR>::from_any(entity)).map(SelectView::ArchBar),
            _ => None,
        }
    }
}

#[test]
fn test_select_view() {
    let mut world = ViewWorld::default();

    let entity_a = world.arch_foo.push((CompA(1), CompB(10)));
    let entity_b = world.arch_bar.push((CompA(2), CompC(20)));

    let entity_any_a = entity_a.into_any();
    let entity_any_b = entity_b.into_any();

    match world.view(entity_any_a).unwrap() {
        SelectView::ArchFoo(view) => {
            assert_eq!(&view.0, &CompA(1));
            assert_eq!(&view.1, &CompB(10));
        }
        SelectView::ArchBar(_) => panic!("Wrong view type"),
    }

    match world.view(entity_any_b).unwrap() {
        SelectView::ArchFoo(_) => panic!("Wrong view type"),
        SelectView::ArchBar(view) => {
            assert_eq!(&view.0, &CompA(2));
            assert_eq!(&view.1, &CompC(20));
        }
    }
}

#[test]
fn test_borrow() {
    let mut world = ViewWorld::default();

    let entity_a = world.arch_foo.push((CompA(1), CompB(10)));
    let _entity_b = world.arch_foo.push((CompA(2), CompB(20)));
    let entity_c = world.arch_bar.push((CompA(30), CompC(300)));

    let borrow_a = world.arch_foo.get_mut(entity_a).unwrap();
    borrow_a.0 .0 += 10;
    borrow_a.1 .0 += 10;
    let borrow_c = world.arch_bar.get_mut(entity_c).unwrap();
    borrow_c.0 .0 += 10;
    borrow_c.1 .0 += 10;

    let borrow_a = world.arch_foo.get(entity_a).unwrap();
    let borrow_c = world.arch_bar.get(entity_c).unwrap();
    assert_eq!(&borrow_a.0, &CompA(11));
    assert_eq!(&borrow_a.1, &CompB(20));
    assert_eq!(&borrow_c.0, &CompA(40));
    assert_eq!(&borrow_c.1, &CompC(310));
}
