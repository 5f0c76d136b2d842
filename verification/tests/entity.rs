use gecs::entity::{Entity, EntityAny, EntityDirect};
use gecs::error::EcsError;
use gecs::storage::Storage;

#[derive(Debug, PartialEq)]
pub struct CompA(pub u32);

#[test]
fn test_raw() {
    let mut arch: Storage<CompA, 0> = Storage::new();

    // Filler to check for bad region access
    arch.push(CompA(0xFEEEEEED));

    let entity = arch.push(CompA(0xDEADBEEF));

    // Filler to check for bad region access
    arch.push(CompA(0xBEEEEEEF));

    assert_eq!(arch.get(entity).map(|a| a.0), Some(0xDEADBEEF));

    let entity = EntityAny::from_raw(entity.into_any().raw()).unwrap();
    let entity = Entity::<0>::try_from_any(entity).unwrap();
    assert_eq!(arch.get(entity).map(|a| a.0), Some(0xDEADBEEF));
}

#[test]
fn test_zero_version() {
    let raw = (0u32, 0u32);
    let res = EntityAny::from_raw(raw);
    assert!(matches!(res, Err(EcsError::InvalidRawEntity)));
}

#[test]
fn test_invalid_archetype_id_2() {
    let mut arch_baz: Storage<CompA, 25> = Storage::new();

    let entity = arch_baz.push(CompA(0)).into_any();

    let as_foo = Entity::<20>::try_from_any(entity);
    let as_bar = Entity::<30>::try_from_any(entity);
    assert!(as_foo.is_err());
    assert!(as_bar.is_err());
    assert!(matches!(as_foo, Err(EcsError::InvalidEntityType)));
}

#[test]
fn raw_packs_index_and_archetype() {
    let mut arch: Storage<CompA, 7> = Storage::with_capacity(4);
    let e0 = arch.push(CompA(0));
    let e1 = arch.push(CompA(1));
    assert_eq!(e0.into_any().raw(), (7, 1));
    assert_eq!(e1.into_any().raw(), ((1 << 8) | 7, 1));
    assert_eq!(e1.into_any().archetype_id(), 7);
    assert_eq!(e1.archetype_id(), 7);
    assert_eq!(e1.into_any().index().get(), 1);
    assert_eq!(e1.into_any().version(), 1);
}

#[test]
fn reused_slot_gets_new_version() {
    let mut arch: Storage<CompA, 1> = Storage::with_capacity(1);
    let e0 = arch.push(CompA(0));
    arch.destroy(e0).unwrap();
    let e1 = arch.push(CompA(1));
    assert_eq!(e0.into_any().index().get(), e1.into_any().index().get());
    assert_eq!(e0.into_any().version(), 1);
    assert_eq!(e1.into_any().version(), 2);
    assert_ne!(e0, e1);
    assert!(arch.get(e0).is_none());
    assert_eq!(arch.get(e1), Some(&CompA(1)));
}

#[test]
fn from_raw_accepts_nonzero_version() {
    let e = EntityAny::from_raw((0x0000_0305, 9)).unwrap();
    assert_eq!(e.archetype_id(), 5);
    assert_eq!(e.index().get(), 3);
    assert_eq!(e.version(), 9);
    assert_eq!(e.raw(), (0x0000_0305, 9));
    let typed = Entity::<5>::from_any(e);
    assert_eq!(typed.into_any(), e);
}

#[test]
fn direct_any_round_trip() {
    let mut arch: Storage<CompA, 2> = Storage::new();
    let e = arch.push(CompA(3));
    let direct = arch.to_direct(e).unwrap();
    let any = direct.into_any();
    assert_eq!(any.archetype_id(), 2);
    assert_eq!(direct.archetype_id(), 2);
    assert!(EntityDirect::<2>::try_from_any(any).is_ok());
    assert!(matches!(EntityDirect::<3>::try_from_any(any), Err(EcsError::InvalidEntityType)));
}

#[test]
fn error_messages() {
    assert_eq!(EcsError::InvalidEntityType.message(), "invalid type for entity");
    assert_eq!(EcsError::InvalidRawEntity.message(), "invalid raw entity data");
}

#[test]
fn std_conversions_between_typed_and_any() {
    let mut arch: Storage<CompA, 4> = Storage::new();
    let e = arch.push(CompA(1));
    let any: EntityAny = e.into();
    assert_eq!(any, e.into_any());
    let back: Result<Entity<4>, EcsError> = any.try_into();
    assert_eq!(back, Ok(e));
    let wrong: Result<Entity<5>, EcsError> = any.try_into();
    assert_eq!(wrong, Err(EcsError::InvalidEntityType));

    let direct = arch.to_direct(e).unwrap();
    let direct_any: gecs::entity::EntityDirectAny = direct.into();
    let direct_back: Result<EntityDirect<4>, EcsError> = direct_any.try_into();
    assert_eq!(direct_back, Ok(direct));
}
