use gecs::iter::{EcsStepDestroy, EcsWalk};
use gecs::storage::Storage;

#[derive(Debug, PartialEq)]
pub struct CompA(pub u32);

fn walk_destroying_even(arch: &mut Storage<CompA, 3>, visited: &mut Vec<u32>) -> EcsWalk {
    let mut walk = match arch.len() {
        0 => EcsWalk::Finished,
        len => EcsWalk::Next(len - 1),
    };
    while let EcsWalk::Next(index) = walk {
        let value = arch.get_mut_at(index).0;
        visited.push(value);
        let step = if value % 2 == 0 { EcsStepDestroy::ContinueDestroy } else { EcsStepDestroy::Continue };
        walk = arch.walk_back_step(index, step);
    }
    walk
}

#[test]
fn walk_back_visits_each_entity_once_and_destroys_on_request() {
    let mut arch: Storage<CompA, 3> = Storage::new();
    for i in 1..=6 {
        arch.push(CompA(i));
    }
    let mut visited = Vec::new();
    assert_eq!(walk_destroying_even(&mut arch, &mut visited), EcsWalk::Finished);
    visited.sort();
    assert_eq!(visited, vec![1, 2, 3, 4, 5, 6]);
    let mut left: Vec<u32> = arch.components().iter().map(|c| c.0).collect();
    left.sort();
    assert_eq!(left, vec![1, 3, 5]);
    assert_eq!(arch.destroyed().len(), 3);
}

#[test]
fn walk_back_stops_on_break() {
    let mut arch: Storage<CompA, 3> = Storage::new();
    for i in 0..4 {
        arch.push(CompA(i));
    }
    assert_eq!(arch.walk_back_step(3, EcsStepDestroy::Continue), EcsWalk::Next(2));
    assert_eq!(arch.walk_back_step(2, EcsStepDestroy::BreakDestroy), EcsWalk::Stopped);
    assert_eq!(arch.len(), 3);
    assert_eq!(arch.walk_back_step(0, EcsStepDestroy::Continue), EcsWalk::Finished);
    assert_eq!(arch.walk_back_step(1, EcsStepDestroy::Break), EcsWalk::Stopped);
    assert_eq!(arch.len(), 3);
}

#[test]
fn pushed_handles_never_run_ahead_of_the_storage_version() {
    let mut arch: Storage<CompA, 3> = Storage::new();
    let mut handles = Vec::new();
    for i in 0..4 {
        handles.push(arch.push(CompA(i)));
    }
    for h in handles.iter() {
        assert!(h.into_any().version() <= arch.version().get());
        assert!(arch.can_destroy(*h));
    }
    assert_eq!(arch.destroy(handles[1]), Some(CompA(1)));
    let again = arch.push(CompA(9));
    assert!(again.into_any().version() <= arch.version().get());
    assert_eq!(arch.destroy(handles[1]), None);
    assert_eq!(arch.destroy(again), Some(CompA(9)));
}
