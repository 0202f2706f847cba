use tyrne::mm::address_space::bootstrap_address_space_handle;
use tyrne::obj::task::{create_task, destroy_task, get_task, Task, TaskArena};
use tyrne::obj::{ObjError, TASK_ARENA_CAPACITY};

#[test]
fn create_then_get_round_trip() {
    let mut arena = TaskArena::default();
    let handle = create_task(&mut arena, Task::new(7, bootstrap_address_space_handle())).unwrap();
    assert_eq!(get_task(&arena, handle).map(Task::id), Some(7));
}

#[test]
fn destroy_invalidates_handle() {
    let mut arena = TaskArena::default();
    let handle = create_task(&mut arena, Task::new(1, bootstrap_address_space_handle())).unwrap();
    let removed = destroy_task(&mut arena, handle).unwrap();
    assert_eq!(removed.id(), 1);
    assert!(get_task(&arena, handle).is_none());
    assert_eq!(destroy_task(&mut arena, handle).unwrap_err(), ObjError::InvalidHandle);
}

#[test]
fn arena_exhaustion_returns_arena_full() {
    let mut arena = TaskArena::default();
    for i in 0..TASK_ARENA_CAPACITY {
        create_task(&mut arena, Task::new(i as u32, bootstrap_address_space_handle())).unwrap();
    }
    assert_eq!(
        create_task(&mut arena, Task::new(99, bootstrap_address_space_handle())).unwrap_err(),
        ObjError::ArenaFull
    );
}

#[test]
fn address_space_handle_round_trips() {
    let task = Task::new(42, bootstrap_address_space_handle());
    assert_eq!(task.address_space_handle(), bootstrap_address_space_handle());
}

#[test]
fn reused_slot_gets_a_fresh_handle() {
    let mut arena = TaskArena::default();
    let first = create_task(&mut arena, Task::new(1, bootstrap_address_space_handle())).unwrap();
    destroy_task(&mut arena, first).unwrap();
    let second = create_task(&mut arena, Task::new(2, bootstrap_address_space_handle())).unwrap();
    assert_eq!(first.slot().index(), second.slot().index());
    assert_ne!(first, second);
    assert!(get_task(&arena, first).is_none());
    assert_eq!(get_task(&arena, second).map(Task::id), Some(2));
}
