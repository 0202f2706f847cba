//! `Task` kernel object and its arena operations.

use vstd::prelude::*;
use crate::obj::arena::{Arena, SlotId};
use crate::obj::{ObjError, TASK_ARENA_CAPACITY};
use crate::mm::address_space::AddressSpaceHandle;

verus! {

/// A scheduled execution context: its identifier and the address space
/// it runs against.
#[derive(Debug)]
pub struct Task {
    id: u32,
    address_space_handle: AddressSpaceHandle,
}

impl Task {
    /// The task's identifier.
    pub closed spec fn spec_id(&self) -> u32 {
        self.id
    }

    /// The address space the task runs against.
    pub closed spec fn spec_address_space(&self) -> AddressSpaceHandle {
        self.address_space_handle
    }

    /// Construct a task with the given identifier and address-space handle.
    pub fn new(id: u32, address_space_handle: AddressSpaceHandle) -> (r: Self)
        ensures
            r.spec_id() == id,
            r.spec_address_space() == address_space_handle,
    {
        Task { id, address_space_handle }
    }

    /// The task's identifier.
    pub fn id(&self) -> (r: u32)
        ensures
            r == self.spec_id(),
    {
        self.id
    }

    /// The address space the task runs in.
    pub fn address_space_handle(&self) -> (r: AddressSpaceHandle)
        ensures
            r == self.spec_address_space(),
    {
        self.address_space_handle
    }
}

/// Typed handle naming a task in a [`TaskArena`].
#[derive(Copy, Clone, Debug, PartialEq, Eq, Structural)]
pub struct TaskHandle(SlotId);

impl View for TaskHandle {
    type V = SlotId;

    closed spec fn view(&self) -> SlotId {
        self.0
    }
}

impl TaskHandle {
    /// Wrap an arena slot id.
    pub fn from_slot(slot: SlotId) -> (r: Self)
        ensures
            r@ == slot,
    {
        TaskHandle(slot)
    }

    /// The arena slot id this handle names.
    pub fn slot(self) -> (r: SlotId)
        ensures
            r == self@,
    {
        self.0
    }

    /// A handle built from raw `(index, generation)` parts, for composing
    /// capabilities without allocating.
    pub fn test_handle(index: u16, generation: u32) -> (r: Self)
        ensures
            r@.spec_index() == index,
            r@.spec_generation() == generation,
    {
        TaskHandle(SlotId::from_parts(index, generation))
    }
}

/// The arena type for tasks.
pub type TaskArena = Arena<Task, TASK_ARENA_CAPACITY>;

/// Allocate `task` in `arena` and return the handle naming it.
///
/// # Errors
///
/// [`ObjError::ArenaFull`] when every slot is in use (arena unchanged).
pub fn create_task(arena: &mut TaskArena, task: Task) -> (r: Result<TaskHandle, ObjError>)
    requires
        old(arena).wf(),
    ensures
        final(arena).wf(),
        r.is_ok() <==> !old(arena).is_full(),
        r matches Ok(h) ==> old(arena).allocated_into(*final(arena), h@, task),
        r matches Err(e) ==> e == ObjError::ArenaFull && *final(arena) == *old(arena),
        r matches Ok(h) ==> !old(arena)@.contains_key(h@) && final(arena)@ == old(arena)@.insert(
            h@,
            task,
        ),
{
    match arena.allocate(task) {
        Some(slot) => Ok(TaskHandle(slot)),
        None => Err(ObjError::ArenaFull),
    }
}

/// Free the task at `handle`, returning it.
///
/// # Errors
///
/// [`ObjError::InvalidHandle`] when `handle` is stale or already freed
/// (arena unchanged).
pub fn destroy_task(arena: &mut TaskArena, handle: TaskHandle) -> (r: Result<Task, ObjError>)
    requires
        old(arena).wf(),
    ensures
        final(arena).wf(),
        r.is_ok() <==> old(arena)@.contains_key(handle@),
        r is Ok ==> old(arena).freed_from(*final(arena), handle@),
        r matches Err(e) ==> e == ObjError::InvalidHandle && *final(arena) == *old(arena),
        r matches Ok(t) ==> t == old(arena)@[handle@] && final(arena)@ == old(arena)@.remove(
            handle@,
        ),
{
    match arena.free(handle.0) {
        Some(t) => Ok(t),
        None => Err(ObjError::InvalidHandle),
    }
}

/// The task at `handle`, or `None` when the handle is stale.
pub fn get_task(arena: &TaskArena, handle: TaskHandle) -> (r: Option<&Task>)
    requires
        arena.wf(),
    ensures
        r.is_some() <==> arena@.contains_key(handle@),
        r matches Some(t) ==> *t == arena@[handle@],
{
    arena.get(handle.0)
}

} // verus!
