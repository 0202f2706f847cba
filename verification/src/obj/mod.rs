//! Kernel objects: the generation-tagged arena and the object kinds it
//! stores (tasks, endpoints, notifications).

pub mod arena;
pub mod endpoint;
pub mod notification;
pub mod task;
pub mod task_loader;

use vstd::prelude::*;

verus! {

/// Bound on the number of live `Task` objects.
pub const TASK_ARENA_CAPACITY: usize = 16;
/// Bound on the number of live `Endpoint` objects.
pub const ENDPOINT_ARENA_CAPACITY: usize = 16;
/// Bound on the number of live `Notification` objects.
pub const NOTIFICATION_ARENA_CAPACITY: usize = 16;

/// Errors returned by kernel-object operations.
#[derive(Copy, Clone, Debug, PartialEq, Eq, Structural)]
#[non_exhaustive]
pub enum ObjError {
    /// The arena of this kind is full; no free slot.
    ArenaFull,
    /// The handle does not name a live slot.
    InvalidHandle,
    /// A capability table still names the object.
    StillReachable,
}

} // verus!
