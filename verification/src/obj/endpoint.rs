//! `Endpoint` kernel object: the rendezvous point of synchronous IPC.

use vstd::prelude::*;
use crate::obj::arena::{Arena, SlotId};
use crate::obj::{ObjError, ENDPOINT_ARENA_CAPACITY};

verus! {

/// An IPC endpoint, identified by a caller-chosen number. Its waiter
/// state lives in `ipc::IpcQueues`.
#[derive(Debug, PartialEq, Eq, Structural)]
pub struct Endpoint {
    id: u32,
}

impl Endpoint {
    /// The endpoint's identifier.
    pub closed spec fn spec_id(&self) -> u32 {
        self.id
    }

    /// Construct an endpoint with the given identifier.
    pub fn new(id: u32) -> (r: Self)
        ensures
            r.spec_id() == id,
    {
        Endpoint { id }
    }

    /// The endpoint's identifier.
    pub fn id(&self) -> (r: u32)
        ensures
            r == self.spec_id(),
    {
        self.id
    }
}

/// Typed handle naming an endpoint in an [`EndpointArena`].
#[derive(Copy, Clone, Debug, PartialEq, Eq, Structural)]
pub struct EndpointHandle(SlotId);

impl View for EndpointHandle {
    type V = SlotId;

    closed spec fn view(&self) -> SlotId {
        self.0
    }
}

impl EndpointHandle {
    /// Wrap an arena slot id.
    pub fn from_slot(slot: SlotId) -> (r: Self)
        ensures
            r@ == slot,
    {
        EndpointHandle(slot)
    }

    /// The arena slot id this handle names.
    pub fn slot(self) -> (r: SlotId)
        ensures
            r == self@,
    {
        self.0
    }

    /// A handle built from raw `(index, generation)` parts.
    pub fn test_handle(index: u16, generation: u32) -> (r: Self)
        ensures
            r@.spec_index() == index,
            r@.spec_generation() == generation,
    {
        EndpointHandle(SlotId::from_parts(index, generation))
    }
}

/// The arena type for endpoints.
pub type EndpointArena = Arena<Endpoint, ENDPOINT_ARENA_CAPACITY>;

/// Allocate `endpoint` in `arena` and return the handle naming it.
///
/// # Errors
///
/// [`ObjError::ArenaFull`] when every slot is in use (arena unchanged).
pub fn create_endpoint(arena: &mut EndpointArena, endpoint: Endpoint) -> (r: Result<
    EndpointHandle,
    ObjError,
>)
    requires
        old(arena).wf(),
    ensures
        final(arena).wf(),
        r.is_ok() <==> !old(arena).is_full(),
        r matches Ok(h) ==> old(arena).allocated_into(*final(arena), h@, endpoint),
        r matches Err(e) ==> e == ObjError::ArenaFull && *final(arena) == *old(arena),
        r matches Ok(h) ==> !old(arena)@.contains_key(h@) && final(arena)@ == old(arena)@.insert(
            h@,
            endpoint,
        ),
{
    match arena.allocate(endpoint) {
        Some(slot) => Ok(EndpointHandle(slot)),
        None => Err(ObjError::ArenaFull),
    }
}

/// Free the endpoint at `handle`, returning it.
///
/// # Errors
///
/// [`ObjError::InvalidHandle`] when `handle` is stale (arena unchanged).
pub fn destroy_endpoint(arena: &mut EndpointArena, handle: EndpointHandle) -> (r: Result<
    Endpoint,
    ObjError,
>)
    requires
        old(arena).wf(),
    ensures
        final(arena).wf(),
        r.is_ok() <==> old(arena)@.contains_key(handle@),
        r is Ok ==> old(arena).freed_from(*final(arena), handle@),
        r matches Err(e) ==> e == ObjError::InvalidHandle && *final(arena) == *old(arena),
        r matches Ok(t) ==> t == old(arena)@[handle@] && final(arena)@ == old(arena)@.remove(
            handle@,
        ),
{
    match arena.free(handle.0) {
        Some(t) => Ok(t),
        None => Err(ObjError::InvalidHandle),
    }
}

} // verus!
