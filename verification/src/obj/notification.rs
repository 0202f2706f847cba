//! `Notification` kernel object: a word of bits that senders OR into.

use vstd::prelude::*;
use crate::obj::arena::{Arena, SlotId};
use crate::obj::{ObjError, NOTIFICATION_ARENA_CAPACITY};

verus! {

/// An asynchronous notification: a 64-bit word accumulated by bitwise OR.
#[derive(Copy, Clone, Debug, PartialEq, Eq, Structural)]
pub struct Notification {
    word: u64,
}

impl Notification {
    /// The accumulated word.
    pub closed spec fn spec_word(&self) -> u64 {
        self.word
    }

    /// Construct a notification whose word starts at `word`.
    pub fn new(word: u64) -> (r: Self)
        ensures
            r.spec_word() == word,
    {
        Notification { word }
    }

    /// The accumulated word.
    pub fn word(&self) -> (r: u64)
        ensures
            r == self.spec_word(),
    {
        self.word
    }

    /// OR `bits` into the word.
    pub fn set(&mut self, bits: u64)
        ensures
            final(self).spec_word() == old(self).spec_word() | bits,
    {
        self.word = self.word | bits;
    }
}

/// Typed handle naming a notification in a [`NotificationArena`].
#[derive(Copy, Clone, Debug, PartialEq, Eq, Structural)]
pub struct NotificationHandle(SlotId);

impl View for NotificationHandle {
    type V = SlotId;

    closed spec fn view(&self) -> SlotId {
        self.0
    }
}

impl NotificationHandle {
    /// Wrap an arena slot id.
    pub fn from_slot(slot: SlotId) -> (r: Self)
        ensures
            r@ == slot,
    {
        NotificationHandle(slot)
    }

    /// The arena slot id this handle names.
    pub fn slot(self) -> (r: SlotId)
        ensures
            r == self@,
    {
        self.0
    }

    /// A handle built from raw `(index, generation)` parts.
    pub fn test_handle(index: u16, generation: u32) -> (r: Self)
        ensures
            r@.spec_index() == index,
            r@.spec_generation() == generation,
    {
        NotificationHandle(SlotId::from_parts(index, generation))
    }
}

/// The arena type for notifications.
pub type NotificationArena = Arena<Notification, NOTIFICATION_ARENA_CAPACITY>;

/// Allocate `notification` in `arena` and return the handle naming it.
///
/// # Errors
///
/// [`ObjError::ArenaFull`] when every slot is in use (arena unchanged).
pub fn create_notification(arena: &mut NotificationArena, notification: Notification) -> (r:
    Result<NotificationHandle, ObjError>)
    requires
        old(arena).wf(),
    ensures
        final(arena).wf(),
        r.is_ok() <==> !old(arena).is_full(),
        r matches Ok(h) ==> old(arena).allocated_into(*final(arena), h@, notification),
        r matches Err(e) ==> e == ObjError::ArenaFull && *final(arena) == *old(arena),
        r matches Ok(h) ==> !old(arena)@.contains_key(h@) && final(arena)@ == old(arena)@.insert(
            h@,
            notification,
        ),
{
    match arena.allocate(notification) {
        Some(slot) => Ok(NotificationHandle(slot)),
        None => Err(ObjError::ArenaFull),
    }
}

/// Free the notification at `handle`, returning it.
///
/// # Errors
///
/// [`ObjError::InvalidHandle`] when `handle` is stale (arena unchanged).
pub fn destroy_notification(arena: &mut NotificationArena, handle: NotificationHandle) -> (r:
    Result<Notification, ObjError>)
    requires
        old(arena).wf(),
    ensures
        final(arena).wf(),
        r.is_ok() <==> old(arena)@.contains_key(handle@),
        r is Ok ==> old(arena).freed_from(*final(arena), handle@),
        r matches Err(e) ==> e == ObjError::InvalidHandle && *final(arena) == *old(arena),
        r matches Ok(t) ==> t == old(arena)@[handle@] && final(arena)@ == old(arena)@.remove(
            handle@,
        ),
{
    match arena.free(handle.0) {
        Some(t) => Ok(t),
        None => Err(ObjError::InvalidHandle),
    }
}

} // verus!
