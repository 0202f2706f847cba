//! Capabilities: rights, the objects they name, and the per-task
//! capability table with its derivation links.
//!
//! A table stores capabilities in a generation-tagged arena, so a handle
//! to a removed capability never resolves again. A capability derived from
//! another records its parent; a capability with live children can be
//! neither taken nor dropped.

use vstd::prelude::*;
use crate::obj::arena::{Arena, SlotId};
use crate::obj::endpoint::EndpointHandle;
use crate::obj::notification::NotificationHandle;
use crate::obj::task::TaskHandle;
use crate::mm::address_space::AddressSpaceHandle;

verus! {

/// Bound on the number of capabilities one table holds.
pub const CAP_TABLE_CAPACITY: usize = 64;

/// Right to copy the capability.
pub const RIGHT_DUPLICATE: u32 = 1;
/// Right to derive child capabilities.
pub const RIGHT_DERIVE: u32 = 2;
/// Right to revoke derived capabilities.
pub const RIGHT_REVOKE: u32 = 4;
/// Right to transfer the capability over IPC.
pub const RIGHT_TRANSFER: u32 = 8;
/// Right to send on an endpoint.
pub const RIGHT_SEND: u32 = 16;
/// Right to receive on an endpoint.
pub const RIGHT_RECV: u32 = 32;
/// Right to signal a notification.
pub const RIGHT_NOTIFY: u32 = 64;

/// A set of capability rights (bitfield).
#[derive(Copy, Clone, Debug, PartialEq, Eq, Structural)]
pub struct CapRights(u32);

impl View for CapRights {
    type V = u32;

    closed spec fn view(&self) -> u32 {
        self.0
    }
}

impl CapRights {
    /// `true` when every right of `other` is in `self`.
    pub open spec fn spec_contains(self, other: CapRights) -> bool {
        self@ & other@ == other@
    }

    /// The empty rights set.
    pub fn empty() -> (r: Self)
        ensures
            r@ == 0,
    {
        CapRights(0)
    }

    /// Rights from raw bits.
    pub fn from_raw(bits: u32) -> (r: Self)
        ensures
            r@ == bits,
    {
        CapRights(bits)
    }

    /// The raw bit pattern.
    pub fn raw(self) -> (r: u32)
        ensures
            r == self@,
    {
        self.0
    }

    /// Only [`RIGHT_DUPLICATE`].
    pub fn duplicate() -> (r: Self)
        ensures
            r@ == RIGHT_DUPLICATE,
    {
        CapRights(RIGHT_DUPLICATE)
    }

    /// Only [`RIGHT_DERIVE`].
    pub fn derive() -> (r: Self)
        ensures
            r@ == RIGHT_DERIVE,
    {
        CapRights(RIGHT_DERIVE)
    }

    /// Only [`RIGHT_REVOKE`].
    pub fn revoke() -> (r: Self)
        ensures
            r@ == RIGHT_REVOKE,
    {
        CapRights(RIGHT_REVOKE)
    }

    /// Only [`RIGHT_TRANSFER`].
    pub fn transfer() -> (r: Self)
        ensures
            r@ == RIGHT_TRANSFER,
    {
        CapRights(RIGHT_TRANSFER)
    }

    /// Only [`RIGHT_SEND`].
    pub fn send() -> (r: Self)
        ensures
            r@ == RIGHT_SEND,
    {
        CapRights(RIGHT_SEND)
    }

    /// Only [`RIGHT_RECV`].
    pub fn recv() -> (r: Self)
        ensures
            r@ == RIGHT_RECV,
    {
        CapRights(RIGHT_RECV)
    }

    /// Only [`RIGHT_NOTIFY`].
    pub fn notify() -> (r: Self)
        ensures
            r@ == RIGHT_NOTIFY,
    {
        CapRights(RIGHT_NOTIFY)
    }

    /// `true` if every right in `other` is in `self`.
    pub fn contains(self, other: Self) -> (r: bool)
        ensures
            r == self.spec_contains(other),
    {
        (self.0 & other.0) == other.0
    }

    /// The union of two rights sets.
    pub fn union(self, other: Self) -> (r: Self)
        ensures
            r@ == self@ | other@,
    {
        CapRights(self.0 | other.0)
    }
}

impl core::ops::BitOr for CapRights {
    type Output = Self;

    fn bitor(self, rhs: Self) -> (r: Self) {
        self.union(rhs)
    }
}

impl vstd::std_specs::ops::BitOrSpecImpl for CapRights {
    open spec fn obeys_bitor_spec() -> bool {
        true
    }

    open spec fn bitor_req(self, rhs: Self) -> bool {
        true
    }

    closed spec fn bitor_spec(self, rhs: Self) -> Self {
        CapRights(self.0 | rhs.0)
    }
}

/// The `|` operator on rights is the bitwise union of their bits.
pub broadcast proof fn lemma_rights_bitor_is_union(a: CapRights, b: CapRights)
    ensures
        #[trigger] vstd::std_specs::ops::BitOrSpec::bitor_spec(a, b)@ == a@ | b@,
{
}

/// The kernel object a capability names.
#[derive(Copy, Clone, Debug, PartialEq, Eq, Structural)]
pub enum CapObject {
    /// An IPC endpoint.
    Endpoint(EndpointHandle),
    /// A notification.
    Notification(NotificationHandle),
    /// A task.
    Task(TaskHandle),
    /// An address space.
    AddressSpace(AddressSpaceHandle),
}

/// The kind of object a capability names.
#[derive(Copy, Clone, Debug, PartialEq, Eq, Structural)]
pub enum CapKind {
    /// An IPC endpoint.
    Endpoint,
    /// A notification.
    Notification,
    /// A task.
    Task,
    /// An address space.
    AddressSpace,
}

/// The kind of `object`.
pub open spec fn kind_of(object: CapObject) -> CapKind {
    match object {
        CapObject::Endpoint(_) => CapKind::Endpoint,
        CapObject::Notification(_) => CapKind::Notification,
        CapObject::Task(_) => CapKind::Task,
        CapObject::AddressSpace(_) => CapKind::AddressSpace,
    }
}

/// Authority over one kernel object: a rights set and the object named.
/// Deliberately not `Copy`: a capability moves between tables.
#[derive(Debug, PartialEq, Eq, Structural)]
pub struct Capability {
    rights: CapRights,
    object: CapObject,
}

impl Capability {
    /// The capability's rights.
    pub closed spec fn spec_rights(&self) -> CapRights {
        self.rights
    }

    /// The object named.
    pub closed spec fn spec_object(&self) -> CapObject {
        self.object
    }

    /// Build a capability.
    pub fn new(rights: CapRights, object: CapObject) -> (r: Self)
        ensures
            r.spec_rights() == rights,
            r.spec_object() == object,
    {
        Capability { rights, object }
    }

    /// The capability's rights.
    pub fn rights(&self) -> (r: CapRights)
        ensures
            r == self.spec_rights(),
    {
        self.rights
    }

    /// The object named.
    pub fn object(&self) -> (r: CapObject)
        ensures
            r == self.spec_object(),
    {
        self.object
    }

    /// The kind of object named.
    pub fn kind(&self) -> (r: CapKind)
        ensures
            r == kind_of(self.spec_object()),
    {
        match self.object {
            CapObject::Endpoint(_) => CapKind::Endpoint,
            CapObject::Notification(_) => CapKind::Notification,
            CapObject::Task(_) => CapKind::Task,
            CapObject::AddressSpace(_) => CapKind::AddressSpace,
        }
    }
}

/// Errors returned by capability-table operations.
#[derive(Copy, Clone, Debug, PartialEq, Eq, Structural)]
#[non_exhaustive]
pub enum CapError {
    /// The handle does not name a live capability.
    InvalidHandle,
    /// The capability names an object of another kind than required.
    WrongKind,
    /// The capability lacks a right the operation needs.
    InsufficientRights,
    /// The table has no free slot.
    CapsExhausted,
    /// The capability still has derived children.
    HasChildren,
}

/// Handle naming a capability in a [`CapabilityTable`].
#[derive(Copy, Clone, Debug, PartialEq, Eq, Structural)]
pub struct CapHandle(SlotId);

impl View for CapHandle {
    type V = SlotId;

    closed spec fn view(&self) -> SlotId {
        self.0
    }
}

struct CapEntry {
    cap: Capability,
    parent: Option<SlotId>,
}

/// A table of capabilities with derivation links.
pub struct CapabilityTable {
    entries: Arena<CapEntry, CAP_TABLE_CAPACITY>,
}

impl CapabilityTable {
    /// Well-formedness: the arena is well formed and every capability's
    /// parent, if it has one, is live.
    pub closed spec fn wf(&self) -> bool {
        &&& self.entries.wf()
        &&& forall|s: SlotId| #[trigger] self.entries@.contains_key(s) ==> match self.entries@[s].parent {
            Some(p) => self.entries@.contains_key(p),
            None => true,
        }
    }

    /// The live capabilities, keyed by the slot ids their handles carry.
    pub closed spec fn view(&self) -> Map<SlotId, Capability> {
        Map::new(|s: SlotId| self.entries@.contains_key(s), |s: SlotId| self.entries@[s].cap)
    }

    /// The capability `s` was derived from, if any.
    pub closed spec fn parent_of(&self, s: SlotId) -> Option<SlotId> {
        self.entries@[s].parent
    }

    /// `true` when some live capability was derived from `s`.
    pub closed spec fn has_children(&self, s: SlotId) -> bool {
        exists|c: SlotId| #[trigger] self.entries@.contains_key(c) && self.entries@[c].parent
            == Some(s)
    }

    /// `true` when the table has no free slot.
    pub closed spec fn spec_is_full(&self) -> bool {
        self.entries.is_full()
    }

    /// An empty table.
    pub fn new() -> (r: Self)
        ensures
            r.wf(),
            r@ == Map::<SlotId, Capability>::empty(),
            !r.spec_is_full(),
    {
        let r = CapabilityTable { entries: Arena::new() };
        assert(r@ =~= Map::<SlotId, Capability>::empty());
        assert(!r.entries.occupied(0));
        r
    }

    /// `true` when the table has no free slot.
    #[verifier::when_used_as_spec(spec_is_full)]
    pub fn is_full(&self) -> (r: bool)
        requires
            self.wf(),
        ensures
            r == self.spec_is_full(),
    {
        !self.entries.has_free_slot()
    }

    /// Insert `cap` as a root (no parent).
    ///
    /// # Errors
    ///
    /// [`CapError::CapsExhausted`] when the table is full (table unchanged).
    pub fn insert_root(&mut self, cap: Capability) -> (r: Result<CapHandle, CapError>)
        requires
            old(self).wf(),
        ensures
            final(self).wf(),
            r.is_ok() <==> !old(self).spec_is_full(),
            r matches Err(e) ==> e == CapError::CapsExhausted && *final(self) == *old(self),
            r matches Ok(h) ==> {
                &&& !old(self)@.contains_key(h@)
                &&& final(self)@ == old(self)@.insert(h@, cap)
                &&& final(self).parent_of(h@).is_none()
                &&& !final(self).has_children(h@)
                &&& forall|s: SlotId| #[trigger] old(self)@.contains_key(s) ==> final(self).parent_of(s)
                    == old(self).parent_of(s)
                &&& forall|s: SlotId| #[trigger] old(self)@.contains_key(s) ==> final(self).has_children(s)
                    == old(self).has_children(s)
            },
    {
        let ghost pre = *self;
        match self.entries.allocate(CapEntry { cap, parent: None }) {
            Some(slot) => {
                assert(self@ =~= pre@.insert(slot, cap));
                assert forall|s: SlotId| #[trigger] pre@.contains_key(s) implies self.has_children(s)
                    == pre.has_children(s) by {
                    if self.has_children(s) {
                        let c = choose|c: SlotId| #[trigger] self.entries@.contains_key(c)
                            && self.entries@[c].parent == Some(s);
                        assert(c != slot);
                        assert(pre.entries@.contains_key(c) && pre.entries@[c].parent == Some(s));
                    }
                    if pre.has_children(s) {
                        let c = choose|c: SlotId| #[trigger] pre.entries@.contains_key(c)
                            && pre.entries@[c].parent == Some(s);
                        assert(self.entries@.contains_key(c) && self.entries@[c].parent == Some(s));
                    }
                }
                Ok(CapHandle(slot))
            },
            None => Err(CapError::CapsExhausted),
        }
    }

    /// Insert `cap` as a child of the live capability `parent`.
    ///
    /// # Errors
    ///
    /// [`CapError::InvalidHandle`] when `parent` is stale;
    /// [`CapError::CapsExhausted`] when the table is full. The table is
    /// unchanged on error.
    pub fn insert_child(&mut self, parent: CapHandle, cap: Capability) -> (r: Result<
        CapHandle,
        CapError,
    >)
        requires
            old(self).wf(),
        ensures
            final(self).wf(),
            r.is_ok() <==> old(self)@.contains_key(parent@) && !old(self).spec_is_full(),
            r matches Err(e) ==> *final(self) == *old(self) && (if !old(self)@.contains_key(
                parent@,
            ) {
                e == CapError::InvalidHandle
            } else {
                e == CapError::CapsExhausted
            }),
            r matches Ok(h) ==> {
                &&& !old(self)@.contains_key(h@)
                &&& final(self)@ == old(self)@.insert(h@, cap)
                &&& final(self).parent_of(h@) == Some(parent@)
                &&& !final(self).has_children(h@)
                &&& forall|s: SlotId| #[trigger] old(self)@.contains_key(s) ==> final(self).parent_of(s)
                    == old(self).parent_of(s)
            },
    {
        if self.entries.get(parent.0).is_none() {
            return Err(CapError::InvalidHandle);
        }
        let ghost pre = *self;
        match self.entries.allocate(CapEntry { cap, parent: Some(parent.0) }) {
            Some(slot) => {
                assert(self@ =~= pre@.insert(slot, cap));
                Ok(CapHandle(slot))
            },
            None => Err(CapError::CapsExhausted),
        }
    }

    /// The capability named by `handle`.
    ///
    /// # Errors
    ///
    /// [`CapError::InvalidHandle`] when `handle` is stale.
    pub fn lookup(&self, handle: CapHandle) -> (r: Result<&Capability, CapError>)
        requires
            self.wf(),
        ensures
            r.is_ok() <==> self@.contains_key(handle@),
            r matches Ok(c) ==> *c == self@[handle@],
            r matches Err(e) ==> e == CapError::InvalidHandle,
    {
        match self.entries.get(handle.0) {
            Some(entry) => Ok(&entry.cap),
            None => Err(CapError::InvalidHandle),
        }
    }

    /// `true` when some live capability was derived from `handle`.
    pub fn children_exist(&self, handle: CapHandle) -> (r: bool)
        requires
            self.wf(),
        ensures
            r == self.has_children(handle@),
    {
        let mut i: usize = 0;
        while i < CAP_TABLE_CAPACITY
            invariant
                self.wf(),
                i <= CAP_TABLE_CAPACITY,
                forall|j: int| 0 <= j < i && #[trigger] self.entries.occupied(j) ==> self.entries@[
                    self.entries.id_at(j)].parent != Some(handle@),
            decreases CAP_TABLE_CAPACITY - i,
        {
            match self.entries.get_at(i) {
                Some((_, entry)) => {
                    if entry.parent == Some(handle.0) {
                        return true;
                    }
                },
                None => {},
            }
            i = i + 1;
        }
        proof {
            assert forall|c: SlotId| #[trigger] self.entries@.contains_key(c) implies self.entries@[
                c].parent != Some(handle@) by {
                self.entries.lemma_live_id_is_id_at(c);
            }
        }
        false
    }

    /// Remove the capability named by `handle` and return it.
    ///
    /// # Errors
    ///
    /// [`CapError::InvalidHandle`] when `handle` is stale;
    /// [`CapError::HasChildren`] when capabilities derived from it are
    /// live. The table is unchanged on error.
    pub fn cap_take(&mut self, handle: CapHandle) -> (r: Result<Capability, CapError>)
        requires
            old(self).wf(),
        ensures
            final(self).wf(),
            r.is_ok() <==> old(self)@.contains_key(handle@) && !old(self).has_children(handle@),
            r matches Err(e) ==> *final(self) == *old(self) && (if !old(self)@.contains_key(
                handle@,
            ) {
                e == CapError::InvalidHandle
            } else {
                e == CapError::HasChildren
            }),
            r matches Ok(c) ==> {
                &&& c == old(self)@[handle@]
                &&& final(self)@ == old(self)@.remove(handle@)
                &&& forall|s: SlotId| #[trigger] final(self)@.contains_key(s) ==> final(self).parent_of(s)
                    == old(self).parent_of(s)
            },
    {
        if self.entries.get(handle.0).is_none() {
            return Err(CapError::InvalidHandle);
        }
        if self.children_exist(handle) {
            return Err(CapError::HasChildren);
        }
        let ghost pre = *self;
        match self.entries.free(handle.0) {
            Some(entry) => {
                assert(self@ =~= pre@.remove(handle@));
                Ok(entry.cap)
            },
            None => Err(CapError::InvalidHandle),
        }
    }

    /// Remove the capability named by `handle`.
    ///
    /// # Errors
    ///
    /// As [`Self::cap_take`].
    pub fn cap_drop(&mut self, handle: CapHandle) -> (r: Result<(), CapError>)
        requires
            old(self).wf(),
        ensures
            final(self).wf(),
            r.is_ok() <==> old(self)@.contains_key(handle@) && !old(self).has_children(handle@),
            r matches Err(e) ==> *final(self) == *old(self) && (if !old(self)@.contains_key(
                handle@,
            ) {
                e == CapError::InvalidHandle
            } else {
                e == CapError::HasChildren
            }),
            r is Ok ==> final(self)@ == old(self)@.remove(handle@) && forall|s: SlotId|
                #[trigger] final(self)@.contains_key(s) ==> final(self).parent_of(s) == old(
                self,
            ).parent_of(s),
    {
        match self.cap_take(handle) {
            Ok(_) => Ok(()),
            Err(e) => Err(e),
        }
    }

    /// `true` when some capability in the table names `object`.
    pub fn references_object(&self, object: CapObject) -> (r: bool)
        requires
            self.wf(),
        ensures
            r == exists|s: SlotId| #[trigger] self@.contains_key(s) && self@[s].spec_object()
                == object,
    {
        let mut i: usize = 0;
        while i < CAP_TABLE_CAPACITY
            invariant
                self.wf(),
                i <= CAP_TABLE_CAPACITY,
                forall|j: int| 0 <= j < i && #[trigger] self.entries.occupied(j) ==> self.entries@[
                    self.entries.id_at(j)].cap.spec_object() != object,
            decreases CAP_TABLE_CAPACITY - i,
        {
            match self.entries.get_at(i) {
                Some((slot, entry)) => {
                    if entry.cap.object == object {
                        assert(self@.contains_key(slot));
                        return true;
                    }
                },
                None => {},
            }
            i = i + 1;
        }
        proof {
            assert forall|c: SlotId| #[trigger] self@.contains_key(c) implies self@[c].spec_object()
                != object by {
                self.entries.lemma_live_id_is_id_at(c);
            }
        }
        false
    }
}

} // verus!
