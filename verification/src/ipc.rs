//! IPC: synchronous rendezvous `send` / `recv` on endpoints and
//! non-blocking `notify` on notifications, gated by capabilities.
//!
//! Each endpoint has a depth-one waiter state:
//!
//! ```text
//! Idle ──send──► SendPending        Idle ──recv──► RecvWaiting
//! RecvWaiting ──send──► RecvComplete
//! SendPending / RecvComplete ──recv──► Idle (message delivered)
//! ```
//!
//! A capability sent with a message is removed from the sender's table,
//! held by the endpoint state, and installed as a root in the receiver's
//! table when the message is collected.

use vstd::prelude::*;
use crate::cap::{CapHandle, CapObject, CapRights, Capability, CapabilityTable, RIGHT_SEND, RIGHT_RECV};
use crate::obj::arena::SlotId;
use crate::obj::endpoint::{EndpointArena, EndpointHandle};
use crate::obj::notification::{NotificationArena, NotificationHandle};
use crate::obj::ENDPOINT_ARENA_CAPACITY;

verus! {

/// Fixed-size IPC message body, passed by value. The kernel does not
/// interpret its fields.
#[derive(Copy, Clone, Debug, Default, PartialEq, Eq)]
pub struct Message {
    /// Caller-defined discriminator.
    pub label: u64,
    /// Up to three general-purpose data words.
    pub params: [u64; 3],
}

/// Errors returned by IPC operations.
#[derive(Copy, Clone, Debug, PartialEq, Eq, Structural)]
#[non_exhaustive]
pub enum IpcError {
    /// The endpoint or notification capability is invalid, stale, names
    /// another kind of object, or lacks the required right.
    InvalidCapability,
    /// The endpoint's depth-one waiter slot is occupied.
    QueueFull,
    /// The capability nominated for transfer is invalid, stale, or still
    /// has derived children.
    InvalidTransferCap,
    /// The receiver's table has no free slot for the carried capability;
    /// nothing was delivered.
    ReceiverTableFull,
}

/// Outcome of a successful [`ipc_send`].
#[derive(Copy, Clone, Debug, PartialEq, Eq, Structural)]
pub enum SendOutcome {
    /// A receiver was waiting; the endpoint now holds the delivery for it.
    Delivered,
    /// No receiver was waiting; the message is queued on the endpoint.
    Enqueued,
}

/// Outcome of a successful [`ipc_recv`].
#[derive(Debug)]
pub enum RecvOutcome {
    /// A message was available. `cap` names the transferred capability in
    /// the receiver's table, if one came with the message.
    Received {
        /// The delivered message body.
        msg: Message,
        /// The transferred capability, installed in the receiver's table.
        cap: Option<CapHandle>,
    },
    /// No sender was ready; the endpoint now records a waiting receiver.
    Pending,
}

/// Waiter state of one endpoint.
#[derive(Debug)]
pub enum EndpointState {
    /// Nobody waiting.
    Idle,
    /// A sender's message (and capability) waits for a receiver.
    SendPending {
        /// The queued message.
        msg: Message,
        /// The capability taken from the sender, if any.
        cap: Option<Capability>,
    },
    /// A receiver waits for a sender.
    RecvWaiting,
    /// A sender delivered to the waiting receiver; it has not collected yet.
    RecvComplete {
        /// The delivered message.
        msg: Message,
        /// The capability taken from the sender, if any.
        cap: Option<Capability>,
    },
}

/// IPC waiter state for every endpoint slot, indexed by the endpoint
/// handle's slot index.
pub struct IpcQueues {
    states: Vec<EndpointState>,
}

impl IpcQueues {
    /// One state per endpoint slot.
    pub closed spec fn wf(&self) -> bool {
        self.states@.len() == ENDPOINT_ARENA_CAPACITY
    }

    /// The state of every endpoint slot.
    pub closed spec fn view(&self) -> Seq<EndpointState> {
        self.states@
    }

    /// Well-formed queues hold one state per endpoint slot.
    pub proof fn lemma_wf_len(&self)
        requires
            self.wf(),
        ensures
            self@.len() == ENDPOINT_ARENA_CAPACITY,
    {
    }

    /// Queues with every endpoint idle.
    pub fn new() -> (r: Self)
        ensures
            r.wf(),
            r@.len() == ENDPOINT_ARENA_CAPACITY,
            forall|i: int| 0 <= i < ENDPOINT_ARENA_CAPACITY ==> #[trigger] r@[i] is Idle,
    {
        let mut states: Vec<EndpointState> = Vec::new();
        let mut i: usize = 0;
        while i < ENDPOINT_ARENA_CAPACITY
            invariant
                i <= ENDPOINT_ARENA_CAPACITY,
                states@.len() == i,
                forall|j: int| 0 <= j < i ==> #[trigger] states@[j] is Idle,
            decreases ENDPOINT_ARENA_CAPACITY - i,
        {
            states.push(EndpointState::Idle);
            i = i + 1;
        }
        IpcQueues { states }
    }

    /// Replace the state of slot `i`, returning the previous one.
    fn replace_state(&mut self, i: usize, state: EndpointState) -> (r: EndpointState)
        requires
            old(self).wf(),
            i < ENDPOINT_ARENA_CAPACITY,
        ensures
            final(self).wf(),
            r == old(self)@[i as int],
            final(self)@ == old(self)@.update(i as int, state),
    {
        let mut tmp = state;
        std::mem::swap(&mut self.states[i], &mut tmp);
        tmp
    }

    /// Whether the state of slot `i` carries a capability.
    fn pending_has_cap(&self, i: usize) -> (r: bool)
        requires
            self.wf(),
            i < ENDPOINT_ARENA_CAPACITY,
        ensures
            r == carries_cap(self@[i as int]),
    {
        match &self.states[i] {
            EndpointState::SendPending { cap: Some(_), .. } => true,
            EndpointState::RecvComplete { cap: Some(_), .. } => true,
            _ => false,
        }
    }
}

impl Default for IpcQueues {
    fn default() -> (r: Self)
        ensures
            r.wf(),
            r@.len() == ENDPOINT_ARENA_CAPACITY,
            forall|i: int| 0 <= i < ENDPOINT_ARENA_CAPACITY ==> #[trigger] r@[i] is Idle,
    {
        Self::new()
    }
}

/// `true` when `state` holds a message carrying a capability.
pub open spec fn carries_cap(state: EndpointState) -> bool {
    match state {
        EndpointState::SendPending { cap, .. } => cap.is_some(),
        EndpointState::RecvComplete { cap, .. } => cap.is_some(),
        _ => false,
    }
}

/// The message an endpoint holds for a receiver, if any.
pub open spec fn queued_message(state: EndpointState) -> Option<Message> {
    match state {
        EndpointState::SendPending { msg, .. } => Some(msg),
        EndpointState::RecvComplete { msg, .. } => Some(msg),
        _ => None,
    }
}

/// What a successful send leaves on an endpoint is what the next receive
/// there returns: both contracts speak of [`queued_message`] of the same
/// endpoint state, so the message a receiver gets is the one that was
/// sent, and a receive finds a message exactly when one was left.
pub proof fn law_received_message_is_sent_message(
    after_send: EndpointState,
    sent: Message,
    received: Message,
)
    requires
        queued_message(after_send) == Some(sent),
        queued_message(after_send) == Some(received),
    ensures
        received == sent,
        after_send is SendPending || after_send is RecvComplete,
{
}

/// The endpoint `handle` names in `table`, provided the capability is
/// live, names an endpoint, and holds every right in `required`.
pub open spec fn endpoint_named(table: CapabilityTable, handle: CapHandle, required: u32) -> Option<
    EndpointHandle,
> {
    if table@.contains_key(handle@) && table@[handle@].spec_rights()@ & required == required {
        match table@[handle@].spec_object() {
            CapObject::Endpoint(e) => Some(e),
            _ => None,
        }
    } else {
        None
    }
}

/// The notification `handle` names in `table`, provided the capability is
/// live, names a notification, and holds the notify right.
pub open spec fn notification_named(table: CapabilityTable, handle: CapHandle) -> Option<
    NotificationHandle,
> {
    if table@.contains_key(handle@) && table@[handle@].spec_rights()@ & crate::cap::RIGHT_NOTIFY
        == crate::cap::RIGHT_NOTIFY {
        match table@[handle@].spec_object() {
            CapObject::Notification(n) => Some(n),
            _ => None,
        }
    } else {
        None
    }
}

/// The capability a send hands to the endpoint: the one `transfer` names,
/// taken from the sender's table.
pub open spec fn carried(table: CapabilityTable, transfer: Option<CapHandle>) -> Option<Capability> {
    match transfer {
        Some(x) => Some(table@[x@]),
        None => None,
    }
}

fn validate_ep_cap(table: &CapabilityTable, ep_cap: CapHandle, required: CapRights) -> (r: Result<
    EndpointHandle,
    IpcError,
>)
    requires
        table.wf(),
    ensures
        r matches Ok(e) ==> endpoint_named(*table, ep_cap, required@) == Some(e),
        r is Err ==> endpoint_named(*table, ep_cap, required@).is_none() && r == Err::<
            EndpointHandle,
            IpcError,
        >(IpcError::InvalidCapability),
{
    let cap = match table.lookup(ep_cap) {
        Ok(c) => c,
        Err(_) => return Err(IpcError::InvalidCapability),
    };
    if !cap.rights().contains(required) {
        return Err(IpcError::InvalidCapability);
    }
    match cap.object() {
        CapObject::Endpoint(h) => Ok(h),
        _ => Err(IpcError::InvalidCapability),
    }
}

fn take_cap_if_some(table: &mut CapabilityTable, handle: Option<CapHandle>) -> (r: Result<
    Option<Capability>,
    IpcError,
>)
    requires
        old(table).wf(),
    ensures
        final(table).wf(),
        r is Ok <==> (handle matches Some(h) ==> old(table)@.contains_key(h@) && !old(
            table,
        ).has_children(h@)),
        r is Err ==> *final(table) == *old(table) && r == Err::<Option<Capability>, IpcError>(
            IpcError::InvalidTransferCap,
        ),
        r matches Ok(c) ==> c == carried(*old(table), handle) && (match handle {
            Some(h) => final(table)@ == old(table)@.remove(h@),
            None => *final(table) == *old(table),
        }),
{
    match handle {
        Some(h) => match table.cap_take(h) {
            Ok(c) => Ok(Some(c)),
            Err(_) => Err(IpcError::InvalidTransferCap),
        },
        None => Ok(None),
    }
}

fn install_cap_if_some(table: &mut CapabilityTable, cap: Option<Capability>) -> (r: Result<
    Option<CapHandle>,
    IpcError,
>)
    requires
        old(table).wf(),
    ensures
        final(table).wf(),
        r is Ok <==> (cap.is_some() ==> !old(table).spec_is_full()),
        r is Err ==> *final(table) == *old(table) && r == Err::<Option<CapHandle>, IpcError>(
            IpcError::ReceiverTableFull,
        ),
        r matches Ok(h) ==> (h.is_some() == cap.is_some()) && (match (h, cap) {
            (Some(h), Some(c)) => !old(table)@.contains_key(h@) && final(table)@ == old(
                table,
            )@.insert(h@, c),
            _ => *final(table) == *old(table),
        }),
        r matches Ok(Some(h)) ==> {
            &&& final(table).parent_of(h@).is_none()
            &&& !final(table).has_children(h@)
            &&& forall|s: SlotId| #[trigger] old(table)@.contains_key(s) ==> final(table).parent_of(s)
                == old(table).parent_of(s) && final(table).has_children(s) == old(table).has_children(s)
        },
{
    match cap {
        Some(c) => match table.insert_root(c) {
            Ok(h) => Ok(Some(h)),
            Err(_) => Err(IpcError::ReceiverTableFull),
        },
        None => Ok(None),
    }
}


/// Send `msg` on the endpoint named by `ep_cap` (which must hold the send
/// right), optionally transferring the capability `transfer` out of the
/// caller's table.
///
/// Checks, in order: the endpoint capability, the transfer handle, that
/// the endpoint is live, then the endpoint's waiter state. On every error
/// nothing changes.
///
/// # Errors
///
/// - [`IpcError::InvalidCapability`]: `ep_cap` is stale, lacks the send
///   right, names no endpoint, or the endpoint is dead.
/// - [`IpcError::InvalidTransferCap`]: `transfer` is stale or still has
///   derived children.
/// - [`IpcError::QueueFull`]: a send is pending or an uncollected delivery
///   is waiting.
pub fn ipc_send(
    ep_arena: &mut EndpointArena,
    queues: &mut IpcQueues,
    ep_cap: CapHandle,
    caller_table: &mut CapabilityTable,
    msg: Message,
    transfer: Option<CapHandle>,
) -> (r: Result<SendOutcome, IpcError>)
    requires
        old(ep_arena).wf(),
        old(queues).wf(),
        old(caller_table).wf(),
    ensures
        *final(ep_arena) == *old(ep_arena),
        final(queues).wf(),
        final(queues)@.len() == ENDPOINT_ARENA_CAPACITY,
        final(caller_table).wf(),
        r is Err ==> final(queues)@ == old(queues)@ && *final(caller_table) == *old(caller_table),
        ({
            let ep = endpoint_named(*old(caller_table), ep_cap, RIGHT_SEND);
            let xfer_live = transfer matches Some(x) ==> old(caller_table)@.contains_key(x@);
            let xfer_free = transfer matches Some(x) ==> !old(caller_table).has_children(x@);
            if ep.is_none() {
                r == Err::<SendOutcome, IpcError>(IpcError::InvalidCapability)
            } else if !xfer_live {
                r == Err::<SendOutcome, IpcError>(IpcError::InvalidTransferCap)
            } else if !old(ep_arena)@.contains_key(ep.unwrap()@) {
                r == Err::<SendOutcome, IpcError>(IpcError::InvalidCapability)
            } else {
                let i = ep.unwrap()@.spec_index() as int;
                match old(queues)@[i] {
                    EndpointState::SendPending { .. } | EndpointState::RecvComplete { .. } => r
                        == Err::<SendOutcome, IpcError>(IpcError::QueueFull),
                    EndpointState::Idle => if !xfer_free {
                        r == Err::<SendOutcome, IpcError>(IpcError::InvalidTransferCap)
                    } else {
                        &&& r == Ok::<SendOutcome, IpcError>(SendOutcome::Enqueued)
                        &&& final(queues)@ == old(queues)@.update(
                            i,
                            EndpointState::SendPending {
                                msg,
                                cap: carried(*old(caller_table), transfer),
                            },
                        )
                    },
                    EndpointState::RecvWaiting => if !xfer_free {
                        r == Err::<SendOutcome, IpcError>(IpcError::InvalidTransferCap)
                    } else {
                        &&& r == Ok::<SendOutcome, IpcError>(SendOutcome::Delivered)
                        &&& final(queues)@ == old(queues)@.update(
                            i,
                            EndpointState::RecvComplete {
                                msg,
                                cap: carried(*old(caller_table), transfer),
                            },
                        )
                    },
                }
            }
        }),
        r is Ok ==> queued_message(
            final(queues)@[endpoint_named(*old(caller_table), ep_cap, RIGHT_SEND).unwrap()@.spec_index() as int],
        ) == Some(msg),
        r is Ok ==> match transfer {
            Some(x) => final(caller_table)@ == old(caller_table)@.remove(x@),
            None => *final(caller_table) == *old(caller_table),
        },
{
    let ep_handle = validate_ep_cap(caller_table, ep_cap, CapRights::send())?;
    if let Some(xfer) = transfer {
        if caller_table.lookup(xfer).is_err() {
            return Err(IpcError::InvalidTransferCap);
        }
    }
    if ep_arena.get(ep_handle.slot()).is_none() {
        return Err(IpcError::InvalidCapability);
    }
    proof {
        ep_arena.lemma_live_id_is_id_at(ep_handle@);
    }
    let i = ep_handle.slot().index() as usize;
    let old_state = queues.replace_state(i, EndpointState::Idle);
    match old_state {
        EndpointState::RecvWaiting => {
            match take_cap_if_some(caller_table, transfer) {
                Ok(owned) => {
                    queues.replace_state(i, EndpointState::RecvComplete { msg, cap: owned });
                    Ok(SendOutcome::Delivered)
                },
                Err(e) => {
                    queues.replace_state(i, EndpointState::RecvWaiting);
                    assert(queues@ =~= old(queues)@);
                    Err(e)
                },
            }
        },
        EndpointState::Idle => {
            match take_cap_if_some(caller_table, transfer) {
                Ok(owned) => {
                    queues.replace_state(i, EndpointState::SendPending { msg, cap: owned });
                    Ok(SendOutcome::Enqueued)
                },
                Err(e) => {
                    queues.replace_state(i, EndpointState::Idle);
                    assert(queues@ =~= old(queues)@);
                    Err(e)
                },
            }
        },
        occupied => {
            queues.replace_state(i, occupied);
            assert(queues@ =~= old(queues)@);
            Err(IpcError::QueueFull)
        },
    }
}

/// Receive on the endpoint named by `ep_cap` (which must hold the receive
/// right).
///
/// A queued send or an uncollected delivery is returned at once (and a
/// carried capability installed as a root in the caller's table);
/// otherwise the endpoint records a waiting receiver and `Pending` is
/// returned. On every error nothing changes.
///
/// # Errors
///
/// - [`IpcError::InvalidCapability`]: `ep_cap` is stale, lacks the
///   receive right, names no endpoint, or the endpoint is dead.
/// - [`IpcError::ReceiverTableFull`]: the message carries a capability and
///   the caller's table is full.
/// - [`IpcError::QueueFull`]: a receiver is already waiting.
pub fn ipc_recv(
    ep_arena: &mut EndpointArena,
    queues: &mut IpcQueues,
    ep_cap: CapHandle,
    caller_table: &mut CapabilityTable,
) -> (r: Result<RecvOutcome, IpcError>)
    requires
        old(ep_arena).wf(),
        old(queues).wf(),
        old(caller_table).wf(),
    ensures
        *final(ep_arena) == *old(ep_arena),
        final(queues).wf(),
        final(queues)@.len() == ENDPOINT_ARENA_CAPACITY,
        final(caller_table).wf(),
        r is Err ==> final(queues)@ == old(queues)@ && *final(caller_table) == *old(caller_table),
        r matches Ok(RecvOutcome::Received { cap: Some(h), .. }) ==> {
            &&& final(caller_table).parent_of(h@).is_none()
            &&& !final(caller_table).has_children(h@)
            &&& forall|s: SlotId| #[trigger] old(caller_table)@.contains_key(s)
                ==> final(caller_table).parent_of(s) == old(caller_table).parent_of(s)
                && final(caller_table).has_children(s) == old(caller_table).has_children(s)
        },
        r matches Ok(RecvOutcome::Received { msg: m, .. }) ==> queued_message(
            old(queues)@[endpoint_named(*old(caller_table), ep_cap, RIGHT_RECV).unwrap()@.spec_index() as int],
        ) == Some(m),
        ({
            let ep = endpoint_named(*old(caller_table), ep_cap, RIGHT_RECV);
            if ep.is_none() || !old(ep_arena)@.contains_key(ep.unwrap()@) {
                r matches Err(e) && e == IpcError::InvalidCapability
            } else {
                let i = ep.unwrap()@.spec_index() as int;
                if carries_cap(old(queues)@[i]) && old(caller_table).spec_is_full() {
                    r matches Err(e) && e == IpcError::ReceiverTableFull
                } else {
                    match old(queues)@[i] {
                        EndpointState::SendPending { msg, cap } | EndpointState::RecvComplete {
                            msg,
                            cap,
                        } => {
                            &&& final(queues)@ == old(queues)@.update(i, EndpointState::Idle)
                            &&& r matches Ok(RecvOutcome::Received { msg: m, cap: h }) && m == msg
                                && h.is_some() == cap.is_some() && match (h, cap) {
                                (Some(h), Some(c)) => !old(caller_table)@.contains_key(h@)
                                    && final(caller_table)@ == old(caller_table)@.insert(h@, c),
                                _ => *final(caller_table) == *old(caller_table),
                            }
                        },
                        EndpointState::Idle => {
                            &&& r matches Ok(RecvOutcome::Pending)
                            &&& final(queues)@ == old(queues)@.update(i, EndpointState::RecvWaiting)
                            &&& *final(caller_table) == *old(caller_table)
                        },
                        EndpointState::RecvWaiting => r matches Err(e) && e == IpcError::QueueFull,
                    }
                }
            }
        }),
{
    let ep_handle = match validate_ep_cap(caller_table, ep_cap, CapRights::recv()) {
        Ok(h) => h,
        Err(e) => return Err(e),
    };
    if ep_arena.get(ep_handle.slot()).is_none() {
        return Err(IpcError::InvalidCapability);
    }
    proof {
        ep_arena.lemma_live_id_is_id_at(ep_handle@);
    }
    let i = ep_handle.slot().index() as usize;
    if queues.pending_has_cap(i) && caller_table.is_full() {
        return Err(IpcError::ReceiverTableFull);
    }
    let old_state = queues.replace_state(i, EndpointState::Idle);
    match old_state {
        EndpointState::SendPending { msg, cap } | EndpointState::RecvComplete { msg, cap } => {
            match install_cap_if_some(caller_table, cap) {
                Ok(xfer) => Ok(RecvOutcome::Received { msg, cap: xfer }),
                Err(e) => Err(e),
            }
        },
        EndpointState::Idle => {
            queues.replace_state(i, EndpointState::RecvWaiting);
            Ok(RecvOutcome::Pending)
        },
        EndpointState::RecvWaiting => {
            queues.replace_state(i, EndpointState::RecvWaiting);
            assert(queues@ =~= old(queues)@);
            Err(IpcError::QueueFull)
        },
    }
}

/// OR `bits` into the notification named by `notif_cap` (which must hold
/// the notify right). Non-blocking.
///
/// # Errors
///
/// [`IpcError::InvalidCapability`]: `notif_cap` is stale, lacks the notify
/// right, names no notification, or the notification is dead (arena
/// unchanged).
pub fn ipc_notify(
    notif_arena: &mut NotificationArena,
    notif_cap: CapHandle,
    caller_table: &CapabilityTable,
    bits: u64,
) -> (r: Result<(), IpcError>)
    requires
        old(notif_arena).wf(),
        caller_table.wf(),
    ensures
        final(notif_arena).wf(),
        ({
            let n = notification_named(*caller_table, notif_cap);
            if n.is_none() || !old(notif_arena)@.contains_key(n.unwrap()@) {
                r == Err::<(), IpcError>(IpcError::InvalidCapability) && *final(notif_arena)
                    == *old(notif_arena)
            } else {
                let id = n.unwrap()@;
                &&& r is Ok
                &&& final(notif_arena)@.contains_key(id)
                &&& final(notif_arena)@[id].spec_word() == old(notif_arena)@[id].spec_word() | bits
                &&& final(notif_arena)@ == old(notif_arena)@.insert(id, final(notif_arena)@[id])
            }
        }),
{
    let cap = match caller_table.lookup(notif_cap) {
        Ok(c) => c,
        Err(_) => return Err(IpcError::InvalidCapability),
    };
    if !cap.rights().contains(CapRights::notify()) {
        return Err(IpcError::InvalidCapability);
    }
    let notif_handle = match cap.object() {
        CapObject::Notification(h) => h,
        _ => return Err(IpcError::InvalidCapability),
    };
    match notif_arena.get_mut(notif_handle.slot()) {
        Some(notif) => {
            notif.set(bits);
            Ok(())
        },
        None => Err(IpcError::InvalidCapability),
    }
}

} // verus!
