use tyrne::cap::{CapHandle, CapObject, CapRights, Capability, CapabilityTable};
use tyrne::ipc::{ipc_notify, ipc_recv, ipc_send, IpcError, IpcQueues, Message, RecvOutcome, SendOutcome};
use tyrne::obj::endpoint::{create_endpoint, Endpoint, EndpointArena, EndpointHandle};
use tyrne::obj::notification::{create_notification, Notification, NotificationArena};

fn all_ep_rights() -> CapRights {
    CapRights::send()
        | CapRights::recv()
        | CapRights::duplicate()
        | CapRights::derive()
        | CapRights::revoke()
        | CapRights::transfer()
}

fn all_task_rights() -> CapRights {
    CapRights::duplicate() | CapRights::derive() | CapRights::revoke() | CapRights::transfer()
}

fn setup_ep(
    table: &mut CapabilityTable,
    ep_arena: &mut EndpointArena,
    rights: CapRights,
) -> (EndpointHandle, CapHandle) {
    let ep_handle = create_endpoint(ep_arena, Endpoint::new(0)).unwrap();
    let cap = Capability::new(rights, CapObject::Endpoint(ep_handle));
    let cap_handle = table.insert_root(cap).unwrap();
    (ep_handle, cap_handle)
}

fn setup_notif(table: &mut CapabilityTable, notif_arena: &mut NotificationArena) -> CapHandle {
    let notif_handle = create_notification(notif_arena, Notification::new(0)).unwrap();
    let cap = Capability::new(
        CapRights::notify() | CapRights::duplicate(),
        CapObject::Notification(notif_handle),
    );
    table.insert_root(cap).unwrap()
}

fn test_msg(label: u64) -> Message {
    Message {
        label,
        params: [label, label, label],
    }
}

#[test]
fn sender_first_delivers_on_recv() {
    let mut sender_table = CapabilityTable::new();
    let mut ep_arena = EndpointArena::default();
    let mut queues = IpcQueues::new();
    let (_, ep_cap) = setup_ep(&mut sender_table, &mut ep_arena, all_ep_rights());

    let outcome = ipc_send(&mut ep_arena, &mut queues, ep_cap, &mut sender_table, test_msg(42), None)
        .unwrap();
    assert_eq!(outcome, SendOutcome::Enqueued);

    let mut recv_table = CapabilityTable::new();
    let recv_ep_cap = {
        let cap = Capability::new(
            all_ep_rights(),
            CapObject::Endpoint(match sender_table.lookup(ep_cap).unwrap().object() {
                CapObject::Endpoint(h) => h,
                _ => panic!("wrong kind"),
            }),
        );
        recv_table.insert_root(cap).unwrap()
    };

    let recv_outcome = ipc_recv(&mut ep_arena, &mut queues, recv_ep_cap, &mut recv_table).unwrap();
    let RecvOutcome::Received { msg, cap: None } = recv_outcome else {
        panic!("expected Received, got {recv_outcome:?}");
    };
    assert_eq!(msg, test_msg(42));
}

#[test]
fn receiver_first_delivers_on_send() {
    let mut recv_table = CapabilityTable::new();
    let mut ep_arena = EndpointArena::default();
    let mut queues = IpcQueues::new();
    let (ep_handle, recv_ep_cap) = setup_ep(&mut recv_table, &mut ep_arena, all_ep_rights());

    let outcome1 = ipc_recv(&mut ep_arena, &mut queues, recv_ep_cap, &mut recv_table).unwrap();
    assert!(matches!(outcome1, RecvOutcome::Pending));

    let mut sender_table = CapabilityTable::new();
    let sender_ep_cap = {
        let cap = Capability::new(all_ep_rights(), CapObject::Endpoint(ep_handle));
        sender_table.insert_root(cap).unwrap()
    };
    let send_outcome = ipc_send(
        &mut ep_arena,
        &mut queues,
        sender_ep_cap,
        &mut sender_table,
        test_msg(99),
        None,
    )
    .unwrap();
    assert_eq!(send_outcome, SendOutcome::Delivered);

    let outcome2 = ipc_recv(&mut ep_arena, &mut queues, recv_ep_cap, &mut recv_table).unwrap();
    let RecvOutcome::Received { msg, cap: None } = outcome2 else {
        panic!("expected Received, got {outcome2:?}");
    };
    assert_eq!(msg, test_msg(99));
}

#[test]
fn send_transfers_cap_atomically() {
    let mut sender_table = CapabilityTable::new();
    let mut ep_arena = EndpointArena::default();
    let mut queues = IpcQueues::new();
    let (ep_handle, ep_cap) = setup_ep(&mut sender_table, &mut ep_arena, all_ep_rights());

    let (_, xfer_ep_handle) = {
        let h = create_endpoint(&mut ep_arena, Endpoint::new(1)).unwrap();
        let c = Capability::new(all_ep_rights(), CapObject::Endpoint(h));
        let ch = sender_table.insert_root(c).unwrap();
        (ch, h)
    };
    let xfer_cap_h = {
        let c = Capability::new(all_task_rights(), CapObject::Endpoint(xfer_ep_handle));
        sender_table.insert_root(c).unwrap()
    };

    ipc_send(
        &mut ep_arena,
        &mut queues,
        ep_cap,
        &mut sender_table,
        test_msg(1),
        Some(xfer_cap_h),
    )
    .unwrap();

    assert!(sender_table.lookup(xfer_cap_h).is_err());

    let mut recv_table = CapabilityTable::new();
    let recv_ep_cap = {
        let c = Capability::new(all_ep_rights(), CapObject::Endpoint(ep_handle));
        recv_table.insert_root(c).unwrap()
    };
    let outcome = ipc_recv(&mut ep_arena, &mut queues, recv_ep_cap, &mut recv_table).unwrap();
    let RecvOutcome::Received {
        msg,
        cap: Some(recv_cap_h),
    } = outcome
    else {
        panic!("expected Received with cap, got {outcome:?}");
    };
    assert_eq!(msg, test_msg(1));
    assert!(recv_table.lookup(recv_cap_h).is_ok());
}

#[test]
fn receiver_first_then_send_with_cap() {
    let mut recv_table = CapabilityTable::new();
    let mut ep_arena = EndpointArena::default();
    let mut queues = IpcQueues::new();
    let (ep_handle, recv_ep_cap) = setup_ep(&mut recv_table, &mut ep_arena, all_ep_rights());

    ipc_recv(&mut ep_arena, &mut queues, recv_ep_cap, &mut recv_table).unwrap();

    let mut sender_table = CapabilityTable::new();
    let (_, task_ep_handle) = {
        let h = create_endpoint(&mut ep_arena, Endpoint::new(2)).unwrap();
        let c = Capability::new(all_ep_rights(), CapObject::Endpoint(h));
        let ch = sender_table.insert_root(c).unwrap();
        (ch, h)
    };
    let xfer_cap_h = {
        let c = Capability::new(all_task_rights(), CapObject::Endpoint(task_ep_handle));
        sender_table.insert_root(c).unwrap()
    };
    let sender_ep_cap = {
        let c = Capability::new(all_ep_rights(), CapObject::Endpoint(ep_handle));
        sender_table.insert_root(c).unwrap()
    };

    let send_out = ipc_send(
        &mut ep_arena,
        &mut queues,
        sender_ep_cap,
        &mut sender_table,
        test_msg(77),
        Some(xfer_cap_h),
    )
    .unwrap();
    assert_eq!(send_out, SendOutcome::Delivered);
    assert!(sender_table.lookup(xfer_cap_h).is_err());

    let outcome = ipc_recv(&mut ep_arena, &mut queues, recv_ep_cap, &mut recv_table).unwrap();
    let RecvOutcome::Received {
        msg,
        cap: Some(recv_cap_h),
    } = outcome
    else {
        panic!("expected Received with cap, got {outcome:?}");
    };
    assert_eq!(msg, test_msg(77));
    assert!(recv_table.lookup(recv_cap_h).is_ok());
}

#[test]
fn send_without_send_right_fails() {
    let mut table = CapabilityTable::new();
    let mut ep_arena = EndpointArena::default();
    let mut queues = IpcQueues::new();
    let (_, ep_cap) = setup_ep(&mut table, &mut ep_arena, CapRights::recv());
    assert_eq!(
        ipc_send(&mut ep_arena, &mut queues, ep_cap, &mut table, test_msg(0), None).unwrap_err(),
        IpcError::InvalidCapability
    );
}

#[test]
fn recv_without_recv_right_fails() {
    let mut table = CapabilityTable::new();
    let mut ep_arena = EndpointArena::default();
    let mut queues = IpcQueues::new();
    let (_, ep_cap) = setup_ep(&mut table, &mut ep_arena, CapRights::send());
    assert_eq!(
        ipc_recv(&mut ep_arena, &mut queues, ep_cap, &mut table).unwrap_err(),
        IpcError::InvalidCapability
    );
}

#[test]
fn second_send_when_pending_fails() {
    let mut table = CapabilityTable::new();
    let mut ep_arena = EndpointArena::default();
    let mut queues = IpcQueues::new();
    let (_, ep_cap) = setup_ep(&mut table, &mut ep_arena, all_ep_rights());

    ipc_send(&mut ep_arena, &mut queues, ep_cap, &mut table, test_msg(1), None).unwrap();
    assert_eq!(
        ipc_send(&mut ep_arena, &mut queues, ep_cap, &mut table, test_msg(2), None).unwrap_err(),
        IpcError::QueueFull
    );
}

#[test]
fn second_recv_when_waiting_fails() {
    let mut table = CapabilityTable::new();
    let mut ep_arena = EndpointArena::default();
    let mut queues = IpcQueues::new();
    let (_, ep_cap) = setup_ep(&mut table, &mut ep_arena, all_ep_rights());

    ipc_recv(&mut ep_arena, &mut queues, ep_cap, &mut table).unwrap();
    assert_eq!(
        ipc_recv(&mut ep_arena, &mut queues, ep_cap, &mut table).unwrap_err(),
        IpcError::QueueFull
    );
}

#[test]
fn notify_sets_bits() {
    let mut table = CapabilityTable::new();
    let mut notif_arena = NotificationArena::default();
    let notif_cap = setup_notif(&mut table, &mut notif_arena);

    ipc_notify(&mut notif_arena, notif_cap, &table, 0b0101).unwrap();
    ipc_notify(&mut notif_arena, notif_cap, &table, 0b1010).unwrap();

    let notif_handle = match table.lookup(notif_cap).unwrap().object() {
        CapObject::Notification(h) => h,
        _ => panic!("wrong kind"),
    };
    let word = notif_arena.get(notif_handle.slot()).unwrap().word();
    assert_eq!(word, 0b1111);
}

#[test]
fn notify_without_notify_right_fails() {
    let mut table = CapabilityTable::new();
    let mut notif_arena = NotificationArena::default();
    let notif_handle = create_notification(&mut notif_arena, Notification::new(0)).unwrap();
    let cap = Capability::new(CapRights::duplicate(), CapObject::Notification(notif_handle));
    let cap_h = table.insert_root(cap).unwrap();
    assert_eq!(
        ipc_notify(&mut notif_arena, cap_h, &table, 0xFF).unwrap_err(),
        IpcError::InvalidCapability
    );
}

#[test]
fn blocked_sender_delivered_on_subsequent_recv() {
    let mut sender_table = CapabilityTable::new();
    let mut ep_arena = EndpointArena::default();
    let mut queues = IpcQueues::new();
    let (ep_handle, ep_cap) = setup_ep(&mut sender_table, &mut ep_arena, all_ep_rights());

    assert_eq!(
        ipc_send(&mut ep_arena, &mut queues, ep_cap, &mut sender_table, test_msg(55), None).unwrap(),
        SendOutcome::Enqueued
    );

    let mut recv_table = CapabilityTable::new();
    let recv_ep_cap = {
        let c = Capability::new(all_ep_rights(), CapObject::Endpoint(ep_handle));
        recv_table.insert_root(c).unwrap()
    };
    let outcome = ipc_recv(&mut ep_arena, &mut queues, recv_ep_cap, &mut recv_table).unwrap();
    let RecvOutcome::Received { msg, cap: None } = outcome else {
        panic!("expected Received");
    };
    assert_eq!(msg, test_msg(55));
}

#[test]
fn transferred_cap_keeps_its_rights_and_object() {
    let mut sender_table = CapabilityTable::new();
    let mut ep_arena = EndpointArena::default();
    let mut queues = IpcQueues::new();
    let (ep_handle, ep_cap) = setup_ep(&mut sender_table, &mut ep_arena, all_ep_rights());
    let other = create_endpoint(&mut ep_arena, Endpoint::new(7)).unwrap();
    let xfer = sender_table
        .insert_root(Capability::new(CapRights::send(), CapObject::Endpoint(other)))
        .unwrap();
    ipc_send(&mut ep_arena, &mut queues, ep_cap, &mut sender_table, test_msg(3), Some(xfer)).unwrap();

    let mut recv_table = CapabilityTable::new();
    let recv_cap = recv_table
        .insert_root(Capability::new(all_ep_rights(), CapObject::Endpoint(ep_handle)))
        .unwrap();
    let RecvOutcome::Received { cap: Some(got), .. } =
        ipc_recv(&mut ep_arena, &mut queues, recv_cap, &mut recv_table).unwrap()
    else {
        panic!("expected a transferred capability");
    };
    let installed = recv_table.lookup(got).unwrap();
    assert_eq!(installed.rights(), CapRights::send());
    assert_eq!(installed.object(), CapObject::Endpoint(other));
}
