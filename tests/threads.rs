use wayland_commons::client::ClientState;
use wayland_commons::connection::{Connection, InterfaceDesc, Routed};
use wayland_commons::guard::ThreadGuard;
use wayland_commons::queue::{DispatchStep, ReadAction, ReadCoordinator};
use wayland_commons::wire::{encode_message, Argument, ArgumentType, Message, MessageParseError};

fn conn() -> Connection {
    let ifaces = vec![
        InterfaceDesc {
            name: "wl_display".to_string(),
            version: 1,
            requests: vec![],
            events: vec![
                vec![ArgumentType::Object(false), ArgumentType::Uint, ArgumentType::Str(false)],
                vec![ArgumentType::Uint],
            ],
            event_children: vec![],
        },
        InterfaceDesc {
            name: "wl_seat".to_string(),
            version: 1,
            requests: vec![],
            events: vec![vec![ArgumentType::Uint]],
            event_children: vec![],
        },
    ];
    let mut c = Connection::new(ifaces, 0);
    c.insert_object(10, 1, 1, 1).unwrap();
    c.insert_object(20, 1, 1, 2).unwrap();
    c
}

fn ev(sender: u32, v: u32) -> Message {
    Message { sender_id: sender, opcode: 0, args: vec![Argument::Uint(v)] }
}

fn delete_id(id: u32) -> Message {
    Message { sender_id: 1, opcode: 1, args: vec![Argument::Uint(id)] }
}

fn error_event(object: u32) -> Message {
    Message {
        sender_id: 1,
        opcode: 0,
        args: vec![Argument::Object(object), Argument::Uint(1), Argument::Str(Some(b"bad".to_vec()))],
    }
}

fn routed(queue: usize, m: Message) -> Routed {
    Routed { queue, message: m }
}

fn messages(rc: &mut ReadCoordinator, q: usize, c: &mut Connection) -> Vec<Message> {
    let (d, err) = rc.dispatch_pending(q, c);
    assert!(err.is_none());
    d.into_iter().map(|d| d.message).collect()
}

#[test]
fn prepare_read_refused_until_drained() {
    let mut c = conn();
    let mut rc = ReadCoordinator::new();
    let q = rc.add_queue();
    assert_eq!(rc.prepare_read(q), Ok(()));
    assert_eq!(rc.read_events(q), ReadAction::Read);
    rc.complete_read(vec![routed(q, ev(10, 1)), routed(0, delete_id(10)), routed(q, ev(10, 2))]);
    assert_eq!(rc.prepare_read(q), Err(()));
    assert_eq!(messages(&mut rc, q, &mut c), vec![ev(10, 1), ev(10, 2)]);
    assert_eq!(rc.prepare_read(q), Ok(()));
    assert_eq!(rc.prepare_read(0), Err(()));
}

#[test]
fn cancel_read_twice_is_like_once() {
    let mut rc = ReadCoordinator::new();
    let q = rc.add_queue();
    rc.prepare_read(0).unwrap();
    rc.prepare_read(q).unwrap();
    assert!(!rc.cancel_read(q));
    assert!(!rc.cancel_read(q));
    assert_eq!(rc.serial(), 0);
    assert_eq!(rc.read_events(q), ReadAction::NotPrepared);
    assert_eq!(rc.read_events(0), ReadAction::Read);
}

#[test]
fn cancel_by_last_reader_releases_waiters() {
    let mut rc = ReadCoordinator::new();
    let a = rc.add_queue();
    let b = rc.add_queue();
    rc.prepare_read(a).unwrap();
    rc.prepare_read(b).unwrap();
    assert_eq!(rc.read_events(b), ReadAction::Wait);
    let before = rc.serial();
    assert!(rc.cancel_read(a));
    assert_ne!(rc.serial(), before);
    assert!(!rc.cancel_read(a));
    rc.prepare_read(b).unwrap();
    assert_eq!(rc.read_events(b), ReadAction::Read);
}

#[test]
fn only_one_thread_reads_at_a_time() {
    let mut c = conn();
    let mut rc = ReadCoordinator::new();
    let a = rc.add_queue();
    let b = rc.add_queue();
    assert_eq!(rc.prepare_read(a), Ok(()));
    assert_eq!(rc.read_events(a), ReadAction::Read);
    assert_eq!(rc.prepare_read(b), Ok(()));
    assert_eq!(rc.read_events(b), ReadAction::Wait);
    let before = rc.serial();
    rc.complete_read(vec![routed(b, ev(20, 1)), routed(b, ev(20, 2)), routed(a, ev(10, 3))]);
    assert_ne!(rc.serial(), before);
    assert_eq!(messages(&mut rc, b, &mut c), vec![ev(20, 1), ev(20, 2)]);
    assert_eq!(messages(&mut rc, a, &mut c), vec![ev(10, 3)]);
}

#[test]
fn last_declared_reader_reads() {
    let mut rc = ReadCoordinator::new();
    let a = rc.add_queue();
    let b = rc.add_queue();
    rc.prepare_read(a).unwrap();
    rc.prepare_read(b).unwrap();
    assert_eq!(rc.read_events(a), ReadAction::Wait);
    assert_eq!(rc.read_events(b), ReadAction::Read);
}

#[test]
fn late_events_for_destroyed_object_are_dropped() {
    let mut c = conn();
    let mut rc = ReadCoordinator::new();
    let q1 = rc.add_queue();
    rc.complete_read(vec![routed(q1, ev(10, 1)), routed(q1, ev(10, 2))]);
    c.destroy_object(10);
    assert_eq!(rc.dispatch_pending(q1, &mut c), (vec![], None));
    assert!(c.object(10).is_some());
    assert_eq!(rc.prepare_read(q1), Ok(()));
}

#[test]
fn handler_or_fallback() {
    let mut c = conn();
    let mut rc = ReadCoordinator::new();
    let q1 = rc.add_queue();
    assert!(c.attach_dispatcher(10));
    rc.complete_read(vec![routed(q1, ev(10, 1))]);
    let (d, _) = rc.dispatch_pending(q1, &mut c);
    assert_eq!(d.len(), 1);
    assert!(d[0].to_handler);
    c.insert_object(11, 1, 1, q1).unwrap();
    rc.complete_read(vec![routed(q1, ev(11, 1))]);
    assert!(!rc.dispatch_pending(q1, &mut c).0[0].to_handler);
}

#[test]
fn dispatch_stops_after_malformed_read() {
    let mut c = conn();
    let mut rc = ReadCoordinator::new();
    let q1 = rc.add_queue();
    rc.complete_read(vec![routed(q1, ev(10, 1))]);
    assert_eq!(rc.next_step(q1, &c), DispatchStep::Dispatch);
    rc.prepare_read(0).unwrap();
    assert_eq!(rc.read_events(0), ReadAction::Read);
    let mut bytes = encode_message(&ev(10, 5)).unwrap().0;
    bytes.extend(encode_message(&ev(99, 5)).unwrap().0);
    assert_eq!(rc.finish_read(&mut c, &bytes, &[]), Err(MessageParseError::Malformed));
    assert_eq!(rc.next_step(q1, &c), DispatchStep::Fail(MessageParseError::Malformed));
    assert_eq!(rc.dispatch_pending(q1, &mut c), (vec![], Some(MessageParseError::Malformed)));
    assert_eq!(c.receive(&encode_message(&ev(10, 5)).unwrap().0, &[]), Err(MessageParseError::Malformed));
}

#[test]
fn finish_read_buffers_in_wire_order() {
    let mut c = conn();
    let mut rc = ReadCoordinator::new();
    let q1 = rc.add_queue();
    let q2 = rc.add_queue();
    assert_eq!(rc.next_step(q1, &c), DispatchStep::Read);
    rc.prepare_read(q1).unwrap();
    assert_eq!(rc.read_events(q1), ReadAction::Read);
    let mut bytes = Vec::new();
    for m in [ev(10, 1), ev(20, 2), ev(10, 3)] {
        bytes.extend(encode_message(&m).unwrap().0);
    }
    let n = bytes.len();
    bytes.extend_from_slice(&[10, 0]);
    assert_eq!(rc.finish_read(&mut c, &bytes, &[]), Ok((n, 0)));
    assert_eq!(messages(&mut rc, q1, &mut c), vec![ev(10, 1), ev(10, 3)]);
    assert_eq!(messages(&mut rc, q2, &mut c), vec![ev(20, 2)]);
}

#[test]
fn destructor_from_other_thread_refused() {
    let c = ClientState::new(1);
    assert!(!c.is_owner(2));
    assert!(c.is_owner(1));
}

#[test]
fn destructors_run_once_in_order() {
    let mut c = ClientState::new(1);
    c.add_destructor(1, 10);
    c.add_destructor(1, 11);
    c.add_destructor(1, 12);
    assert!(c.alive());
    assert_eq!(c.disconnect(), vec![10, 11, 12]);
    assert!(!c.alive());
    assert!(c.disconnect().is_empty());
}

#[test]
fn create_resource_checks_liveness() {
    let mut c = ClientState::new(4);
    assert!(!c.is_owner(5));
    assert!(c.create_resource(4));
    c.disconnect();
    assert!(!c.create_resource(4));
}

#[test]
fn thread_guard_access() {
    let mut g = ThreadGuard::new(5u32, 7);
    assert_eq!(g.try_get(8), None);
    assert_eq!(g.try_get(7), Some(&5));
    *g.get_mut(7) = 6;
    assert_eq!(*g.get(7), 6);
    assert!(g.try_get_mut(1).is_none());
    if let Some(v) = g.try_get_mut(7) {
        *v = 9;
    }
    assert_eq!(*g.get(7), 9);
}

#[test]
fn root_messages_are_handled_during_dispatch() {
    let mut c = conn();
    let mut rc = ReadCoordinator::new();
    c.destroy_object(20);
    rc.complete_read(vec![routed(0, delete_id(20)), routed(0, error_event(10))]);
    let (d, err) = rc.dispatch_pending(0, &mut c);
    assert!(d.is_empty());
    assert!(err.is_none());
    assert!(c.object(20).is_none());
    assert_eq!(c.protocol_error().unwrap().object_id, 10);
}

#[test]
fn dispatch_stops_at_bad_root_message() {
    let mut c = conn();
    let mut rc = ReadCoordinator::new();
    c.destroy_object(20);
    c.assign_queue(10, 0);
    rc.complete_read(vec![
        routed(0, ev(10, 1)),
        routed(0, delete_id(20)),
        routed(0, error_event(20)),
        routed(0, ev(10, 2)),
    ]);
    let (d, err) = rc.dispatch_pending(0, &mut c);
    assert_eq!(d.len(), 1);
    assert_eq!(d[0].message, ev(10, 1));
    assert_eq!(err, Some(MessageParseError::Malformed));
    assert_eq!(c.fatal_error(), Some(MessageParseError::Malformed));
    assert!(c.protocol_error().is_none());
    assert_eq!(rc.next_step(0, &c), DispatchStep::Fail(MessageParseError::Malformed));
}

#[test]
fn new_queue_starts_empty() {
    let mut c = conn();
    let mut rc = ReadCoordinator::new();
    let q1 = rc.add_queue();
    rc.complete_read(vec![routed(q1, ev(10, 1))]);
    let q2 = rc.add_queue();
    assert_eq!(rc.queue_count(), 3);
    assert_eq!(rc.next_step(q2, &c), DispatchStep::Read);
    assert_eq!(rc.prepare_read(q2), Ok(()));
    assert!(messages(&mut rc, q2, &mut c).is_empty());
    assert_eq!(messages(&mut rc, q1, &mut c), vec![ev(10, 1)]);
}
