use wayland_commons::connection::{sync_request, Connection, Dispatched, InterfaceDesc, Roundtrip, SendError};
use wayland_commons::map::Side;
use wayland_commons::wire::{encode_message, Argument, ArgumentType, Message, MessageParseError};

fn interfaces() -> Vec<InterfaceDesc> {
    vec![
        InterfaceDesc {
            name: "wl_display".to_string(),
            version: 1,
            requests: vec![vec![ArgumentType::NewId], vec![ArgumentType::NewId]],
            events: vec![
                vec![ArgumentType::Object(false), ArgumentType::Uint, ArgumentType::Str(false)],
                vec![ArgumentType::Uint],
            ],
            event_children: vec![None, None],
        },
        InterfaceDesc {
            name: "wl_surface".to_string(),
            version: 4,
            requests: vec![vec![]],
            events: vec![
                vec![ArgumentType::Uint],
                vec![ArgumentType::Fd],
                vec![ArgumentType::NewId],
                vec![ArgumentType::TypedObject(false, 1)],
            ],
            event_children: vec![None, None, Some(1), None],
        },
    ]
}

fn error_event(object: u32, code: u32, text: &[u8]) -> Message {
    Message {
        sender_id: 1,
        opcode: 0,
        args: vec![Argument::Object(object), Argument::Uint(code), Argument::Str(Some(text.to_vec()))],
    }
}

fn delete_id(id: u32) -> Message {
    Message { sender_id: 1, opcode: 1, args: vec![Argument::Uint(id)] }
}

#[test]
fn new_connection_has_root_object() {
    let c = Connection::new(interfaces(), 0);
    let root = c.object(1).unwrap();
    assert_eq!(root.interface, 0);
    assert_eq!(root.queue, 0);
    assert!(root.dispatcher);
    assert!(c.object(2).is_none());
    assert!(c.fatal_error().is_none());
    assert!(c.protocol_error().is_none());
}

#[test]
fn destroy_then_acknowledge_removes_once() {
    let mut c = Connection::new(interfaces(), 0);
    c.insert_object(5, 1, 4, 0).unwrap();
    assert_eq!(c.check_send(5), Ok(()));
    assert!(!c.destroy_object(5));
    assert!(c.object(5).is_some());
    assert_eq!(c.check_send(5), Err(SendError::UseAfterDestroy));
    assert_eq!(c.handle_display_event(&delete_id(5)), Dispatched::Yes);
    assert!(c.object(5).is_none());
    assert_eq!(c.check_send(5), Err(SendError::UnknownObject));
    assert_eq!(c.handle_display_event(&delete_id(5)), Dispatched::Yes);
    assert!(c.object(5).is_none());
}

#[test]
fn acknowledge_before_local_destroy() {
    let mut c = Connection::new(interfaces(), 0);
    c.insert_object(5, 1, 4, 0).unwrap();
    assert_eq!(c.handle_display_event(&delete_id(5)), Dispatched::Yes);
    assert!(c.object(5).unwrap().remote_destroyed);
    assert!(c.destroy_object(5));
    assert!(c.object(5).is_none());
}

#[test]
fn protocol_error_recorded_once() {
    let mut c = Connection::new(interfaces(), 0);
    c.insert_object(7, 1, 4, 0).unwrap();
    assert_eq!(c.handle_display_event(&error_event(7, 3, b"bad buffer")), Dispatched::Yes);
    let e = c.protocol_error().unwrap();
    assert_eq!(e.code, 3);
    assert_eq!(e.object_id, 7);
    assert_eq!(e.object_interface, "wl_surface");
    assert_eq!(e.message, b"bad buffer".to_vec());
    assert_eq!(c.handle_display_event(&error_event(1, 9, b"other")), Dispatched::Yes);
    assert_eq!(c.protocol_error().unwrap().code, 3);
}

#[test]
fn protocol_error_interface_past_table_is_unknown() {
    let mut c = Connection::new(interfaces(), 0);
    c.insert_object(8, 17, 1, 0).unwrap();
    assert_eq!(c.handle_display_event(&error_event(8, 1, b"x")), Dispatched::Yes);
    assert_eq!(c.protocol_error().unwrap().object_interface, "<unknown>");
}

#[test]
fn display_bad_messages() {
    let mut c = Connection::new(interfaces(), 0);
    assert_eq!(c.handle_display_event(&error_event(40, 1, b"x")), Dispatched::BadMsg);
    assert!(c.protocol_error().is_none());
    assert_eq!(c.fatal_error(), Some(MessageParseError::Malformed));
    let wrong = Message { sender_id: 1, opcode: 2, args: vec![] };
    assert_eq!(c.handle_display_event(&wrong), Dispatched::BadMsg);
    let wrong_args = Message { sender_id: 1, opcode: 1, args: vec![Argument::Int(3)] };
    assert_eq!(c.handle_display_event(&wrong_args), Dispatched::BadMsg);
}

#[test]
fn receive_routes_to_object_queues() {
    let mut c = Connection::new(interfaces(), 0);
    c.insert_object(3, 1, 4, 0).unwrap();
    c.insert_object(4, 1, 4, 2).unwrap();
    let m1 = Message { sender_id: 3, opcode: 0, args: vec![Argument::Uint(11)] };
    let m2 = Message { sender_id: 4, opcode: 1, args: vec![Argument::Fd(20)] };
    let mut bytes = encode_message(&m1).unwrap().0;
    bytes.extend(encode_message(&m2).unwrap().0);
    let full = bytes.len();
    bytes.extend_from_slice(&[3, 0, 0, 0]);
    let (routed, n, nf) = c.receive(&bytes, &[20, 21]).unwrap();
    assert_eq!(routed.len(), 2);
    assert_eq!((routed[0].queue, routed[0].message.clone()), (0, m1));
    assert_eq!((routed[1].queue, routed[1].message.clone()), (2, m2));
    assert_eq!(n, full);
    assert_eq!(nf, 1);
}

#[test]
fn receive_drops_messages_for_locally_destroyed_objects() {
    let mut c = Connection::new(interfaces(), 0);
    c.insert_object(3, 1, 4, 0).unwrap();
    c.destroy_object(3);
    let m1 = Message { sender_id: 3, opcode: 0, args: vec![Argument::Uint(11)] };
    let bytes = encode_message(&m1).unwrap().0;
    let (routed, n, _) = c.receive(&bytes, &[]).unwrap();
    assert!(routed.is_empty());
    assert_eq!(n, bytes.len());
}

#[test]
fn receive_stops_on_unknown_object() {
    let mut c = Connection::new(interfaces(), 0);
    c.insert_object(3, 1, 4, 0).unwrap();
    let good = Message { sender_id: 3, opcode: 0, args: vec![Argument::Uint(1)] };
    let bad = Message { sender_id: 99, opcode: 0, args: vec![Argument::Uint(1)] };
    let mut bytes = encode_message(&good).unwrap().0;
    bytes.extend(encode_message(&bad).unwrap().0);
    bytes.extend(encode_message(&good).unwrap().0);
    assert_eq!(c.receive(&bytes, &[]), Err(MessageParseError::Malformed));
}

#[test]
fn receive_stops_on_declared_length_beyond_argument() {
    let mut c = Connection::new(interfaces(), 0);
    c.insert_object(3, 1, 4, 0).unwrap();
    let bytes = [3, 0, 0, 0, 0, 0, 8, 0];
    assert_eq!(c.receive(&bytes, &[]), Err(MessageParseError::Malformed));
}

#[test]
fn receive_missing_fd_surfaces() {
    let mut c = Connection::new(interfaces(), 0);
    c.insert_object(4, 1, 4, 0).unwrap();
    let m = Message { sender_id: 4, opcode: 1, args: vec![Argument::Fd(20)] };
    let bytes = encode_message(&m).unwrap().0;
    assert_eq!(c.receive(&bytes, &[]), Err(MessageParseError::MissingFd));
}

#[test]
fn roundtrip_waits_for_its_callback() {
    let req = sync_request(30);
    assert_eq!(req, Message { sender_id: 1, opcode: 0, args: vec![Argument::NewId(30)] });
    let mut r = Roundtrip::new(30);
    assert!(!r.observe(&Message { sender_id: 5, opcode: 0, args: vec![] }));
    assert!(!r.observe(&Message { sender_id: 30, opcode: 1, args: vec![] }));
    assert!(!r.done());
    assert!(r.observe(&Message { sender_id: 30, opcode: 0, args: vec![Argument::Uint(1)] }));
    assert!(r.done());
    assert!(!r.observe(&Message { sender_id: 5, opcode: 0, args: vec![] }));
    assert!(r.done());
}

#[test]
fn receive_registers_new_objects_before_next_message() {
    let mut c = Connection::new(interfaces(), 0);
    c.insert_object(3, 1, 4, 2).unwrap();
    let create = Message { sender_id: 3, opcode: 2, args: vec![Argument::NewId(50)] };
    let from_child = Message { sender_id: 50, opcode: 0, args: vec![Argument::Uint(8)] };
    let mut bytes = encode_message(&create).unwrap().0;
    bytes.extend(encode_message(&from_child).unwrap().0);
    let (routed, n, _) = c.receive(&bytes, &[]).unwrap();
    assert_eq!(n, bytes.len());
    assert_eq!(routed.len(), 2);
    assert_eq!(routed[1].queue, 2);
    let child = c.object(50).unwrap();
    assert_eq!((child.interface, child.version, child.queue), (1, 4, 2));
}

#[test]
fn receive_refuses_taken_new_id() {
    let mut c = Connection::new(interfaces(), 0);
    c.insert_object(3, 1, 4, 0).unwrap();
    let create = Message { sender_id: 3, opcode: 2, args: vec![Argument::NewId(3)] };
    let bytes = encode_message(&create).unwrap().0;
    assert_eq!(c.receive(&bytes, &[]), Err(MessageParseError::Malformed));
}

#[test]
fn receive_refuses_unknown_object_argument() {
    let mut c = Connection::new(interfaces(), 0);
    c.insert_object(3, 1, 4, 0).unwrap();
    let bad = error_event(77, 1, b"x");
    let bytes = encode_message(&bad).unwrap().0;
    assert_eq!(c.receive(&bytes, &[]), Err(MessageParseError::Malformed));
    assert_eq!(c.fatal_error(), Some(MessageParseError::Malformed));
    let good = Message { sender_id: 3, opcode: 0, args: vec![Argument::Uint(1)] };
    assert_eq!(c.receive(&encode_message(&good).unwrap().0, &[]), Err(MessageParseError::Malformed));
}

#[test]
fn receive_accepts_known_object_argument() {
    let mut c = Connection::new(interfaces(), 0);
    c.insert_object(3, 1, 4, 0).unwrap();
    let ok = error_event(3, 1, b"x");
    let bytes = encode_message(&ok).unwrap().0;
    let (routed, _, _) = c.receive(&bytes, &[]).unwrap();
    assert_eq!(routed[0].message, ok);
    assert!(c.fatal_error().is_none());
}

#[test]
fn connection_allocates_increasing_ids() {
    let mut c = Connection::new(interfaces(), 0);
    assert_eq!(c.allocate_id(Side::Client), Some(2));
    assert_eq!(c.allocate_id(Side::Client), Some(3));
    assert!(c.object(2).is_none());
}

#[test]
fn prepare_request_registers_new_ids() {
    let mut c = Connection::new(interfaces(), 0);
    let req = Message { sender_id: 1, opcode: 0, args: vec![Argument::NewId(9)] };
    assert_eq!(c.prepare_request(&req, Some(1)), Ok(()));
    let o = c.object(9).unwrap();
    assert_eq!((o.interface, o.version, o.queue), (1, 1, 0));
    assert_eq!(c.prepare_request(&req, Some(1)), Err(SendError::BadNewId));
    let lost = Message { sender_id: 44, opcode: 0, args: vec![] };
    assert_eq!(c.prepare_request(&lost, None), Err(SendError::UnknownObject));
    c.destroy_object(9);
    let dead = Message { sender_id: 9, opcode: 0, args: vec![] };
    assert_eq!(c.prepare_request(&dead, None), Err(SendError::UseAfterDestroy));
}

#[test]
fn poison_keeps_first_error() {
    let mut c = Connection::new(interfaces(), 0);
    assert_eq!(c.poison(MessageParseError::MissingFd), MessageParseError::MissingFd);
    assert_eq!(c.poison(MessageParseError::Malformed), MessageParseError::MissingFd);
    assert_eq!(c.fatal_error(), Some(MessageParseError::MissingFd));
}

#[test]
fn receive_checks_interface_of_typed_reference() {
    let mut c = Connection::new(interfaces(), 0);
    c.insert_object(3, 1, 4, 0).unwrap();
    let good = Message { sender_id: 3, opcode: 3, args: vec![Argument::Object(3)] };
    let (routed, _, _) = c.receive(&encode_message(&good).unwrap().0, &[]).unwrap();
    assert_eq!(routed[0].message, good);
    let wrong = Message { sender_id: 3, opcode: 3, args: vec![Argument::Object(1)] };
    assert_eq!(c.receive(&encode_message(&wrong).unwrap().0, &[]), Err(MessageParseError::Malformed));
}
