use wayland_commons::wire::{decode_message, encode_message, Argument, ArgumentType, Message, MessageParseError};

fn all_types_sig() -> Vec<ArgumentType> {
    vec![
        ArgumentType::Int,
        ArgumentType::Uint,
        ArgumentType::Fixed,
        ArgumentType::Str(true),
        ArgumentType::Str(false),
        ArgumentType::Array,
        ArgumentType::Object(true),
        ArgumentType::Object(false),
        ArgumentType::NewId,
        ArgumentType::Fd,
    ]
}

#[test]
fn encode_simple_message_bytes() {
    let m = Message { sender_id: 3, opcode: 2, args: vec![Argument::Uint(0x0102_0304)] };
    let (bytes, fds) = encode_message(&m).unwrap();
    assert_eq!(bytes, vec![3, 0, 0, 0, 2, 0, 12, 0, 4, 3, 2, 1]);
    assert!(fds.is_empty());
}

#[test]
fn encode_string_is_nul_terminated_and_padded() {
    let m = Message { sender_id: 1, opcode: 0, args: vec![Argument::Str(Some(b"abc".to_vec()))] };
    let (bytes, _) = encode_message(&m).unwrap();
    assert_eq!(bytes, vec![1, 0, 0, 0, 0, 0, 16, 0, 4, 0, 0, 0, b'a', b'b', b'c', 0]);
    let m = Message { sender_id: 1, opcode: 0, args: vec![Argument::Str(Some(b"abcd".to_vec()))] };
    let (bytes, _) = encode_message(&m).unwrap();
    assert_eq!(bytes, vec![1, 0, 0, 0, 0, 0, 20, 0, 5, 0, 0, 0, b'a', b'b', b'c', b'd', 0, 0, 0, 0]);
}

#[test]
fn encode_fds_travel_beside_bytes() {
    let m = Message { sender_id: 7, opcode: 1, args: vec![Argument::Fd(42), Argument::Int(-1), Argument::Fd(43)] };
    let (bytes, fds) = encode_message(&m).unwrap();
    assert_eq!(bytes, vec![7, 0, 0, 0, 1, 0, 12, 0, 0xff, 0xff, 0xff, 0xff]);
    assert_eq!(fds, vec![42, 43]);
}

#[test]
fn round_trip_every_argument_type() {
    let m = Message {
        sender_id: 12,
        opcode: 1,
        args: vec![
            Argument::Int(-5),
            Argument::Uint(7),
            Argument::Fixed(-256),
            Argument::Str(None),
            Argument::Str(Some(b"hello".to_vec())),
            Argument::Array(vec![1, 2, 3, 4, 5, 6]),
            Argument::Object(0),
            Argument::Object(9),
            Argument::NewId(10),
            Argument::Fd(4),
        ],
    };
    let sigs = vec![vec![], all_types_sig()];
    let (mut bytes, mut fds) = encode_message(&m).unwrap();
    let n = bytes.len();
    bytes.extend_from_slice(&[9, 9, 9]);
    fds.push(99);
    let (back, used, used_fds) = decode_message(&bytes, &sigs, &fds).unwrap();
    assert_eq!(back, m);
    assert_eq!(used, n);
    assert_eq!(used_fds, 1);
}

#[test]
fn round_trip_empty_string_and_array() {
    let m = Message {
        sender_id: 2,
        opcode: 0,
        args: vec![Argument::Str(Some(vec![])), Argument::Array(vec![])],
    };
    let sigs = vec![vec![ArgumentType::Str(false), ArgumentType::Array]];
    let (bytes, fds) = encode_message(&m).unwrap();
    let (back, used, _) = decode_message(&bytes, &sigs, &fds).unwrap();
    assert_eq!(back, m);
    assert_eq!(used, bytes.len());
}

#[test]
fn encode_refuses_message_too_long_for_header() {
    let m = Message { sender_id: 1, opcode: 0, args: vec![Argument::Array(vec![0; 70000])] };
    assert!(encode_message(&m).is_none());
    let m = Message { sender_id: 1, opcode: 0, args: vec![Argument::Array(vec![0; 65000])] };
    assert!(encode_message(&m).is_some());
}

#[test]
fn decode_incomplete_message_needs_more_data() {
    let sigs = vec![vec![ArgumentType::Uint]];
    assert_eq!(decode_message(&[1, 0, 0], &sigs, &[]), Err(MessageParseError::MissingData));
    assert_eq!(decode_message(&[1, 0, 0, 0, 0, 0, 12, 0, 5, 0], &sigs, &[]), Err(MessageParseError::MissingData));
}

#[test]
fn decode_string_longer_than_message_is_malformed() {
    let sigs = vec![vec![ArgumentType::Str(false)]];
    let bytes = [1, 0, 0, 0, 0, 0, 16, 0, 40, 0, 0, 0, b'a', b'b', b'c', 0];
    assert_eq!(decode_message(&bytes, &sigs, &[]), Err(MessageParseError::Malformed));
}

#[test]
fn decode_null_for_non_nullable_is_malformed() {
    let sigs = vec![vec![ArgumentType::Object(false)], vec![ArgumentType::Str(false)]];
    let obj = [1, 0, 0, 0, 0, 0, 12, 0, 0, 0, 0, 0];
    assert_eq!(decode_message(&obj, &sigs, &[]), Err(MessageParseError::Malformed));
    let s = [1, 0, 0, 0, 1, 0, 12, 0, 0, 0, 0, 0];
    assert_eq!(decode_message(&s, &sigs, &[]), Err(MessageParseError::Malformed));
}

#[test]
fn decode_missing_fd() {
    let sigs = vec![vec![ArgumentType::Fd]];
    let bytes = [1, 0, 0, 0, 0, 0, 8, 0];
    assert_eq!(decode_message(&bytes, &sigs, &[]), Err(MessageParseError::MissingFd));
    let (m, _, nf) = decode_message(&bytes, &sigs, &[5, 6]).unwrap();
    assert_eq!(m.args, vec![Argument::Fd(5)]);
    assert_eq!(nf, 1);
}

#[test]
fn decode_unknown_opcode_or_bad_length_is_malformed() {
    let sigs = vec![vec![]];
    assert_eq!(decode_message(&[1, 0, 0, 0, 3, 0, 8, 0], &sigs, &[]), Err(MessageParseError::Malformed));
    assert_eq!(decode_message(&[1, 0, 0, 0, 0, 0, 4, 0], &sigs, &[]), Err(MessageParseError::Malformed));
    assert_eq!(decode_message(&[1, 0, 0, 0, 0, 0, 10, 0, 0, 0], &sigs, &[]), Err(MessageParseError::Malformed));
    assert_eq!(decode_message(&[1, 0, 0, 0, 0, 0, 12, 0, 0, 0, 0, 0], &sigs, &[]), Err(MessageParseError::Malformed));
}
