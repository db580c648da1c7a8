use ssh_obi::protocol::{
    is_disconnect_error, read_frame, supports_protocol_baseline, ByteCursor, ExitStatus, Frame,
    MessageType, ProtocolError, HEADER_LEN, MAX_PAYLOAD_LEN,
};

#[test]
fn frame_round_trips() {
    let frame = Frame::new(MessageType::DETACH(), 7, b"payload".to_vec()).unwrap();
    let mut bytes = Vec::new();
    frame.write_to(&mut bytes).unwrap();

    let decoded = read_frame(&mut ByteCursor::new(bytes)).unwrap().unwrap();
    assert_eq!(decoded, frame);
}

#[test]
fn clean_eof_before_header_is_none() {
    assert!(read_frame(&mut ByteCursor::new(Vec::<u8>::new()))
        .unwrap()
        .is_none());
}

#[test]
fn oversized_payload_is_rejected_before_allocation() {
    let mut bytes = Vec::new();
    bytes.push(MessageType::PTY_DATA().get());
    bytes.push(0);
    bytes.extend_from_slice(&((MAX_PAYLOAD_LEN as u32) + 1).to_be_bytes());

    let err = read_frame(&mut ByteCursor::new(bytes)).unwrap_err();
    assert!(matches!(err, ProtocolError::PayloadTooLarge { .. }));
}

#[test]
fn frame_wire_layout_is_type_flags_big_endian_length_payload() {
    let frame = Frame::new(MessageType::PTY_DATA(), 3, vec![0xaa; 258]).unwrap();
    let mut bytes = vec![0x55];
    frame.write_to(&mut bytes).unwrap();
    assert_eq!(&bytes[..7], &[0x55, 12, 3, 0, 0, 1, 2]);
    assert_eq!(bytes.len(), 1 + HEADER_LEN + 258);
}

#[test]
fn consecutive_frames_are_read_in_order_and_stream_then_ends() {
    let first = Frame::new(MessageType::WINDOW_SIZE(), 0, vec![1, 2, 3]).unwrap();
    let second = Frame::new(MessageType::new(200), 9, Vec::new()).unwrap();
    let mut bytes = Vec::new();
    first.write_to(&mut bytes).unwrap();
    second.write_to(&mut bytes).unwrap();
    let mut cursor = ByteCursor::new(bytes);
    assert_eq!(read_frame(&mut cursor).unwrap().unwrap(), first);
    let unknown = read_frame(&mut cursor).unwrap().unwrap();
    assert_eq!(unknown.msg_type().get(), 200);
    assert_eq!(unknown.msg_type().name(), None);
    assert_eq!(unknown.flags(), 9);
    assert!(unknown.payload().is_empty());
    assert!(read_frame(&mut cursor).unwrap().is_none());
}

#[test]
fn truncated_header_and_payload_are_errors() {
    let err = read_frame(&mut ByteCursor::new(vec![1, 0, 0])).unwrap_err();
    assert!(matches!(err, ProtocolError::TruncatedHeader));
    assert!(is_disconnect_error(&err));

    let err = read_frame(&mut ByteCursor::new(vec![1, 0, 0, 0, 0, 4, 9, 9])).unwrap_err();
    assert!(matches!(
        err,
        ProtocolError::TruncatedPayload {
            expected: 4,
            actual: 0
        }
    ));
    assert!(is_disconnect_error(&err));
}

#[test]
fn oversized_length_leaves_payload_unread() {
    let mut bytes = vec![12, 0];
    bytes.extend_from_slice(&((MAX_PAYLOAD_LEN as u32) + 1).to_be_bytes());
    bytes.extend_from_slice(&[7, 7, 7]);
    let mut cursor = ByteCursor::new(bytes);
    let err = read_frame(&mut cursor).unwrap_err();
    match err {
        ProtocolError::PayloadTooLarge { len, max } => {
            assert_eq!(len, MAX_PAYLOAD_LEN + 1);
            assert_eq!(max, MAX_PAYLOAD_LEN);
        }
        other => panic!("unexpected error {other:?}"),
    }
    assert!(!is_disconnect_error(&ProtocolError::PayloadTooLarge { len: 1, max: 0 }));
    assert_eq!(cursor.remaining_len(), 3);
}

#[test]
fn frame_new_rejects_payload_over_limit() {
    assert!(Frame::new(MessageType::PTY_DATA(), 0, vec![0; MAX_PAYLOAD_LEN]).is_ok());
    let err = Frame::new(MessageType::PTY_DATA(), 0, vec![0; MAX_PAYLOAD_LEN + 1]).unwrap_err();
    assert!(matches!(
        err,
        ProtocolError::PayloadTooLarge { len, max } if len == MAX_PAYLOAD_LEN + 1 && max == MAX_PAYLOAD_LEN
    ));
}

#[test]
fn frame_accessors_return_parts() {
    let frame = Frame::new(MessageType::ERROR(), 2, b"x".to_vec()).unwrap();
    assert_eq!(frame.msg_type(), MessageType::ERROR());
    assert_eq!(frame.flags(), 2);
    assert_eq!(frame.payload(), b"x");
    assert_eq!(frame.into_payload(), b"x".to_vec());
}

#[test]
fn message_type_names() {
    assert_eq!(MessageType::CAPABILITIES().name(), Some("Capabilities"));
    assert_eq!(MessageType::SESSION_BUSY().name(), Some("SessionBusy"));
    assert_eq!(MessageType::ERROR().name(), Some("Error"));
    assert_eq!(MessageType::new(0).name(), None);
    assert_eq!(MessageType::new(16).name(), None);
    assert_eq!(MessageType::new(5), MessageType::ATTACH_SESSION());
}

#[test]
fn protocol_baselines() {
    assert!(supports_protocol_baseline("0.1"));
    assert!(supports_protocol_baseline("0.1.0"));
    assert!(!supports_protocol_baseline("0.2"));
    assert!(!supports_protocol_baseline("0.1.1"));
    assert!(!supports_protocol_baseline(""));
}

#[test]
fn cursor_reads_lines_and_bytes() {
    let mut cursor = ByteCursor::new(b"ab\ncd".to_vec());
    assert_eq!(cursor.read_byte(), Some(b'a'));
    assert_eq!(cursor.take_line(), b"b\n".to_vec());
    assert_eq!(cursor.take_line(), b"cd".to_vec());
    assert_eq!(cursor.read_byte(), None);
    let status = ExitStatus {
        code: Some(3),
        signal: None,
    };
    assert_eq!(status.code, Some(3));
}
