use ssh_obi::daemon::{
    file_name_of, shell_command_name, unix_time_millis, AttachDecision, DaemonReply, DaemonState, ReplayBuffer,
    ReplayBufferError, DEFAULT_REPLAY_CAPACITY,
};
use ssh_obi::protocol::MessageType;
use ssh_obi::session::SessionId;

#[test]
fn replay_buffer_keeps_recent_bytes() {
    let mut buffer = ReplayBuffer::new(5).unwrap();
    buffer.append(b"abc");
    buffer.append(b"def");

    assert_eq!(buffer.snapshot(), b"bcdef");
}

#[test]
fn append_larger_than_capacity_keeps_tail() {
    let mut buffer = ReplayBuffer::new(4).unwrap();
    buffer.append(b"abcdefghijkl");

    assert_eq!(buffer.snapshot(), b"ijkl");
}

#[test]
fn zero_capacity_is_rejected() {
    assert_eq!(
        ReplayBuffer::new(0).unwrap_err(),
        ReplayBufferError::ZeroCapacity
    );
}

#[test]
fn appending_in_pieces_equals_appending_at_once() {
    let mut pieces = ReplayBuffer::new(6).unwrap();
    for chunk in [&b"ab"[..], b"cdef", b"", b"ghi", b"j"] {
        pieces.append(chunk);
    }
    let mut whole = ReplayBuffer::new(6).unwrap();
    whole.append(b"abcdefghij");
    assert_eq!(pieces.snapshot(), whole.snapshot());
    assert_eq!(pieces.snapshot(), b"efghij");
    assert_eq!(pieces.len(), 6);
}

#[test]
fn replay_buffer_basics() {
    let mut buffer = ReplayBuffer::default_capacity();
    assert_eq!(buffer.capacity(), DEFAULT_REPLAY_CAPACITY);
    assert!(buffer.is_empty());
    buffer.append(b"xyz");
    assert_eq!(buffer.len(), 3);
    let copy = buffer.clone();
    buffer.clear();
    assert!(buffer.is_empty());
    assert_eq!(copy.snapshot(), b"xyz");
    assert_eq!(ReplayBuffer::default().capacity(), 65536);
    let mut exact = ReplayBuffer::new(3).unwrap();
    exact.append(b"abc");
    assert_eq!(exact.snapshot(), b"abc");
}

fn state() -> DaemonState {
    DaemonState::new(SessionId::new("abcdefgh").unwrap(), 1000, "bash".to_string())
}

#[test]
fn second_attach_is_refused_while_first_is_attached() {
    let mut daemon = state();
    let first = match daemon.attach() {
        AttachDecision::Attached { token, replay } => {
            assert!(replay.is_empty());
            token
        }
        other => panic!("unexpected {other:?}"),
    };
    assert_eq!(first, 1);
    match daemon.attach() {
        AttachDecision::Busy { session_id } => assert_eq!(session_id, "abcdefgh"),
        other => panic!("unexpected {other:?}"),
    }
    assert!(daemon.record().attached);
}

#[test]
fn info_and_detach_are_served_while_busy() {
    let mut daemon = state();
    assert!(matches!(
        daemon.handle_request(MessageType::BROKER_ATTACH(), 5),
        DaemonReply::Attach(AttachDecision::Attached { token: 1, .. })
    ));
    match daemon.handle_request(MessageType::DAEMON_INFO_REQUEST(), 6) {
        DaemonReply::Info(record) => {
            assert!(record.attached);
            assert_eq!(record.session_id, "abcdefgh");
            assert_eq!(record.init_time, 1000);
            assert_eq!(record.last_detach_time, None);
            assert_eq!(record.current_command, "bash");
        }
        other => panic!("unexpected {other:?}"),
    }
    assert!(matches!(
        daemon.handle_request(MessageType::ATTACH_SESSION(), 7),
        DaemonReply::Attach(AttachDecision::Busy { .. })
    ));
    assert!(matches!(
        daemon.handle_request(MessageType::DETACH(), 8),
        DaemonReply::Detached { notify: Some(1) }
    ));
    let record = daemon.record();
    assert!(!record.attached);
    assert_eq!(record.last_detach_time, Some(8));
    assert!(matches!(
        daemon.handle_request(MessageType::DETACH(), 9),
        DaemonReply::Detached { notify: None }
    ));
    assert!(matches!(
        daemon.handle_request(MessageType::PTY_DATA(), 10),
        DaemonReply::Unexpected(12)
    ));
}

#[test]
fn output_is_kept_while_detached_and_replayed_on_attach() {
    let mut daemon = state();
    assert_eq!(daemon.record_output(b"hello "), None);
    assert_eq!(daemon.record_output(b"world"), None);
    match daemon.attach() {
        AttachDecision::Attached { replay, .. } => assert_eq!(replay, b"hello world"),
        other => panic!("unexpected {other:?}"),
    }
    assert_eq!(daemon.record_output(b"!"), Some(1));
}

#[test]
fn stale_broker_does_not_detach_its_successor() {
    let mut daemon = state();
    let a = match daemon.attach() {
        AttachDecision::Attached { token, .. } => token,
        other => panic!("unexpected {other:?}"),
    };
    assert_eq!(daemon.detach_current(20), Some(a));
    let b = match daemon.attach() {
        AttachDecision::Attached { token, .. } => token,
        other => panic!("unexpected {other:?}"),
    };
    assert_ne!(a, b);
    daemon.broker_finished(a, 30);
    assert!(daemon.record().attached);
    assert_eq!(daemon.record().last_detach_time, Some(20));
    daemon.broker_finished(b, 40);
    assert!(!daemon.record().attached);
    assert_eq!(daemon.record().last_detach_time, Some(40));
}

#[test]
fn child_exit_shuts_down_and_names_broker() {
    let mut daemon = state();
    assert!(!daemon.is_shutdown());
    let _ = daemon.attach();
    assert_eq!(daemon.child_exited(), Some(1));
    assert!(daemon.is_shutdown());
    assert_eq!(daemon.next_attach_token(), 2);
}

#[test]
fn shell_names_and_times() {
    assert_eq!(shell_command_name("/bin/bash"), "bash");
    assert_eq!(shell_command_name("/usr/local/bin/fish"), "fish");
    assert_eq!(shell_command_name("/"), "(unknown)");
    assert_eq!(shell_command_name("/bin/.."), "(unknown)");
    assert_eq!(shell_command_name("zsh"), "zsh");
    for path in [
        "/bin/bash", "bash", "/usr/bin/", "tmp/foo.txt", "foo.txt/.", "foo.txt/./", "/", "", ".",
        "./", "..", "a/..", "/.", "a//b", "a/./b", "./a", "..a", "a.",
    ] {
        let expected = std::path::Path::new(path)
            .file_name()
            .map(|n| n.to_str().unwrap().to_string());
        assert_eq!(file_name_of(path), expected, "{path:?}");
    }
    assert_eq!(unix_time_millis(None), 0);
    assert_eq!(unix_time_millis(Some((2, 345_678_901))), 2345);
    assert_eq!(
        unix_time_millis(Some((u64::MAX, 0))),
        ((u64::MAX as u128) * 1000 % (1u128 << 64)) as u64
    );
}
