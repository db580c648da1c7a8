use ssh_obi::cli::{parse_client_args, ClientAction, ClientArgs, CliError};
use ssh_obi::client::{
    attached_step, initial_request, is_ambiguous_disconnect, resolve_prompt_answer,
    window_size_to_send, AttachFailure, AttachedAction, AttachedEvent, AttachedState,
    BrokerMessage, InitialRequest, PromptSelection,
};
use ssh_obi::daemon::{broker_frame_action, BrokerFrameAction, DaemonReply, DaemonState};
use ssh_obi::protocol::{ExitStatus, MessageType, ProtocolError, WindowSize};
use ssh_obi::session::{picker_rows, SessionId, SessionInfo, SessionState};

fn fresh(session: Option<&str>) -> AttachedState {
    AttachedState {
        attempt_id: 3,
        session_id: session.map(|s| s.to_string()),
        stdin_open: true,
        reached: false,
    }
}

fn broker(message: BrokerMessage) -> AttachedEvent {
    AttachedEvent::Broker { attempt_id: 3, message }
}

#[test]
fn keyboard_bytes_are_forwarded_until_stdin_ends() {
    let mut state = fresh(None);
    match attached_step(&mut state, AttachedEvent::Stdin(b"ls\r".to_vec())) {
        AttachedAction::SendPtyData(bytes) => assert_eq!(bytes, b"ls\r"),
        other => panic!("unexpected {other:?}"),
    }
    assert!(matches!(attached_step(&mut state, AttachedEvent::StdinEof), AttachedAction::Wait));
    assert!(!state.stdin_open);
    assert!(matches!(
        attached_step(&mut state, AttachedEvent::Stdin(b"x".to_vec())),
        AttachedAction::Wait
    ));
}

#[test]
fn session_output_goes_to_the_terminal() {
    let mut state = fresh(None);
    assert!(matches!(
        attached_step(&mut state, broker(BrokerMessage::SessionBusy { session_id: "x".into() })),
        AttachedAction::Fail(_)
    ));
    assert!(!state.reached);
    match attached_step(&mut state, broker(BrokerMessage::PtyData { bytes: b"hi".to_vec() })) {
        AttachedAction::WriteStdout(bytes) => assert_eq!(bytes, b"hi"),
        other => panic!("unexpected {other:?}"),
    }
    assert!(state.reached);
}

#[test]
fn attached_session_names_the_session_and_must_match() {
    let mut state = fresh(None);
    let event = broker(BrokerMessage::AttachedSession { session_id: "abcdefgh".to_string() });
    assert!(matches!(attached_step(&mut state, event), AttachedAction::Wait));
    assert_eq!(state.session_id.as_deref(), Some("abcdefgh"));
    assert!(state.reached);

    let mut state = fresh(Some("abcdefgh"));
    let event = broker(BrokerMessage::AttachedSession { session_id: "abcdefgh".to_string() });
    assert!(matches!(attached_step(&mut state, event), AttachedAction::Wait));

    let mut state = fresh(Some("abcdefgh"));
    let event = broker(BrokerMessage::AttachedSession { session_id: "zzzzzzzz".to_string() });
    match attached_step(&mut state, event) {
        AttachedAction::Fail(AttachFailure::SessionMismatch { expected, actual }) => {
            assert_eq!(expected, "abcdefgh");
            assert_eq!(actual, "zzzzzzzz");
        }
        other => panic!("unexpected {other:?}"),
    }
    assert_eq!(state.session_id.as_deref(), Some("abcdefgh"));
}

#[test]
fn graceful_detach_and_shell_exit_end_the_client() {
    let mut state = fresh(None);
    assert!(matches!(
        attached_step(&mut state, broker(BrokerMessage::ClientShouldExit)),
        AttachedAction::Exit(0)
    ));
    let status = ExitStatus { code: Some(7), signal: None };
    assert!(matches!(
        attached_step(&mut state, broker(BrokerMessage::ExitStatus(status))),
        AttachedAction::Exit(7)
    ));
    let status = ExitStatus { code: None, signal: Some(9) };
    assert!(matches!(
        attached_step(&mut state, broker(BrokerMessage::ExitStatus(status))),
        AttachedAction::Exit(1)
    ));
    let status = ExitStatus { code: None, signal: None };
    assert!(matches!(
        attached_step(&mut state, broker(BrokerMessage::ExitStatus(status))),
        AttachedAction::Fail(AttachFailure::MissingExitStatus)
    ));
}

#[test]
fn broker_failures_and_unexpected_messages() {
    let mut state = fresh(None);
    match attached_step(
        &mut state,
        broker(BrokerMessage::SessionBusy { session_id: "abcdefgh".to_string() }),
    ) {
        AttachedAction::Fail(AttachFailure::SessionBusy(id)) => assert_eq!(id, "abcdefgh"),
        other => panic!("unexpected {other:?}"),
    }
    match attached_step(&mut state, broker(BrokerMessage::Error { message: "boom".to_string() })) {
        AttachedAction::Fail(AttachFailure::BrokerError(m)) => assert_eq!(m, "boom"),
        other => panic!("unexpected {other:?}"),
    }
    assert!(matches!(
        attached_step(&mut state, broker(BrokerMessage::Other(MessageType::SESSION_LIST()))),
        AttachedAction::Fail(AttachFailure::UnexpectedBrokerMessage(3))
    ));
    assert!(matches!(
        attached_step(&mut state, broker(BrokerMessage::Other(MessageType::new(200)))),
        AttachedAction::Wait
    ));
}

#[test]
fn events_of_an_earlier_attempt_are_ignored() {
    let mut state = fresh(Some("abcdefgh"));
    let stale = AttachedEvent::Broker { attempt_id: 2, message: BrokerMessage::ClientShouldExit };
    assert!(matches!(attached_step(&mut state, stale), AttachedAction::Wait));
    assert!(matches!(
        attached_step(&mut state, AttachedEvent::BrokerEof { attempt_id: 2 }),
        AttachedAction::Wait
    ));
    assert!(matches!(
        attached_step(
            &mut state,
            AttachedEvent::BrokerFailed { attempt_id: 1, error: ProtocolError::TruncatedHeader }
        ),
        AttachedAction::Wait
    ));
    assert_eq!(state.session_id.as_deref(), Some("abcdefgh"));
}

#[test]
fn lost_broker_connections_are_ambiguous() {
    let mut state = fresh(None);
    let failure = match attached_step(&mut state, AttachedEvent::BrokerEof { attempt_id: 3 }) {
        AttachedAction::Fail(f) => f,
        other => panic!("unexpected {other:?}"),
    };
    assert!(matches!(failure, AttachFailure::UnexpectedBrokerEof));
    assert!(is_ambiguous_disconnect(&failure));

    let failure = match attached_step(&mut state, AttachedEvent::EventsClosed) {
        AttachedAction::Fail(f) => f,
        other => panic!("unexpected {other:?}"),
    };
    assert!(is_ambiguous_disconnect(&failure));

    let event = AttachedEvent::BrokerFailed {
        attempt_id: 3,
        error: ProtocolError::TruncatedPayload { expected: 4, actual: 0 },
    };
    let failure = match attached_step(&mut state, event) {
        AttachedAction::Fail(f) => f,
        other => panic!("unexpected {other:?}"),
    };
    assert!(is_ambiguous_disconnect(&failure));

    let event = AttachedEvent::BrokerFailed {
        attempt_id: 3,
        error: ProtocolError::PayloadTooLarge { len: 2_000_000, max: 1_048_576 },
    };
    let failure = match attached_step(&mut state, event) {
        AttachedAction::Fail(f) => f,
        other => panic!("unexpected {other:?}"),
    };
    assert!(!is_ambiguous_disconnect(&failure));
    assert!(!is_ambiguous_disconnect(&AttachFailure::MissingExitStatus));

    let err = std::io::Error::new(std::io::ErrorKind::Other, "tty gone");
    let failure = match attached_step(&mut state, AttachedEvent::StdinError(err)) {
        AttachedAction::Fail(f) => f,
        other => panic!("unexpected {other:?}"),
    };
    assert!(matches!(failure, AttachFailure::CopyStdin(_)));
    assert!(!is_ambiguous_disconnect(&failure));
}

fn args(action: ClientAction, session: Option<&str>) -> ClientArgs {
    ClientArgs {
        action,
        session: session.map(|s| s.to_string()),
        ssh_args: vec![b"-p".to_vec(), b"2222".to_vec()],
        destination: b"host".to_vec(),
    }
}

#[test]
fn initial_requests_follow_the_action() {
    assert_eq!(initial_request(&args(ClientAction::List, None)), Some(InitialRequest::ListSessions));
    assert_eq!(initial_request(&args(ClientAction::New, None)), Some(InitialRequest::NewSession));
    assert_eq!(
        initial_request(&args(ClientAction::Detach, Some("abcdefgh"))),
        Some(InitialRequest::DetachSession("abcdefgh".to_string()))
    );
    assert_eq!(initial_request(&args(ClientAction::Detach, None)), None);
    assert_eq!(
        initial_request(&args(ClientAction::Attach, Some("abcdefgh"))),
        Some(InitialRequest::AttachSession("abcdefgh".to_string()))
    );
    assert_eq!(
        initial_request(&args(ClientAction::Attach, None)),
        Some(InitialRequest::ChooseSession)
    );
}

#[test]
fn reconnect_arguments_attach_to_the_known_session() {
    let again = args(ClientAction::New, None).for_reconnect("abcdefgh".to_string());
    assert_eq!(again.action, ClientAction::Attach);
    assert_eq!(again.session.as_deref(), Some("abcdefgh"));
    assert_eq!(again.ssh_args, vec![b"-p".to_vec(), b"2222".to_vec()]);
    assert_eq!(again.destination, b"host".to_vec());
}

#[test]
fn window_size_is_sent_only_when_it_changes() {
    let a = WindowSize { rows: 24, cols: 80, pixel_width: 0, pixel_height: 0 };
    let b = WindowSize { rows: 50, cols: 80, pixel_width: 0, pixel_height: 0 };
    assert_eq!(window_size_to_send(None, Some(a)), Some(a));
    assert_eq!(window_size_to_send(Some(a), Some(a)), None);
    assert_eq!(window_size_to_send(Some(a), Some(b)), Some(b));
    assert_eq!(window_size_to_send(Some(a), None), None);
}

#[test]
fn daemon_skips_unknown_message_types() {
    let mut daemon =
        DaemonState::new(SessionId::new("abcdefgh").unwrap(), 1000, "bash".to_string());
    assert!(matches!(daemon.handle_request(MessageType::new(0), 1), DaemonReply::Skip));
    assert!(matches!(daemon.handle_request(MessageType::new(99), 1), DaemonReply::Skip));
    assert!(matches!(
        daemon.handle_request(MessageType::EXIT_STATUS(), 1),
        DaemonReply::Unexpected(14)
    ));
    assert!(!daemon.record().attached);
    assert!(MessageType::ERROR().is_known());
    assert!(!MessageType::new(16).is_known());
}

#[test]
fn broker_frames_are_classified() {
    assert_eq!(broker_frame_action(MessageType::PTY_DATA()), BrokerFrameAction::WritePty);
    assert_eq!(broker_frame_action(MessageType::WINDOW_SIZE()), BrokerFrameAction::Resize);
    assert_eq!(broker_frame_action(MessageType::DETACH()), BrokerFrameAction::Detach);
    assert_eq!(broker_frame_action(MessageType::new(77)), BrokerFrameAction::Skip);
    assert_eq!(
        broker_frame_action(MessageType::SESSION_LIST()),
        BrokerFrameAction::Unexpected(3)
    );
}

fn info(id: &str, state: SessionState) -> SessionInfo {
    SessionInfo {
        id: SessionId::new(id).unwrap(),
        init_time: 1_700_000_000_000,
        last_detach_time: None,
        current_command: "bash".to_string(),
        state,
    }
}

#[test]
fn picker_numbers_select_the_numbered_session() {
    let sessions = vec![
        info("aaaaaaaa", SessionState::Busy),
        info("bbbbbbbb", SessionState::Free),
        info("cccccccc", SessionState::Busy),
        info("dddddddd", SessionState::Free),
        info("eeeeeeee", SessionState::Free),
    ];
    let rows = picker_rows(&sessions);
    let mut seen = Vec::new();
    for row in &rows {
        if let Some(k) = row.selector {
            let picked = resolve_prompt_answer(&sessions, &k.to_string()).unwrap();
            assert_eq!(picked, PromptSelection::Attach(row.session_id.as_str().to_string()));
            assert!(!seen.contains(&k));
            seen.push(k);
        }
    }
    assert_eq!(seen, vec![1, 2, 3]);
    assert!(resolve_prompt_answer(&sessions, "4").is_err());
}

#[test]
fn arguments_after_the_destination_are_refused() {
    let argv = |items: &[&str]| items.iter().map(|s| s.as_bytes().to_vec()).collect::<Vec<_>>();
    for tail in [&["uptime"][..], &["-p", "22"][..], &["--new"][..], &["--"][..]] {
        let mut all = vec!["-p", "2222", "host"];
        all.extend_from_slice(tail);
        assert_eq!(parse_client_args(argv(&all)).unwrap_err(), CliError::RemoteCommandNotSupported);
    }
    let mut all = vec!["--", "host"];
    all.push("ls");
    assert_eq!(parse_client_args(argv(&all)).unwrap_err(), CliError::RemoteCommandNotSupported);
}
