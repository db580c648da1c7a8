use ssh_obi::cli::{ClientAction, ClientArgs};
use ssh_obi::client::{
    classify_bootstrap_line, exit_code_from_status, exit_code_with_ssh_status,
    install_answer_accepts, read_line_lossy, reconnect_decision, reconnect_delay_ms,
    resolve_prompt_answer, server_args_for_action, AttachFailure, BootstrapLine, PromptSelection,
    ReconnectDecision, ReconnectState, MAX_RECONNECT_ATTEMPTS,
};
use ssh_obi::protocol::{ByteCursor, ExitStatus};
use ssh_obi::session::{SessionId, SessionInfo, SessionState};

fn args(action: ClientAction) -> ClientArgs {
    ClientArgs {
        action,
        session: None,
        ssh_args: Vec::new(),
        destination: b"host".to_vec(),
    }
}

#[test]
fn detach_action_uses_broker_default() {
    assert!(server_args_for_action(&args(ClientAction::Detach)).is_empty());
}

#[test]
fn attach_action_uses_broker_default() {
    assert!(server_args_for_action(&args(ClientAction::Attach)).is_empty());
}

#[test]
fn line_reader_does_not_require_utf8() {
    let mut bytes = ByteCursor::new(b"OBI-\xff\n".to_vec());
    let line = read_line_lossy(&mut bytes).unwrap();
    assert_eq!(line, "OBI-\u{fffd}\n");
}

#[test]
fn line_reader_splits_lines_and_ends() {
    let mut bytes = ByteCursor::new(b"motd\nOBI-SERVER-READY".to_vec());
    assert_eq!(read_line_lossy(&mut bytes).unwrap(), "motd\n");
    assert_eq!(read_line_lossy(&mut bytes).unwrap(), "OBI-SERVER-READY");
    assert_eq!(read_line_lossy(&mut bytes), None);
}

#[test]
fn bootstrap_lines_are_classified() {
    assert_eq!(classify_bootstrap_line("OBI-SERVER-READY\r\n"), BootstrapLine::Ready);
    assert_eq!(
        classify_bootstrap_line("OBI-INSTALL-REQUIRED\n"),
        BootstrapLine::InstallRequired
    );
    assert_eq!(
        classify_bootstrap_line("OBI-ERROR no curl\n"),
        BootstrapLine::RemoteError("no curl".to_string())
    );
    assert_eq!(
        classify_bootstrap_line("OBI-WHAT\n"),
        BootstrapLine::UnexpectedMarker("OBI-WHAT".to_string())
    );
    assert_eq!(classify_bootstrap_line("Welcome to host\n"), BootstrapLine::Noise);
    assert_eq!(classify_bootstrap_line(" OBI-SERVER-READY\n"), BootstrapLine::Noise);
    assert_eq!(
        classify_bootstrap_line("OBI-SERVER-READY-NOT\n"),
        BootstrapLine::UnexpectedMarker("OBI-SERVER-READY-NOT".to_string())
    );
}

#[test]
fn exit_codes_follow_shell_and_ssh() {
    let code = |code, signal| exit_code_from_status(ExitStatus { code, signal });
    assert_eq!(code(Some(0), None), Some(0));
    assert_eq!(code(Some(42), None), Some(42));
    assert_eq!(code(Some(300), None), Some(1));
    assert_eq!(code(Some(-1), None), Some(1));
    assert_eq!(code(None, Some(9)), Some(1));
    assert_eq!(code(None, None), None);
    assert_eq!(exit_code_with_ssh_status(7, true, Some(255)), 7);
    assert_eq!(exit_code_with_ssh_status(7, false, Some(255)), 255);
    assert_eq!(exit_code_with_ssh_status(7, false, Some(256)), 1);
    assert_eq!(exit_code_with_ssh_status(7, false, None), 1);
}

#[test]
fn reconnect_only_known_sessions_after_ambiguous_disconnects() {
    let busy = AttachFailure::SessionBusy("aaaaaaaa".into());
    let lost = AttachFailure::UnexpectedBrokerEof;
    assert_eq!(
        reconnect_decision(&AttachFailure::MissingExitStatus, Some("aaaaaaaa".into()), None, false, 0),
        ReconnectDecision::GiveUp
    );
    assert_eq!(
        reconnect_decision(&lost, None, None, false, 0),
        ReconnectDecision::LostBeforeSessionKnown
    );
    assert_eq!(
        reconnect_decision(&lost, Some("aaaaaaaa".into()), Some("bbbbbbbb".into()), true, 2),
        ReconnectDecision::Reconnect { session_id: "aaaaaaaa".into(), delay_ms: 500 }
    );
    assert_eq!(
        reconnect_decision(&lost, None, Some("bbbbbbbb".into()), false, 0),
        ReconnectDecision::Reconnect { session_id: "bbbbbbbb".into(), delay_ms: 125 }
    );
    assert_eq!(
        reconnect_decision(&lost, None, Some("bbbbbbbb".into()), true, 10),
        ReconnectDecision::ReconnectFailed { session_id: "bbbbbbbb".into() }
    );
    // A busy session is detached and retried only while reconnecting to it.
    assert_eq!(
        reconnect_decision(&busy, None, Some("aaaaaaaa".into()), true, 1),
        ReconnectDecision::DetachThenReconnect { session_id: "aaaaaaaa".into(), delay_ms: 250 }
    );
    assert_eq!(
        reconnect_decision(&busy, None, Some("aaaaaaaa".into()), false, 0),
        ReconnectDecision::GiveUp
    );
    assert_eq!(
        reconnect_decision(&busy, None, Some("cccccccc".into()), true, 1),
        ReconnectDecision::GiveUp
    );
    assert_eq!(
        reconnect_decision(&busy, None, Some("aaaaaaaa".into()), true, 10),
        ReconnectDecision::ReconnectFailed { session_id: "aaaaaaaa".into() }
    );
}

#[test]
fn reconnect_backoff_is_capped_and_gives_up_after_ten_attempts() {
    let delays: Vec<u64> = (1..=7).map(reconnect_delay_ms).collect();
    assert_eq!(delays, vec![125, 250, 500, 1000, 2000, 2000, 2000]);
    assert_eq!(MAX_RECONNECT_ATTEMPTS, 10);

    let mut state = ReconnectState::new(Some("aaaaaaaa".into()));
    let lost = AttachFailure::UnexpectedBrokerEof;
    let busy = AttachFailure::SessionBusy("aaaaaaaa".into());
    // The connection of the attached session is lost.
    assert_eq!(
        state.after_failure(&lost, Some("aaaaaaaa".into()), true, false),
        ReconnectDecision::Reconnect { session_id: "aaaaaaaa".into(), delay_ms: 125 }
    );
    // Every reconnect attempt then fails; one of them finds the session busy.
    let expected = [250, 500, 1000, 2000, 2000, 2000, 2000, 2000, 2000];
    for (n, delay_ms) in expected.iter().enumerate() {
        let decision = if n == 2 {
            state.after_failure(&busy, Some("aaaaaaaa".into()), false, false)
        } else if n == 5 {
            state.after_failure(&AttachFailure::BootstrapEnded, None, false, true)
        } else {
            state.after_failure(&lost, Some("aaaaaaaa".into()), false, false)
        };
        if n == 2 {
            assert_eq!(
                decision,
                ReconnectDecision::DetachThenReconnect {
                    session_id: "aaaaaaaa".into(),
                    delay_ms: *delay_ms
                }
            );
        } else {
            assert_eq!(
                decision,
                ReconnectDecision::Reconnect { session_id: "aaaaaaaa".into(), delay_ms: *delay_ms }
            );
        }
    }
    assert_eq!(
        state.after_failure(&lost, Some("aaaaaaaa".into()), false, false),
        ReconnectDecision::ReconnectFailed { session_id: "aaaaaaaa".into() }
    );
}

#[test]
fn reaching_the_session_restarts_the_backoff() {
    let mut state = ReconnectState::new(Some("aaaaaaaa".into()));
    let lost = AttachFailure::UnexpectedBrokerEof;
    state.after_failure(&lost, None, true, false);
    state.after_failure(&lost, None, false, false);
    assert_eq!(
        state.after_failure(&lost, None, false, false),
        ReconnectDecision::Reconnect { session_id: "aaaaaaaa".into(), delay_ms: 500 }
    );
    assert_eq!(
        state.after_failure(&lost, None, true, false),
        ReconnectDecision::Reconnect { session_id: "aaaaaaaa".into(), delay_ms: 125 }
    );
}

#[test]
fn first_attempt_failures_are_not_retried_or_detached() {
    let mut state = ReconnectState::new(Some("aaaaaaaa".into()));
    assert_eq!(
        state.after_failure(&AttachFailure::SessionBusy("aaaaaaaa".into()), None, false, false),
        ReconnectDecision::GiveUp
    );
    let mut state = ReconnectState::new(Some("aaaaaaaa".into()));
    assert_eq!(
        state.after_failure(&AttachFailure::BootstrapEnded, None, false, true),
        ReconnectDecision::GiveUp
    );
}

#[test]
fn install_answers() {
    for yes in ["", "\n", "y\n", " Y ", "yes", "YES\r\n", "Yes"] {
        assert!(install_answer_accepts(yes), "{yes:?}");
    }
    for no in ["n", "no", "yEs", "yy", "x"] {
        assert!(!install_answer_accepts(no), "{no:?}");
    }
}

fn session(id: &str, state: SessionState) -> SessionInfo {
    SessionInfo {
        id: SessionId::new(id).unwrap(),
        init_time: 1000,
        last_detach_time: None,
        current_command: "bash".to_string(),
        state,
    }
}

#[test]
fn prompt_answers_pick_the_numbered_free_session() {
    let sessions = [
        session("aaaaaaaa", SessionState::Busy),
        session("bbbbbbbb", SessionState::Free),
        session("cccccccc", SessionState::Busy),
        session("dddddddd", SessionState::Free),
    ];
    assert_eq!(
        resolve_prompt_answer(&sessions, " n\n"),
        Ok(PromptSelection::NewSession)
    );
    assert_eq!(
        resolve_prompt_answer(&sessions, "1\n"),
        Ok(PromptSelection::Attach("bbbbbbbb".to_string()))
    );
    assert_eq!(
        resolve_prompt_answer(&sessions, "+2"),
        Ok(PromptSelection::Attach("dddddddd".to_string()))
    );
    assert_eq!(resolve_prompt_answer(&sessions, "0"), Err("0".to_string()));
    assert_eq!(resolve_prompt_answer(&sessions, " 3 "), Err("3".to_string()));
    assert_eq!(resolve_prompt_answer(&sessions, "x"), Err("x".to_string()));
    assert_eq!(resolve_prompt_answer(&sessions, ""), Err("".to_string()));
    assert_eq!(
        resolve_prompt_answer(&sessions, "99999999999999999999999"),
        Err("99999999999999999999999".to_string())
    );
}
