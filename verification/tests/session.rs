use ssh_obi::session::{
    auto_select, picker_row, picker_rows, AutoSelection, SessionId, SessionIdError, SessionInfo,
    SessionState, MAX_DISPLAY_MILLIS,
};

fn session(id: &str, state: SessionState) -> SessionInfo {
    SessionInfo {
        id: SessionId::new(id).unwrap(),
        init_time: 1000,
        last_detach_time: None,
        current_command: "bash".to_string(),
        state,
    }
}

#[test]
fn busy_sessions_are_not_auto_selected() {
    let sessions = vec![
        session("aaaaaaaa", SessionState::Busy),
        session("bbbbbbbb", SessionState::Free),
    ];

    assert_eq!(
        auto_select(&sessions),
        AutoSelection::Attach(SessionId::new("bbbbbbbb").unwrap())
    );
}

#[test]
fn multiple_free_sessions_prompt() {
    let sessions = vec![
        session("aaaaaaaa", SessionState::Free),
        session("bbbbbbbb", SessionState::Free),
    ];

    assert_eq!(auto_select(&sessions), AutoSelection::Prompt);
}

#[test]
fn picker_numbers_only_free_sessions() {
    let rows = picker_rows(&[
        session("aaaaaaaa", SessionState::Busy),
        session("bbbbbbbb", SessionState::Free),
        session("cccccccc", SessionState::Free),
    ]);

    assert_eq!(rows[0].selector, None);
    assert_eq!(rows[1].selector, Some(1));
    assert_eq!(rows[2].selector, Some(2));
    assert_eq!(rows[0].detach_time, "-");
}

#[test]
fn no_free_session_means_new_session() {
    assert_eq!(auto_select(&[]), AutoSelection::NewSession);
    assert_eq!(
        auto_select(&[session("aaaaaaaa", SessionState::Busy)]),
        AutoSelection::NewSession
    );
}

#[test]
fn session_id_validation() {
    assert_eq!(SessionId::new("abcdefgh").unwrap().as_str(), "abcdefgh");
    assert!(SessionId::new("a2b3c4d5e7").is_ok());
    assert_eq!(
        SessionId::new("abc").unwrap_err(),
        SessionIdError::InvalidLength { len: 3 }
    );
    assert_eq!(
        SessionId::new("abcdefghijk").unwrap_err(),
        SessionIdError::InvalidLength { len: 11 }
    );
    assert_eq!(
        SessionId::new("ABCDEFGH").unwrap_err(),
        SessionIdError::InvalidCharacter
    );
    assert_eq!(
        SessionId::new("abcdefg1").unwrap_err(),
        SessionIdError::InvalidCharacter
    );
    assert_eq!(
        SessionId::new("abcdéfg").unwrap_err(),
        SessionIdError::InvalidCharacter
    );
}

#[test]
fn picker_rows_render_times_and_keep_fields() {
    let mut detached = session("bbbbbbbb", SessionState::Free);
    detached.last_detach_time = Some(1_700_000_000_000);
    detached.current_command = "vim notes.md".to_string();
    let rows = picker_rows(&[detached]);
    assert_eq!(rows[0].selector, Some(1));
    assert_eq!(rows[0].session_id.as_str(), "bbbbbbbb");
    assert_eq!(rows[0].current_command, "vim notes.md");
    assert_eq!(rows[0].state, SessionState::Free);
    assert_eq!(rows[0].detach_time.len(), 16);
    assert_eq!(rows[0].init_time.len(), 16);
    assert_ne!(rows[0].detach_time, rows[0].init_time);
}

#[test]
fn each_time_goes_to_its_own_column() {
    let mut s = session("eeeeeeee", SessionState::Free);
    s.init_time = 0;
    s.last_detach_time = Some(1_700_000_000_000);
    let rows = picker_rows(&[s]);
    assert!(rows[0].init_time.starts_with("19"), "{}", rows[0].init_time);
    assert!(rows[0].detach_time.starts_with("2023-11-1"), "{}", rows[0].detach_time);
}

#[test]
fn far_future_times_render_with_a_longer_year() {
    let mut late = session("dddddddd", SessionState::Free);
    late.init_time = MAX_DISPLAY_MILLIS;
    late.last_detach_time = Some(MAX_DISPLAY_MILLIS);
    let rows = picker_rows(&[late]);
    assert!(rows[0].init_time.len() >= 16, "{}", rows[0].init_time);
    assert_ne!(rows[0].detach_time, "-");
}

#[test]
fn picker_row_uses_dash_for_never_detached() {
    let s = session("cccccccc", SessionState::Busy);
    let row = picker_row(&s, None, "2026-05-01 09:14".to_string(), None);
    assert_eq!(row.detach_time, "-");
    assert_eq!(row.init_time, "2026-05-01 09:14");
    let row = picker_row(&s, Some(3), "x".to_string(), Some("y".to_string()));
    assert_eq!(row.detach_time, "y");
    assert_eq!(row.selector, Some(3));
    assert!(!s.is_selectable());
    assert!(SessionState::Free.is_free());
}
