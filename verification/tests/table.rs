use ssh_obi::session::{picker_row, SessionId, SessionInfo, SessionState};
use ssh_obi::table::render_session_table;

fn info(id: &str, state: SessionState, command: &str) -> SessionInfo {
    SessionInfo {
        id: SessionId::new(id).unwrap(),
        init_time: 0,
        last_detach_time: None,
        current_command: command.to_string(),
        state,
    }
}

#[test]
fn picker_table_numbers_free_sessions_and_offers_new() {
    let rows = vec![
        picker_row(
            &info("aaaaaaaa", SessionState::Free, "bash"),
            Some(1),
            "2026-05-01 09:14".to_string(),
            Some("2026-05-02 11:02".to_string()),
        ),
        picker_row(
            &info("bbbbbbbb", SessionState::Busy, "vim notes.md"),
            None,
            "2026-05-01 14:30".to_string(),
            None,
        ),
    ];
    let table = render_session_table(&rows, true);
    assert_eq!(
        table,
        [
            "  #   INIT                 DETACH               WHAT\n",
            "  1   2026-05-01 09:14     2026-05-02 11:02     bash\n",
            "      2026-05-01 14:30     -                    vim notes.md (busy)\n",
            "  n   (new session)\n\n",
        ]
        .concat()
    );
}

#[test]
fn listing_names_every_session_and_its_state() {
    let rows = vec![picker_row(
        &info("cccccccc", SessionState::Busy, "top"),
        None,
        "2026-05-01 09:14".to_string(),
        None,
    )];
    let table = render_session_table(&rows, false);
    assert_eq!(
        table,
        [
            "ID           INIT                 DETACH               STATE  WHAT\n",
            "cccccccc     2026-05-01 09:14     -                    busy   top\n",
        ]
        .concat()
    );
    assert_eq!(render_session_table(&Vec::new(), false).lines().count(), 1);
}
