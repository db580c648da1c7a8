use ssh_obi::protocol::{SessionRecord, WindowSize};
use ssh_obi::server::{initial_window_size, IncompleteWindowSize, ENV_SESSION, ENV_SOCKET};
use ssh_obi::session::{
    check_socket_dir, socket_dir_for_uid, socket_path, SessionIdError, SessionInfo, SessionState,
    SocketPathError, MAX_SOCKET_PATH_LEN,
};

#[test]
fn window_size_options_go_together() {
    assert_eq!(initial_window_size(None, None, None, None), Ok(None));
    assert_eq!(
        initial_window_size(Some(24), Some(80), None, None),
        Ok(Some(WindowSize { rows: 24, cols: 80, pixel_width: 0, pixel_height: 0 }))
    );
    assert_eq!(
        initial_window_size(Some(24), Some(80), Some(640), Some(480)),
        Ok(Some(WindowSize { rows: 24, cols: 80, pixel_width: 640, pixel_height: 480 }))
    );
    assert_eq!(initial_window_size(Some(24), None, None, None), Err(IncompleteWindowSize));
    assert_eq!(initial_window_size(None, Some(80), None, None), Err(IncompleteWindowSize));
    assert_eq!(initial_window_size(None, None, Some(640), None), Err(IncompleteWindowSize));
}

#[test]
fn environment_names() {
    assert_eq!(ENV_SESSION, "SSH_OBI_SESSION");
    assert_eq!(ENV_SOCKET, "SSH_OBI_SOCKET");
}

fn record(id: &str, attached: bool) -> SessionRecord {
    SessionRecord {
        session_id: id.to_string(),
        init_time: 5,
        last_detach_time: Some(9),
        current_command: "vim notes.md".to_string(),
        attached,
    }
}

#[test]
fn records_become_picker_sessions() {
    let info = SessionInfo::from_record(record("abcdefgh", false)).unwrap();
    assert_eq!(info.id.as_str(), "abcdefgh");
    assert_eq!(info.init_time, 5);
    assert_eq!(info.last_detach_time, Some(9));
    assert_eq!(info.current_command, "vim notes.md");
    assert_eq!(info.state, SessionState::Free);
    let busy = SessionInfo::from_record(record("abcdefgh", true)).unwrap();
    assert_eq!(busy.state, SessionState::Busy);
    assert_eq!(
        SessionInfo::from_record(record("short", false)).unwrap_err(),
        SessionIdError::InvalidLength { len: 5 }
    );
    assert_eq!(
        SessionInfo::from_record(record("ABCDEFGH", false)).unwrap_err(),
        SessionIdError::InvalidCharacter
    );
}

#[test]
fn sockets_live_in_a_per_user_directory() {
    let dir = socket_dir_for_uid(1000);
    assert_eq!(dir, "/tmp/ssh-obi-1000");
    assert_eq!(socket_path(&dir, "abcdefgh").unwrap(), "/tmp/ssh-obi-1000/abcdefgh.sock");
    let long_dir = format!("/tmp/{}", "d".repeat(80));
    match socket_path(&long_dir, "abcdefghij") {
        Err(SocketPathError::TooLong { len, max }) => {
            assert_eq!(len, 85 + 1 + 10 + 5);
            assert_eq!(max, MAX_SOCKET_PATH_LEN);
        }
        other => panic!("unexpected {other:?}"),
    }
    let exact = format!("/{}", "d".repeat(83));
    assert!(socket_path(&exact, "abcdefghij").is_err());
    let under = format!("/{}", "d".repeat(82));
    assert_eq!(socket_path(&under, "abcdefghij").unwrap().len(), 99);
}

#[test]
fn socket_directory_must_be_private_and_owned() {
    assert!(check_socket_dir(1000, 0o700, 1000).is_ok());
    assert!(matches!(
        check_socket_dir(0, 0o700, 1000),
        Err(SocketPathError::NotOwned { owner: 0, uid: 1000 })
    ));
    assert!(matches!(
        check_socket_dir(1000, 0o755, 1000),
        Err(SocketPathError::InsecurePermissions { mode: 0o755 })
    ));
}
