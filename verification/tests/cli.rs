use ssh_obi::cli::{parse_client_args, ClientAction, CliError};

fn argv(items: &[&str]) -> Vec<Vec<u8>> {
    items.iter().map(|item| item.as_bytes().to_vec()).collect()
}

#[test]
fn parses_common_ssh_options_and_destination() {
    let parsed = parse_client_args(argv(&["-p", "2222", "-Jjump", "-vv", "host"])).unwrap();

    assert_eq!(parsed.action, ClientAction::Attach);
    assert_eq!(parsed.destination, b"host".to_vec());
    assert_eq!(parsed.ssh_args, argv(&["-p", "2222", "-Jjump", "-vv"]));
}

#[test]
fn detach_requires_session() {
    let err = parse_client_args(argv(&["--detach", "host"])).unwrap_err();
    assert_eq!(err, CliError::DetachRequiresSession);
}

#[test]
fn remote_commands_are_rejected() {
    let err = parse_client_args(argv(&["host", "uptime"])).unwrap_err();
    assert_eq!(err, CliError::RemoteCommandNotSupported);
}

#[test]
fn ssh_command_forces_no_tty() {
    let parsed = parse_client_args(argv(&["-p", "2222", "host"])).unwrap();
    let command = parsed.ssh_command_args("remote");

    assert_eq!(command, argv(&["-T", "-p", "2222", "host", "remote"]));
}

#[test]
fn explicit_no_tty_flag_is_not_repeated() {
    let parsed = parse_client_args(argv(&["-T", "host"])).unwrap();
    assert_eq!(
        parsed.ssh_command_args("cmd"),
        argv(&["-T", "host", "cmd"])
    );
}

#[test]
fn actions_and_sessions() {
    let parsed = parse_client_args(argv(&["--detach", "--session", "abcdefgh", "host"])).unwrap();
    assert_eq!(parsed.action, ClientAction::Detach);
    assert_eq!(parsed.session.as_deref(), Some("abcdefgh"));
    assert_eq!(
        parse_client_args(argv(&["--new", "host"])).unwrap().action,
        ClientAction::New
    );
    assert_eq!(
        parse_client_args(argv(&["--list", "host"])).unwrap().action,
        ClientAction::List
    );
    assert_eq!(
        parse_client_args(argv(&["--new", "--list", "host"])).unwrap_err(),
        CliError::ConflictingActions
    );
}

#[test]
fn double_dash_takes_exactly_one_destination() {
    let parsed = parse_client_args(argv(&["-v", "--", "-weird-host"])).unwrap();
    assert_eq!(parsed.destination, b"-weird-host".to_vec());
    assert_eq!(parsed.ssh_args, argv(&["-v"]));
    assert_eq!(
        parse_client_args(argv(&["--"])).unwrap_err(),
        CliError::MissingDestination
    );
    assert_eq!(
        parse_client_args(argv(&["--", "host", "cmd"])).unwrap_err(),
        CliError::RemoteCommandNotSupported
    );
}

#[test]
fn argument_errors() {
    assert_eq!(
        parse_client_args(Vec::new()).unwrap_err(),
        CliError::MissingDestination
    );
    assert_eq!(
        parse_client_args(argv(&["--session"])).unwrap_err(),
        CliError::MissingOptionValue("--session")
    );
    assert_eq!(
        parse_client_args(argv(&["host", "-p"])).unwrap_err(),
        CliError::RemoteCommandNotSupported
    );
    assert_eq!(
        parse_client_args(argv(&["-p"])).unwrap_err(),
        CliError::MissingOptionValue("-p")
    );
    assert_eq!(
        parse_client_args(argv(&["-Z", "host"])).unwrap_err(),
        CliError::UnsupportedOption("-Z".to_string())
    );
    assert_eq!(
        parse_client_args(vec![b"--session".to_vec(), vec![0xff], b"host".to_vec()]).unwrap_err(),
        CliError::NonUtf8OptionValue("--session")
    );
    assert_eq!(
        parse_client_args(vec![b"-J\xffjump".to_vec(), b"host".to_vec()]).unwrap_err(),
        CliError::UnsupportedOption("-J\u{fffd}jump".to_string())
    );
    let parsed = parse_client_args(vec![b"-4".to_vec(), vec![0xfe, 0x68]]).unwrap();
    assert_eq!(parsed.destination, vec![0xfe, 0x68]);
}
