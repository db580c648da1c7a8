use ssh_obi::bootstrap::{
    is_useful_term, remote_shell_command, shell_quote, terminal_type, DEFAULT_TERM,
    INSTALL_OK_MARKER, INSTALL_REQUIRED_MARKER, READY_MARKER, SCRIPT,
};

#[test]
fn embedded_script_contains_sync_markers() {
    assert!(SCRIPT.contains(READY_MARKER));
    assert!(SCRIPT.contains(INSTALL_REQUIRED_MARKER));
    assert!(SCRIPT.contains(INSTALL_OK_MARKER));
}

#[test]
fn embedded_script_checks_fixed_cargo_server_path() {
    assert!(SCRIPT.contains("${HOME}/.cargo/bin/ssh-obi-server"));
}

#[test]
fn embedded_script_checks_path_server() {
    assert!(SCRIPT.contains("command -v ssh-obi-server"));
}

#[test]
fn remote_command_runs_stdin_script_with_baseline() {
    let command = remote_shell_command(&[], "xterm-256color");
    assert!(command.starts_with("sh -c '"));
    assert!(command.ends_with(" sh 0.1 --term xterm-256color"));
}

#[test]
fn remote_command_passes_server_args() {
    assert!(remote_shell_command(&["--detach"], "xterm")
        .ends_with(" sh 0.1 --term xterm --detach"));
}

#[test]
fn shell_quote_handles_single_quotes() {
    assert_eq!(shell_quote("a'b"), "'a'\\''b'");
}

#[test]
fn terminal_type_uses_default_for_unhelpful_values() {
    assert!(!is_useful_term(""));
    assert!(!is_useful_term("dumb"));
    assert!(is_useful_term("xterm-256color"));
    assert_eq!(terminal_type(Some("dumb")), "xterm-256color");
    assert_eq!(terminal_type(Some("")), "xterm-256color");
    assert_eq!(terminal_type(None), "xterm-256color");
    assert_eq!(terminal_type(Some("vt100")), "vt100");
}

#[test]
fn shell_quote_leaves_safe_words_alone() {
    assert_eq!(shell_quote("xterm-256color"), "xterm-256color");
    assert_eq!(shell_quote("/usr/bin/a_b.c"), "/usr/bin/a_b.c");
    assert_eq!(shell_quote(""), "");
    assert_eq!(shell_quote("a b"), "'a b'");
    assert_eq!(shell_quote("é"), "'é'");
}

#[test]
fn remote_command_quotes_every_part() {
    let expected = format!(
        "sh -c {} sh 0.1 --term 'dumb term' --x 'a b'",
        shell_quote(SCRIPT)
    );
    assert_eq!(remote_shell_command(&["--x", "a b"], "dumb term"), expected);
    assert!(is_useful_term(DEFAULT_TERM));
    assert!(is_useful_term("dum"));
    assert!(is_useful_term("dumbx"));
}
