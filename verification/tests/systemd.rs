use ssh_obi::systemd::{
    cgroup_names_unit, scope_command_poll, scope_membership_poll, select_runtime_dir,
    transient_scope_command, transient_scope_unit_name, user_runtime_dir_for_uid, ScopeWait,
    START_TRANSIENT_UNIT_SIGNATURE,
};

#[test]
fn transient_scope_command_uses_start_transient_unit_with_pid() {
    let command = transient_scope_command(1234, 77, "ssh-obi-spawn-1234-test.scope");
    let args = command.args.clone();

    assert_eq!(command.program, "busctl");
    assert_eq!(args[0], "--user");
    assert_eq!(args[1], "call");
    assert!(args.iter().any(|arg| arg == "StartTransientUnit"));
    assert!(args.iter().any(|arg| arg == START_TRANSIENT_UNIT_SIGNATURE));
    assert!(args.iter().any(|arg| arg == "ssh-obi-spawn-1234-test.scope"));
    assert!(args.windows(3).any(|args| args == ["PIDs", "au", "1"]));
    assert!(args.iter().any(|arg| arg == "1234"));
    assert!(args.windows(3).any(|args| args == ["Slice", "s", "app-ssh_obi.slice"]));
    assert!(args
        .windows(3)
        .any(|args| args == ["CollectMode", "s", "inactive-or-failed"]));
}

#[test]
fn transient_scope_description_names_both_processes() {
    let command = transient_scope_command(-5, 0, "u.scope");
    assert_eq!(command.args.len(), 27);
    assert_eq!(command.args[12], "ssh-obi PTY child -5 launched by process 0");
    assert_eq!(command.args[22], "-5");
    assert_eq!(command.args[26], "0");
}

#[test]
fn transient_scope_unit_name_is_scope_unit() {
    let name = transient_scope_unit_name(1234, 1_700_000_000_123_456_789);
    assert!(name.starts_with("ssh-obi-spawn-1234-"));
    assert!(name.ends_with(".scope"));
    assert_eq!(name, "ssh-obi-spawn-1234-1700000000123456789.scope");
    assert_eq!(transient_scope_unit_name(7, 0), "ssh-obi-spawn-7-0.scope");
}

#[test]
fn cgroup_membership_is_a_substring_test() {
    let cgroup = "0::/user.slice/app-ssh_obi.slice/ssh-obi-spawn-9-1.scope\n";
    assert!(cgroup_names_unit(cgroup, "ssh-obi-spawn-9-1.scope"));
    assert!(!cgroup_names_unit(cgroup, "ssh-obi-spawn-9-2.scope"));
    assert!(cgroup_names_unit("abc", ""));
    assert!(!cgroup_names_unit("ab", "abc"));
    assert_eq!(scope_membership_poll(cgroup, "spawn-9-1", false), ScopeWait::Done);
    assert_eq!(scope_membership_poll(cgroup, "spawn-8", false), ScopeWait::Poll);
    assert_eq!(scope_membership_poll(cgroup, "spawn-8", true), ScopeWait::TimedOut);
}

#[test]
fn scope_command_outcomes() {
    assert_eq!(scope_command_poll(Some((true, Some(0))), true), ScopeWait::Done);
    assert_eq!(scope_command_poll(Some((false, Some(7))), false), ScopeWait::Failed(Some(7)));
    assert_eq!(scope_command_poll(Some((false, None)), false), ScopeWait::Failed(None));
    assert_eq!(scope_command_poll(None, false), ScopeWait::Poll);
    assert_eq!(scope_command_poll(None, true), ScopeWait::TimedOut);
}

#[test]
fn runtime_dir_prefers_xdg_when_it_holds_the_bus() {
    let user_dir = user_runtime_dir_for_uid(1000);
    assert_eq!(user_dir, "/run/user/1000");
    let xdg = Some("/tmp/xdg".to_string());
    assert_eq!(select_runtime_dir(false, xdg.clone(), true, user_dir.clone(), true), None);
    assert_eq!(
        select_runtime_dir(true, xdg.clone(), true, user_dir.clone(), true),
        Some("/tmp/xdg".to_string())
    );
    assert_eq!(
        select_runtime_dir(true, xdg.clone(), false, user_dir.clone(), true),
        Some("/run/user/1000".to_string())
    );
    assert_eq!(select_runtime_dir(true, None, false, user_dir.clone(), false), None);
    assert_eq!(user_runtime_dir_for_uid(0), "/run/user/0");
}
