use ssh_obi::foreground::{
    command_from_cmdline, parse_pid_name, parse_stat, GroupCommandSearch, ProcStat,
};

#[test]
fn parse_stat_handles_spaces_in_comm() {
    let stat = parse_stat("123 (vim notes.md) S 1 456 456 0 -1 4194304").unwrap();
    assert_eq!(
        stat,
        ProcStat {
            comm: "vim notes.md".to_string(),
            pgrp: 456,
        }
    );
}

fn group_command(pgrp: i32, entries: &[(&str, &str, &[u8])]) -> Option<String> {
    let mut search = GroupCommandSearch::new(pgrp);
    for (name, stat, cmdline) in entries {
        let Some(pid) = parse_pid_name(name) else {
            continue;
        };
        let Some(stat) = parse_stat(stat) else {
            continue;
        };
        if stat.pgrp != pgrp {
            continue;
        }
        let command = command_from_cmdline(cmdline, &stat.comm);
        if let Some(found) = search.offer(pid, command) {
            return Some(found);
        }
    }
    search.finish()
}

#[test]
fn command_for_process_group_prefers_group_leader_cmdline() {
    let command = group_command(
        456,
        &[
            ("789", "789 (cat) S 1 456 456 0", b"cat\0"),
            ("456", "456 (sh) S 1 456 456 0", b"vim\0notes.md\0"),
        ],
    );
    assert_eq!(command, Some("vim notes.md".to_string()));
}

#[test]
fn command_for_process_group_falls_back_to_comm() {
    let command = group_command(123, &[("789", "789 (cat) S 1 123 123 0", b"")]);
    assert_eq!(command, Some("cat".to_string()));
}

#[test]
fn stat_lines_that_do_not_parse() {
    assert_eq!(parse_stat("no parens here"), None);
    assert_eq!(parse_stat("1 )x( S 1 2"), None);
    assert_eq!(parse_stat("1 (a) S 1"), None);
    assert_eq!(parse_stat("1 (a) S 1 x"), None);
    assert_eq!(parse_stat("1 (a) S 1 99999999999"), None);
    assert_eq!(
        parse_stat("1 (a (b)) c) S 1 -7 0").unwrap(),
        ProcStat {
            comm: "a (b)) c".to_string(),
            pgrp: -7
        }
    );
    assert_eq!(
        parse_stat("1 (x)\tR\u{a0}2 +5").unwrap().pgrp,
        5
    );
}

#[test]
fn cmdline_rendering() {
    assert_eq!(command_from_cmdline(b"", "comm"), "comm");
    assert_eq!(command_from_cmdline(b"\0\0", "comm"), "comm");
    assert_eq!(command_from_cmdline(b"a\0\0b\0", "comm"), "a b");
    assert_eq!(command_from_cmdline(b"x\ty\nz\0", "comm"), "x y z");
    assert_eq!(command_from_cmdline(b"\xff\0ok", "comm"), "\u{fffd} ok");
}

#[test]
fn pid_names_and_group_search() {
    assert_eq!(parse_pid_name("123"), Some(123));
    assert_eq!(parse_pid_name("self"), None);
    assert_eq!(parse_pid_name("-5"), Some(-5));
    assert_eq!(parse_pid_name("2147483648"), None);
    assert_eq!(parse_pid_name("-2147483648"), Some(i32::MIN));
    let mut search = GroupCommandSearch::new(10);
    assert_eq!(search.offer(11, "first".to_string()), None);
    assert_eq!(search.offer(12, "second".to_string()), None);
    assert_eq!(search.finish(), Some("first".to_string()));
    let mut search = GroupCommandSearch::new(10);
    assert_eq!(search.offer(11, "peer".to_string()), None);
    assert_eq!(search.offer(10, "leader".to_string()), Some("leader".to_string()));
    assert_eq!(GroupCommandSearch::new(1).finish(), None);
}
