use vstd::prelude::*;
use vstd::string::*;

use crate::text::{
    chars_of, decimal_text, push_decimal, push_signed_decimal, signed_decimal_text,
};

verus! {

/// D-Bus signature of systemd's `StartTransientUnit` call.
pub const START_TRANSIENT_UNIT_SIGNATURE: &'static str = "ssa(sv)a(sa(sv))";

/// The contents of a list of strings.
pub open spec fn texts(v: Seq<String>) -> Seq<Seq<char>> {
    Seq::new(v.len(), |i: int| v[i]@)
}

/// The description given to the transient scope of a PTY child.
pub open spec fn scope_description(pid: int, parent_pid: int) -> Seq<char> {
    "ssh-obi PTY child "@ + signed_decimal_text(pid) + " launched by process "@
        + signed_decimal_text(parent_pid)
}

/// The `busctl` arguments that ask the user's systemd to start the transient
/// scope `unit` holding process `pid`.
pub open spec fn transient_scope_args(pid: int, parent_pid: int, unit: Seq<char>) -> Seq<
    Seq<char>,
> {
    seq![
        "--user"@,
        "call"@,
        "org.freedesktop.systemd1"@,
        "/org/freedesktop/systemd1"@,
        "org.freedesktop.systemd1.Manager"@,
        "StartTransientUnit"@,
        START_TRANSIENT_UNIT_SIGNATURE@,
        unit,
        "fail"@,
        "5"@,
        "Description"@,
        "s"@,
        scope_description(pid, parent_pid),
        "SendSIGHUP"@,
        "b"@,
        "true"@,
        "Slice"@,
        "s"@,
        "app-ssh_obi.slice"@,
        "PIDs"@,
        "au"@,
        "1"@,
        signed_decimal_text(pid),
        "CollectMode"@,
        "s"@,
        "inactive-or-failed"@,
        "0"@,
    ]
}

/// A program to run and its arguments.
#[derive(Debug, Clone, PartialEq, Eq)]
pub struct ScopeCommand {
    pub program: String,
    pub args: Vec<String>,
}

fn push_text(v: &mut Vec<String>, s: String)
    ensures
        texts(final(v)@) == texts(old(v)@).push(s@),
{
    v.push(s);
    proof {
        assert(texts(v@) =~= texts(old(v)@).push(s@));
    }
}

fn push_literal(v: &mut Vec<String>, s: &str)
    ensures
        texts(final(v)@) == texts(old(v)@).push(s@),
{
    push_text(v, s.to_owned());
}

/// The `busctl` command that moves PTY child `pid` (started by
/// `parent_pid`) into a new transient scope `unit` of the user's systemd.
pub fn transient_scope_command(pid: i32, parent_pid: i32, unit: &str) -> (r: ScopeCommand)
    ensures
        r.program@ == "busctl"@,
        texts(r.args@) == transient_scope_args(pid as int, parent_pid as int, unit@),
{
    let mut description = "ssh-obi PTY child ".to_owned();
    push_signed_decimal(&mut description, pid as i64);
    description.append(" launched by process ");
    push_signed_decimal(&mut description, parent_pid as i64);
    let mut pid_text = String::new();
    push_signed_decimal(&mut pid_text, pid as i64);
    proof {
        assert(pid_text@ =~= signed_decimal_text(pid as int));
        assert(description@ =~= scope_description(pid as int, parent_pid as int));
    }
    let mut args: Vec<String> = Vec::new();
    push_literal(&mut args, "--user");
    push_literal(&mut args, "call");
    push_literal(&mut args, "org.freedesktop.systemd1");
    push_literal(&mut args, "/org/freedesktop/systemd1");
    push_literal(&mut args, "org.freedesktop.systemd1.Manager");
    push_literal(&mut args, "StartTransientUnit");
    push_literal(&mut args, START_TRANSIENT_UNIT_SIGNATURE);
    push_literal(&mut args, unit);
    push_literal(&mut args, "fail");
    push_literal(&mut args, "5");
    push_literal(&mut args, "Description");
    push_literal(&mut args, "s");
    push_text(&mut args, description);
    push_literal(&mut args, "SendSIGHUP");
    push_literal(&mut args, "b");
    push_literal(&mut args, "true");
    push_literal(&mut args, "Slice");
    push_literal(&mut args, "s");
    push_literal(&mut args, "app-ssh_obi.slice");
    push_literal(&mut args, "PIDs");
    push_literal(&mut args, "au");
    push_literal(&mut args, "1");
    push_text(&mut args, pid_text);
    push_literal(&mut args, "CollectMode");
    push_literal(&mut args, "s");
    push_literal(&mut args, "inactive-or-failed");
    push_literal(&mut args, "0");
    proof {
        assert(texts(args@) =~= transient_scope_args(pid as int, parent_pid as int, unit@));
    }
    ScopeCommand { program: "busctl".to_owned(), args }
}

/// The name of the transient scope for process `pid`, made unique by the
/// time `now_nanos` (nanoseconds after the Unix epoch).
pub fn transient_scope_unit_name(pid: i32, now_nanos: u128) -> (r: String)
    ensures
        r@ == "ssh-obi-spawn-"@ + signed_decimal_text(pid as int) + "-"@ + decimal_text(
            now_nanos as nat,
        ) + ".scope"@,
{
    let mut name = "ssh-obi-spawn-".to_owned();
    push_signed_decimal(&mut name, pid as i64);
    name.append("-");
    push_decimal(&mut name, now_nanos);
    name.append(".scope");
    name
}

/// Whether `p` occurs in `s`.
pub open spec fn contains_text(s: Seq<char>, p: Seq<char>) -> bool {
    exists|i: int| 0 <= i && i + p.len() <= s.len() && #[trigger] s.subrange(i, i + p.len()) == p
}

fn matches_at(s: &Vec<char>, i: usize, p: &Vec<char>) -> (r: bool)
    requires
        i + p@.len() <= s@.len(),
    ensures
        r == (s@.subrange(i as int, i + p@.len()) == p@),
{
    let m = p.len();
    let n = s.len();
    let mut k: usize = 0;
    while k < m
        invariant
            k <= m,
            m == p@.len(),
            n == s@.len(),
            i + m <= n,
            forall|j: int| 0 <= j < k ==> s@[i + j] == p@[j],
        decreases m - k,
    {
        if s[i + k] != p[k] {
            proof {
                assert(s@.subrange(i as int, i + m)[k as int] != p@[k as int]);
            }
            return false;
        }
        k = k + 1;
    }
    proof {
        assert(s@.subrange(i as int, i + m) =~= p@);
    }
    true
}

/// Whether the cgroup listing of a process names `unit`.
pub fn cgroup_names_unit(cgroup: &str, unit: &str) -> (r: bool)
    ensures
        r == contains_text(cgroup@, unit@),
{
    let s = chars_of(cgroup);
    let p = chars_of(unit);
    let n = s.len();
    let m = p.len();
    if m > n {
        return false;
    }
    let mut i: usize = 0;
    while i < n - m
        invariant
            i <= n - m,
            m <= n,
            n == s@.len(),
            m == p@.len(),
            s@ == cgroup@,
            p@ == unit@,
            forall|j: int| 0 <= j < i ==> #[trigger] s@.subrange(j, j + m) != p@,
        decreases n - m - i,
    {
        if matches_at(&s, i, &p) {
            return true;
        }
        i = i + 1;
    }
    matches_at(&s, i, &p)
}

/// What a wait for the scope's creation does next.
#[derive(Debug, Clone, Copy, PartialEq, Eq, Structural)]
pub enum ScopeWait {
    /// The wait is over and succeeded.
    Done,
    /// The `busctl` command failed, with its exit code if it had one.
    Failed(Option<i32>),
    /// The deadline passed (a command still running is killed).
    TimedOut,
    /// Look again a little later.
    Poll,
}

/// Decides the wait for the scope command: `exited` is how it ended, if it
/// has (whether it succeeded, and its exit code).
pub fn scope_command_poll(exited: Option<(bool, Option<i32>)>, past_deadline: bool) -> (r:
    ScopeWait)
    ensures
        r == match exited {
            Some((true, _)) => ScopeWait::Done,
            Some((false, code)) => ScopeWait::Failed(code),
            None => if past_deadline {
                ScopeWait::TimedOut
            } else {
                ScopeWait::Poll
            },
        },
{
    match exited {
        Some((success, code)) => {
            if success {
                ScopeWait::Done
            } else {
                ScopeWait::Failed(code)
            }
        },
        None => {
            if past_deadline {
                ScopeWait::TimedOut
            } else {
                ScopeWait::Poll
            }
        },
    }
}

/// Decides the wait for the child to show up in the scope, from its cgroup
/// listing.
pub fn scope_membership_poll(cgroup: &str, unit: &str, past_deadline: bool) -> (r: ScopeWait)
    ensures
        r == if contains_text(cgroup@, unit@) {
            ScopeWait::Done
        } else if past_deadline {
            ScopeWait::TimedOut
        } else {
            ScopeWait::Poll
        },
{
    if cgroup_names_unit(cgroup, unit) {
        ScopeWait::Done
    } else if past_deadline {
        ScopeWait::TimedOut
    } else {
        ScopeWait::Poll
    }
}

/// The usual runtime directory of the user `uid`.
pub fn user_runtime_dir_for_uid(uid: u32) -> (r: String)
    ensures
        r@ == "/run/user/"@ + decimal_text(uid as nat),
{
    let mut dir = "/run/user/".to_owned();
    push_decimal(&mut dir, uid as u128);
    dir
}

/// Picks the runtime directory holding the user's systemd bus: none unless
/// systemd booted the machine; `$XDG_RUNTIME_DIR` when it holds the bus,
/// otherwise the usual directory of the user when that one does.
pub fn select_runtime_dir(
    booted: bool,
    xdg_runtime_dir: Option<String>,
    xdg_has_bus: bool,
    user_dir: String,
    user_dir_has_bus: bool,
) -> (r: Option<String>)
    ensures
        !booted ==> r is None,
        booted && xdg_runtime_dir is Some && xdg_has_bus ==> (r matches Some(d) && d@
            == xdg_runtime_dir->0@),
        booted && !(xdg_runtime_dir is Some && xdg_has_bus) ==> if user_dir_has_bus {
            r matches Some(d) && d@ == user_dir@
        } else {
            r is None
        },
{
    if !booted {
        return None;
    }
    match xdg_runtime_dir {
        Some(d) => {
            if xdg_has_bus {
                return Some(d);
            }
        },
        None => {},
    }
    if user_dir_has_bus {
        Some(user_dir)
    } else {
        None
    }
}

} // verus!
