use vstd::prelude::*;
use vstd::string::*;

use crate::bootstrap::{INSTALL_REQUIRED_MARKER, READY_MARKER};
use crate::cli::{ClientAction, ClientArgs};
use crate::protocol::{
    ByteCursor, ExitStatus, MessageType, ProtocolError, WindowSize, is_disconnect_error, line_end,
    message_type_name,
};
use crate::session::{SessionInfo, SessionState, free_count, lemma_free_count_monotone};
use crate::text::{
    chars_of, lossy_string, lossy_utf8, parse_usize_chars, parse_usize_spec, string_from_chars,
    trim_bounds, trim_spec,
};

verus! {

broadcast use vstd::string::group_string_axioms;

/// Arguments given to the remote server for a client action: every action
/// runs the broker, so there are none.
pub fn server_args_for_action(args: &ClientArgs) -> (r: Vec<&'static str>)
    ensures
        r@.len() == 0,
{
    Vec::new()
}

/// The client's exit code for a shell's exit status: the shell's code when it
/// fits in a byte (1 otherwise), 1 when a signal ended the shell; `None` when
/// the status holds neither.
pub open spec fn exit_code_from_status_spec(status: ExitStatus) -> Option<u8> {
    match status.code {
        Some(c) => if 0 <= c <= 255 {
            Some(c as u8)
        } else {
            Some(1u8)
        },
        None => if status.signal is Some {
            Some(1u8)
        } else {
            None
        },
    }
}

pub fn exit_code_from_status(status: ExitStatus) -> (r: Option<u8>)
    ensures
        r == exit_code_from_status_spec(status),
{
    match status.code {
        Some(c) => {
            if 0 <= c && c <= 255 {
                Some(c as u8)
            } else {
                Some(1)
            }
        },
        None => {
            if status.signal.is_some() {
                Some(1)
            } else {
                None
            }
        },
    }
}

/// The client mirrors the remote shell's exit status: every code from 0 to
/// 255 comes back unchanged, only a code outside a byte becomes 1, a signal
/// with no code becomes 1, and a status with neither gives no exit code.
pub proof fn lemma_exit_code_mirrors_shell(code: i32, signal: i32, any_signal: Option<i32>)
    ensures
        0 <= code <= 255 ==> exit_code_from_status_spec(
            (ExitStatus { code: Some(code), signal: any_signal }),
        ) == Some(code as u8),
        !(0 <= code <= 255) ==> exit_code_from_status_spec(
            (ExitStatus { code: Some(code), signal: any_signal }),
        ) == Some(1u8),
        exit_code_from_status_spec((ExitStatus { code: None, signal: Some(signal) })) == Some(1u8),
        exit_code_from_status_spec((ExitStatus { code: None, signal: None })) is None,
{
}

/// The exit code once `ssh` itself has ended: `code` when ssh succeeded,
/// otherwise ssh's own code when it fits in a byte, else 1.
pub fn exit_code_with_ssh_status(code: u8, ssh_success: bool, ssh_code: Option<i32>) -> (r: u8)
    ensures
        ssh_success ==> r == code,
        !ssh_success ==> r == match ssh_code {
            Some(c) => if 0 <= c <= 255 {
                c as u8
            } else {
                1u8
            },
            None => 1u8,
        },
{
    if ssh_success {
        return code;
    }
    match ssh_code {
        Some(c) => {
            if 0 <= c && c <= 255 {
                c as u8
            } else {
                1
            }
        },
        None => 1,
    }
}

/// Reconnect attempts that may fail in a row before the client gives up.
pub const MAX_RECONNECT_ATTEMPTS: u32 = 10;

/// The wait before reconnect attempt `attempt` (counted from 1), in
/// milliseconds: 125, 250, 500, 1000, then 2000 for every later attempt.
pub open spec fn reconnect_delay(attempt: int) -> u64 {
    if attempt <= 1 {
        125
    } else if attempt == 2 {
        250
    } else if attempt == 3 {
        500
    } else if attempt == 4 {
        1000
    } else {
        2000
    }
}

/// The wait before reconnect attempt `attempt`, in milliseconds.
pub fn reconnect_delay_ms(attempt: u32) -> (r: u64)
    ensures
        r == reconnect_delay(attempt as int),
{
    if attempt <= 1 {
        125
    } else if attempt == 2 {
        250
    } else if attempt == 3 {
        500
    } else if attempt == 4 {
        1000
    } else {
        2000
    }
}

/// What the client does after a connection attempt fails.
#[derive(Debug, Clone, PartialEq, Eq)]
pub enum ReconnectDecision {
    /// Wait `delay_ms`, then open a new connection and attach to this session.
    Reconnect { session_id: String, delay_ms: u64 },
    /// The session still has a (stale) client: ask it to detach, wait
    /// `delay_ms`, then attach again.
    DetachThenReconnect { session_id: String, delay_ms: u64 },
    /// The failure was not a lost connection: report it.
    GiveUp,
    /// The connection was lost before any session was known.
    LostBeforeSessionKnown,
    /// Every reconnect attempt allowed has failed.
    ReconnectFailed { session_id: String },
}

/// The content of a `ReconnectDecision`.
pub enum ReconnectOutcome {
    Reconnect { session_id: Seq<char>, delay_ms: u64 },
    DetachThenReconnect { session_id: Seq<char>, delay_ms: u64 },
    GiveUp,
    LostBeforeSessionKnown,
    ReconnectFailed { session_id: Seq<char> },
}

impl View for ReconnectDecision {
    type V = ReconnectOutcome;

    open spec fn view(&self) -> ReconnectOutcome {
        match self {
            ReconnectDecision::Reconnect { session_id, delay_ms } => ReconnectOutcome::Reconnect {
                session_id: session_id@,
                delay_ms: *delay_ms,
            },
            ReconnectDecision::DetachThenReconnect { session_id, delay_ms } =>
                ReconnectOutcome::DetachThenReconnect {
                session_id: session_id@,
                delay_ms: *delay_ms,
            },
            ReconnectDecision::GiveUp => ReconnectOutcome::GiveUp,
            ReconnectDecision::LostBeforeSessionKnown => ReconnectOutcome::LostBeforeSessionKnown,
            ReconnectDecision::ReconnectFailed { session_id } => ReconnectOutcome::ReconnectFailed {
                session_id: session_id@,
            },
        }
    }
}

/// The session that a `SessionBusy` failure names, if it is one.
pub open spec fn busy_session(failure: AttachFailure) -> Option<Seq<char>> {
    match failure {
        AttachFailure::SessionBusy(s) => Some(s@),
        _ => None,
    }
}

/// What follows a failed attempt. `failed_attempts` counts the reconnect
/// attempts that have failed in a row, this one included.
///
/// While reconnecting, a `SessionBusy` for the session being recovered means
/// a stale client still holds it: that client is asked to detach and the
/// attach is tried again. Otherwise only an ambiguous failure is retried, and
/// only for a known session (the one the failed attempt reached, else the one
/// known before). A retry waits `reconnect_delay` of its attempt number; once
/// `MAX_RECONNECT_ATTEMPTS` reconnect attempts have failed, the client gives up.
pub open spec fn reconnect_outcome(
    failure: AttachFailure,
    failure_session_id: Option<Seq<char>>,
    known_session_id: Option<Seq<char>>,
    reconnecting: bool,
    failed_attempts: int,
) -> ReconnectOutcome {
    if reconnecting && busy_session(failure) is Some && busy_session(failure) == known_session_id {
        if failed_attempts >= MAX_RECONNECT_ATTEMPTS {
            ReconnectOutcome::ReconnectFailed { session_id: known_session_id->0 }
        } else {
            ReconnectOutcome::DetachThenReconnect {
                session_id: known_session_id->0,
                delay_ms: reconnect_delay(failed_attempts + 1),
            }
        }
    } else if !is_ambiguous_failure(failure) {
        ReconnectOutcome::GiveUp
    } else {
        let session = if failure_session_id is Some {
            failure_session_id
        } else {
            known_session_id
        };
        match session {
            None => ReconnectOutcome::LostBeforeSessionKnown,
            Some(s) => if failed_attempts >= MAX_RECONNECT_ATTEMPTS {
                ReconnectOutcome::ReconnectFailed { session_id: s }
            } else {
                ReconnectOutcome::Reconnect {
                    session_id: s,
                    delay_ms: reconnect_delay(failed_attempts + 1),
                }
            },
        }
    }
}

fn copy_string(s: &String) -> (r: String)
    ensures
        r@ == s@,
{
    s.clone()
}

/// Decides what follows a failed attempt; see `reconnect_outcome`.
pub fn reconnect_decision(
    failure: &AttachFailure,
    failure_session_id: Option<String>,
    known_session_id: Option<String>,
    reconnecting: bool,
    failed_attempts: u32,
) -> (r: ReconnectDecision)
    ensures
        r@ == reconnect_outcome(
            *failure,
            opt_string_view(failure_session_id),
            opt_string_view(known_session_id),
            reconnecting,
            failed_attempts as int,
        ),
{
    let busy_known = match (failure, &known_session_id) {
        (AttachFailure::SessionBusy(b), Some(k)) => reconnecting && *b == *k,
        _ => false,
    };
    if busy_known {
        let k = match known_session_id {
            Some(k) => k,
            None => String::new(),
        };
        if failed_attempts >= MAX_RECONNECT_ATTEMPTS {
            return ReconnectDecision::ReconnectFailed { session_id: k };
        }
        return ReconnectDecision::DetachThenReconnect {
            session_id: k,
            delay_ms: reconnect_delay_ms(failed_attempts + 1),
        };
    }
    if !is_ambiguous_disconnect(failure) {
        return ReconnectDecision::GiveUp;
    }
    let session = match failure_session_id {
        Some(s) => s,
        None => match known_session_id {
            Some(s) => s,
            None => {
                return ReconnectDecision::LostBeforeSessionKnown;
            },
        },
    };
    if failed_attempts >= MAX_RECONNECT_ATTEMPTS {
        return ReconnectDecision::ReconnectFailed { session_id: session };
    }
    ReconnectDecision::Reconnect {
        session_id: session,
        delay_ms: reconnect_delay_ms(failed_attempts + 1),
    }
}

/// What the reconnect loop remembers between attempts.
pub struct ReconnectView {
    pub known_session_id: Option<Seq<char>>,
    pub reconnecting: bool,
    pub failed_attempts: nat,
}

/// The client's reconnect loop: the session it is recovering, whether it is
/// reconnecting, and how many reconnect attempts in a row have failed.
#[derive(Debug)]
pub struct ReconnectState {
    known_session_id: Option<String>,
    reconnecting: bool,
    failed_attempts: u32,
}

impl View for ReconnectState {
    type V = ReconnectView;

    closed spec fn view(&self) -> ReconnectView {
        ReconnectView {
            known_session_id: opt_string_view(self.known_session_id),
            reconnecting: self.reconnecting,
            failed_attempts: self.failed_attempts as nat,
        }
    }
}

/// The count of failed reconnect attempts once an attempt has failed: none
/// when it was the first connection or reached its session, one more
/// otherwise (counted no higher than the limit).
pub open spec fn failed_attempts_after(v: ReconnectView, reached: bool) -> nat {
    if reached || !v.reconnecting {
        0
    } else if v.failed_attempts >= MAX_RECONNECT_ATTEMPTS {
        MAX_RECONNECT_ATTEMPTS as nat
    } else {
        v.failed_attempts + 1
    }
}

/// The decision after a failed attempt. `reached` says whether the attempt
/// got through to its session; `in_setup` whether it failed before the
/// session was attached (while starting ssh, bootstrapping or choosing the
/// session), which is retried only while reconnecting.
pub open spec fn after_failure_outcome(
    v: ReconnectView,
    failure: AttachFailure,
    failure_session_id: Option<Seq<char>>,
    reached: bool,
    in_setup: bool,
) -> ReconnectOutcome {
    if in_setup && !v.reconnecting {
        ReconnectOutcome::GiveUp
    } else {
        reconnect_outcome(
            failure,
            failure_session_id,
            v.known_session_id,
            v.reconnecting,
            failed_attempts_after(v, reached) as int,
        )
    }
}

/// The loop's state after a decision: a retry makes its session the known
/// one and counts the failed attempts; any other decision ends the loop.
pub open spec fn after_failure_state(
    v: ReconnectView,
    outcome: ReconnectOutcome,
    reached: bool,
) -> ReconnectView {
    match outcome {
        ReconnectOutcome::Reconnect { session_id, .. } => ReconnectView {
            known_session_id: Some(session_id),
            reconnecting: true,
            failed_attempts: failed_attempts_after(v, reached),
        },
        ReconnectOutcome::DetachThenReconnect { session_id, .. } => ReconnectView {
            known_session_id: Some(session_id),
            reconnecting: true,
            failed_attempts: failed_attempts_after(v, reached),
        },
        _ => v,
    }
}

impl ReconnectState {
    /// The state before the first connection; `session_id` is the session
    /// asked for on the command line, if any.
    pub fn new(session_id: Option<String>) -> (r: ReconnectState)
        ensures
            r@ == (ReconnectView {
                known_session_id: opt_string_view(session_id),
                reconnecting: false,
                failed_attempts: 0,
            }),
    {
        ReconnectState { known_session_id: session_id, reconnecting: false, failed_attempts: 0 }
    }

    /// Decides what follows a failed attempt and records it.
    pub fn after_failure(
        &mut self,
        failure: &AttachFailure,
        failure_session_id: Option<String>,
        reached: bool,
        in_setup: bool,
    ) -> (r: ReconnectDecision)
        ensures
            r@ == after_failure_outcome(
                old(self)@,
                *failure,
                opt_string_view(failure_session_id),
                reached,
                in_setup,
            ),
            final(self)@ == after_failure_state(old(self)@, r@, reached),
    {
        if in_setup && !self.reconnecting {
            return ReconnectDecision::GiveUp;
        }
        let failed = if reached || !self.reconnecting {
            0
        } else if self.failed_attempts >= MAX_RECONNECT_ATTEMPTS {
            MAX_RECONNECT_ATTEMPTS
        } else {
            self.failed_attempts + 1
        };
        let known = match &self.known_session_id {
            Some(k) => Some(copy_string(k)),
            None => None,
        };
        let r = reconnect_decision(failure, failure_session_id, known, self.reconnecting, failed);
        match &r {
            ReconnectDecision::Reconnect { session_id, .. } => {
                self.known_session_id = Some(copy_string(session_id));
                self.reconnecting = true;
                self.failed_attempts = failed;
            },
            ReconnectDecision::DetachThenReconnect { session_id, .. } => {
                self.known_session_id = Some(copy_string(session_id));
                self.reconnecting = true;
                self.failed_attempts = failed;
            },
            _ => {},
        }
        r
    }
}

/// The decisions taken, one after the other, for attempts that fail with
/// `failures`, none of them reaching its session, each failing after it was
/// attached and naming `failure_session_id` as its session.
pub open spec fn outcomes_of(
    v: ReconnectView,
    failures: Seq<AttachFailure>,
    failure_session_id: Option<Seq<char>>,
) -> Seq<ReconnectOutcome>
    decreases failures.len(),
{
    if failures.len() == 0 {
        Seq::empty()
    } else {
        let o = after_failure_outcome(v, failures[0], failure_session_id, false, false);
        seq![o] + outcomes_of(
            after_failure_state(v, o, false),
            failures.skip(1),
            failure_session_id,
        )
    }
}

/// The decision owed after the `i`-th failure (counted from 0) of a session
/// `k` whose every reconnect attempt fails: the `i`-th reconnect attempt
/// after `reconnect_delay(i + 1)`, preceded by a detach request when the
/// failure was `k` being busy, and no further attempt once ten have failed.
pub open spec fn backoff_outcome(k: Seq<char>, failure: AttachFailure, i: int) -> ReconnectOutcome {
    if i >= MAX_RECONNECT_ATTEMPTS {
        ReconnectOutcome::ReconnectFailed { session_id: k }
    } else if i > 0 && busy_session(failure) == Some(k) {
        ReconnectOutcome::DetachThenReconnect { session_id: k, delay_ms: reconnect_delay(i + 1) }
    } else {
        ReconnectOutcome::Reconnect { session_id: k, delay_ms: reconnect_delay(i + 1) }
    }
}

proof fn lemma_backoff_from(
    k: Seq<char>,
    sid: Option<Seq<char>>,
    failures: Seq<AttachFailure>,
    j: int,
)
    requires
        1 <= j <= MAX_RECONNECT_ATTEMPTS + 1,
        failures.len() == MAX_RECONNECT_ATTEMPTS + 1,
        sid is None || sid == Some(k),
        forall|i: int|
            1 <= i < failures.len() ==> is_ambiguous_failure(#[trigger] failures[i])
                || busy_session(failures[i]) == Some(k),
    ensures
        ({
            let os = outcomes_of(
                ReconnectView {
                    known_session_id: Some(k),
                    reconnecting: true,
                    failed_attempts: (j - 1) as nat,
                },
                failures.skip(j),
                sid,
            );
            &&& os.len() == failures.len() - j
            &&& forall|m: int|
                0 <= m < os.len() ==> #[trigger] os[m] == backoff_outcome(k, failures[j + m], j + m)
        }),
    decreases failures.len() - j,
{
    let v = ReconnectView {
        known_session_id: Some(k),
        reconnecting: true,
        failed_attempts: (j - 1) as nat,
    };
    let f = failures.skip(j);
    if j < failures.len() {
        assert(f[0] == failures[j]);
        let o = after_failure_outcome(v, f[0], sid, false, false);
        assert(failed_attempts_after(v, false) == j);
        assert(o == backoff_outcome(k, failures[j], j));
        let os = outcomes_of(v, f, sid);
        if j < MAX_RECONNECT_ATTEMPTS {
            lemma_backoff_from(k, sid, failures, j + 1);
            assert(f.skip(1) =~= failures.skip(j + 1));
            assert(after_failure_state(v, o, false) == ReconnectView {
                known_session_id: Some(k),
                reconnecting: true,
                failed_attempts: j as nat,
            });
            assert forall|m: int| 0 <= m < os.len() implies #[trigger] os[m] == backoff_outcome(
                k,
                failures[j + m],
                j + m,
            ) by {
                if m > 0 {
                    let rest = outcomes_of(after_failure_state(v, o, false), f.skip(1), sid);
                    assert(os[m] == rest[m - 1]);
                }
            }
        } else {
            assert(f.len() == 1);
            assert(f.skip(1).len() == 0);
            let rest = outcomes_of(after_failure_state(v, o, false), f.skip(1), sid);
            assert(rest.len() == 0);
            assert(os == seq![o] + rest);
            assert(os[0] == o);
        }
    } else {
        assert(f.len() == 0);
    }
}

/// Automatic reconnect backs off and then gives up: once a session `k` is
/// known and its connection is lost, while every later attempt fails without
/// reaching the session (a lost connection, or `k` found busy), the client
/// makes reconnect attempts 1 to 10 after 125ms, 250ms, 500ms, 1s and then
/// 2s, asks a stale client of `k` to detach before retrying whenever `k` was
/// busy, and after the tenth failed reconnect attempt reports failure.
pub proof fn lemma_reconnect_backoff_gives_up(
    k: Seq<char>,
    failure_session_id: Option<Seq<char>>,
    failures: Seq<AttachFailure>,
)
    requires
        failures.len() == MAX_RECONNECT_ATTEMPTS + 1,
        failure_session_id is None || failure_session_id == Some(k),
        is_ambiguous_failure(failures[0]),
        forall|i: int|
            1 <= i < failures.len() ==> is_ambiguous_failure(#[trigger] failures[i])
                || busy_session(failures[i]) == Some(k),
    ensures
        ({
            let os = outcomes_of(
                ReconnectView { known_session_id: Some(k), reconnecting: false, failed_attempts: 0 },
                failures,
                failure_session_id,
            );
            &&& os.len() == failures.len()
            &&& forall|i: int|
                0 <= i < os.len() ==> #[trigger] os[i] == backoff_outcome(k, failures[i], i)
            &&& os[MAX_RECONNECT_ATTEMPTS as int] == ReconnectOutcome::ReconnectFailed {
                session_id: k,
            }
        }),
{
    let v0 = ReconnectView { known_session_id: Some(k), reconnecting: false, failed_attempts: 0 };
    let o = after_failure_outcome(v0, failures[0], failure_session_id, false, false);
    assert(o == backoff_outcome(k, failures[0], 0));
    let v1 = after_failure_state(v0, o, false);
    assert(v1 == ReconnectView { known_session_id: Some(k), reconnecting: true, failed_attempts: 0 });
    lemma_backoff_from(k, failure_session_id, failures, 1);
    let os = outcomes_of(v0, failures, failure_session_id);
    assert forall|i: int| 0 <= i < os.len() implies #[trigger] os[i] == backoff_outcome(
        k,
        failures[i],
        i,
    ) by {
        if i > 0 {
            let rest = outcomes_of(v1, failures.skip(1), failure_session_id);
            assert(os[i] == rest[i - 1]);
        }
    }
    assert(os[MAX_RECONNECT_ATTEMPTS as int] == backoff_outcome(
        k,
        failures[MAX_RECONNECT_ATTEMPTS as int],
        MAX_RECONNECT_ATTEMPTS as int,
    ));
}

/// A first attach that finds its session busy is reported, never turned
/// into a detach of the other client: only a reconnect detaches.
pub proof fn lemma_first_attach_busy_is_reported(
    v: ReconnectView,
    session_id: Seq<char>,
    failure: AttachFailure,
    failure_session_id: Option<Seq<char>>,
    in_setup: bool,
)
    requires
        !v.reconnecting,
        busy_session(failure) == Some(session_id),
    ensures
        after_failure_outcome(v, failure, failure_session_id, false, in_setup)
            == ReconnectOutcome::GiveUp,
{
}

/// The first request the client sends once the server is ready.
#[derive(Debug, Clone, PartialEq, Eq)]
pub enum InitialRequest {
    /// List the sessions, then end (`--list`).
    ListSessions,
    /// Detach whatever client holds this session, then end (`--detach`).
    DetachSession(String),
    /// Attach to this session (`--session ID`).
    AttachSession(String),
    /// List the sessions and keep the broker for a choice among them.
    ChooseSession,
    /// Start a new session (`--new`).
    NewSession,
}

/// The request that opens the conversation with the broker for `args`;
/// `None` for `--detach` without a session.
pub fn initial_request(args: &ClientArgs) -> (r: Option<InitialRequest>)
    ensures
        args.action == ClientAction::List ==> r == Some(InitialRequest::ListSessions),
        args.action == ClientAction::New ==> r == Some(InitialRequest::NewSession),
        args.action == ClientAction::Detach ==> match args.session {
            Some(s) => r matches Some(InitialRequest::DetachSession(x)) && x@ == s@,
            None => r is None,
        },
        args.action == ClientAction::Attach ==> match args.session {
            Some(s) => r matches Some(InitialRequest::AttachSession(x)) && x@ == s@,
            None => r == Some(InitialRequest::ChooseSession),
        },
{
    match args.action {
        ClientAction::List => Some(InitialRequest::ListSessions),
        ClientAction::New => Some(InitialRequest::NewSession),
        ClientAction::Detach => match &args.session {
            Some(s) => Some(InitialRequest::DetachSession(s.clone())),
            None => None,
        },
        ClientAction::Attach => match &args.session {
            Some(s) => Some(InitialRequest::AttachSession(s.clone())),
            None => Some(InitialRequest::ChooseSession),
        },
    }
}

/// The window size to send to the broker: the current one, when there is
/// one and it differs from the last one sent.
pub fn window_size_to_send(last: Option<WindowSize>, current: Option<WindowSize>) -> (r: Option<
    WindowSize,
>)
    ensures
        r == match current {
            Some(c) => if last == Some(c) {
                None
            } else {
                Some(c)
            },
            None => None::<WindowSize>,
        },
{
    match current {
        None => None,
        Some(c) => {
            let same = match last {
                Some(l) => l.rows == c.rows && l.cols == c.cols && l.pixel_width == c.pixel_width
                    && l.pixel_height == c.pixel_height,
                None => false,
            };
            if same {
                None
            } else {
                Some(c)
            }
        },
    }
}

/// A broker message met while attached, its body decoded.
#[derive(Debug)]
pub enum BrokerMessage {
    /// `AttachedSession`: the session the broker attached to.
    AttachedSession { session_id: String },
    /// `PtyData`: output of the session.
    PtyData { bytes: Vec<u8> },
    /// `ClientShouldExit`: the session was detached on purpose.
    ClientShouldExit,
    /// `ExitStatus`: the session's shell ended.
    ExitStatus(ExitStatus),
    /// `SessionBusy`: another client holds the session.
    SessionBusy { session_id: String },
    /// `Error`: the broker reports a failure.
    Error { message: String },
    /// A message of any other type.
    Other(MessageType),
}

/// Something that happens while the client is attached to a session.
#[derive(Debug)]
pub enum AttachedEvent {
    /// Bytes typed on the local terminal.
    Stdin(Vec<u8>),
    /// The local input ended.
    StdinEof,
    /// Reading the local input failed.
    StdinError(std::io::Error),
    /// A message read from the broker of connection attempt `attempt_id`.
    Broker { attempt_id: u64, message: BrokerMessage },
    /// The broker of attempt `attempt_id` closed its stream.
    BrokerEof { attempt_id: u64 },
    /// Reading or decoding the broker's stream of attempt `attempt_id` failed.
    BrokerFailed { attempt_id: u64, error: ProtocolError },
    /// No event can come any more.
    EventsClosed,
}

/// Why an attached connection ended without a result.
#[derive(Debug)]
pub enum AttachFailure {
    /// The remote side ended before the server was ready.
    BootstrapEnded,
    UnexpectedBrokerEof,
    CopyStdin(std::io::Error),
    Protocol(ProtocolError),
    SessionMismatch { expected: String, actual: String },
    SessionBusy(String),
    BrokerError(String),
    UnexpectedBrokerMessage(u8),
    MissingExitStatus,
    /// Writing the session's output to the local terminal failed.
    CopyStdout(std::io::Error),
    /// Reading the local terminal's size failed.
    WindowSize(std::io::Error),
}

/// What the client does after an event while attached.
#[derive(Debug)]
pub enum AttachedAction {
    /// Wait for the next event.
    Wait,
    /// Send these bytes to the broker as `PtyData`.
    SendPtyData(Vec<u8>),
    /// Write these bytes to the local terminal.
    WriteStdout(Vec<u8>),
    /// The session is over: exit with this code.
    Exit(u8),
    /// The attached connection failed.
    Fail(AttachFailure),
}

/// The state of an attached connection: which attempt it is, the session it
/// is known to reach, whether local input is still open, and whether the
/// session was reached (its broker sent the session id or output).
#[derive(Debug)]
pub struct AttachedState {
    pub attempt_id: u64,
    pub session_id: Option<String>,
    pub stdin_open: bool,
    pub reached: bool,
}

/// Whether `event` shows that the current attempt reached its session: its
/// broker names the session (as requested) or sends the session's output.
pub open spec fn is_session_contact(
    attempt_id: u64,
    session_id: Option<Seq<char>>,
    event: AttachedEvent,
) -> bool {
    match event {
        AttachedEvent::Broker { attempt_id: a, message } => a == attempt_id && match message {
            BrokerMessage::PtyData { .. } => true,
            BrokerMessage::AttachedSession { session_id: s } => match session_id {
                Some(expected) => expected == s@,
                None => true,
            },
            _ => false,
        },
        _ => false,
    }
}

pub open spec fn opt_string_view(o: Option<String>) -> Option<Seq<char>> {
    match o {
        Some(s) => Some(s@),
        None => None,
    }
}

/// The attempt that an event of the broker belongs to, if it is one.
pub open spec fn event_attempt(e: AttachedEvent) -> Option<u64> {
    match e {
        AttachedEvent::Broker { attempt_id, .. } => Some(attempt_id),
        AttachedEvent::BrokerEof { attempt_id } => Some(attempt_id),
        AttachedEvent::BrokerFailed { attempt_id, .. } => Some(attempt_id),
        _ => None,
    }
}

/// Decides the client's answer to one event while attached. Keyboard bytes
/// are forwarded while local input is open; events of an earlier connection
/// attempt are ignored; the broker's `AttachedSession` names the session
/// (and must match the one requested), `PtyData` goes to the terminal,
/// `ClientShouldExit` ends with status 0 and `ExitStatus` with the shell's
/// code; message types the protocol does not know are skipped, and any
/// other message ends the connection with a failure.
pub fn attached_step(state: &mut AttachedState, event: AttachedEvent) -> (r: AttachedAction)
    ensures
        r is Exit <==> is_session_end(old(state).attempt_id, event),
        (r matches AttachedAction::Fail(f) && is_ambiguous_failure(f)) <==> is_lost_connection(
            old(state).attempt_id,
            event,
        ),
        final(state).attempt_id == old(state).attempt_id,
        final(state).reached == (old(state).reached || is_session_contact(
            old(state).attempt_id,
            opt_string_view(old(state).session_id),
            event,
        )),
        !(event is StdinEof) ==> final(state).stdin_open == old(state).stdin_open,
        !(event matches AttachedEvent::Broker { message: BrokerMessage::AttachedSession { .. }, .. })
            ==> opt_string_view(final(state).session_id) == opt_string_view(old(state).session_id),
        event_attempt(event) matches Some(a) && a != old(state).attempt_id ==> r is Wait,
        match event {
            AttachedEvent::Stdin(bytes) => if old(state).stdin_open {
                r matches AttachedAction::SendPtyData(b) && b@ == bytes@
            } else {
                r is Wait
            },
            AttachedEvent::StdinEof => r is Wait && !final(state).stdin_open,
            AttachedEvent::StdinError(err) => r matches AttachedAction::Fail(
                AttachFailure::CopyStdin(e),
            ) && e == err,
            AttachedEvent::EventsClosed => r matches AttachedAction::Fail(
                AttachFailure::UnexpectedBrokerEof,
            ),
            AttachedEvent::BrokerEof { attempt_id } => attempt_id == old(state).attempt_id ==> (
            r matches AttachedAction::Fail(AttachFailure::UnexpectedBrokerEof)),
            AttachedEvent::BrokerFailed { attempt_id, error } => attempt_id == old(
                state,
            ).attempt_id ==> (r matches AttachedAction::Fail(AttachFailure::Protocol(e)) && e
                == error),
            AttachedEvent::Broker { attempt_id, message } => attempt_id == old(state).attempt_id
                ==> match message {
                BrokerMessage::AttachedSession { session_id } => match old(state).session_id {
                    Some(expected) => if expected@ != session_id@ {
                        &&& r matches AttachedAction::Fail(
                            AttachFailure::SessionMismatch { expected: x, actual: y },
                        )
                        &&& x@ == expected@
                        &&& y@ == session_id@
                        &&& opt_string_view(final(state).session_id) == opt_string_view(
                            old(state).session_id,
                        )
                    } else {
                        r is Wait && opt_string_view(final(state).session_id) == Some(
                            session_id@,
                        )
                    },
                    None => r is Wait && opt_string_view(final(state).session_id) == Some(
                        session_id@,
                    ),
                },
                BrokerMessage::PtyData { bytes } => r matches AttachedAction::WriteStdout(b) && b@
                    == bytes@,
                BrokerMessage::ClientShouldExit => r matches AttachedAction::Exit(c) && c == 0,
                BrokerMessage::ExitStatus(status) => match exit_code_from_status_spec(status) {
                    Some(c) => r matches AttachedAction::Exit(x) && x == c,
                    None => r matches AttachedAction::Fail(AttachFailure::MissingExitStatus),
                },
                BrokerMessage::SessionBusy { session_id } => r matches AttachedAction::Fail(
                    AttachFailure::SessionBusy(s),
                ) && s@ == session_id@,
                BrokerMessage::Error { message } => r matches AttachedAction::Fail(
                    AttachFailure::BrokerError(m),
                ) && m@ == message@,
                BrokerMessage::Other(t) => if message_type_name(t.0) is Some {
                    r matches AttachedAction::Fail(AttachFailure::UnexpectedBrokerMessage(x)) && x
                        == t.0
                } else {
                    r is Wait
                },
            },
        },
{
    match event {
        AttachedEvent::Stdin(bytes) => {
            if state.stdin_open {
                AttachedAction::SendPtyData(bytes)
            } else {
                AttachedAction::Wait
            }
        },
        AttachedEvent::StdinEof => {
            state.stdin_open = false;
            AttachedAction::Wait
        },
        AttachedEvent::StdinError(err) => AttachedAction::Fail(AttachFailure::CopyStdin(err)),
        AttachedEvent::EventsClosed => AttachedAction::Fail(AttachFailure::UnexpectedBrokerEof),
        AttachedEvent::BrokerEof { attempt_id } => {
            if attempt_id != state.attempt_id {
                AttachedAction::Wait
            } else {
                AttachedAction::Fail(AttachFailure::UnexpectedBrokerEof)
            }
        },
        AttachedEvent::BrokerFailed { attempt_id, error } => {
            if attempt_id != state.attempt_id {
                AttachedAction::Wait
            } else {
                AttachedAction::Fail(AttachFailure::Protocol(error))
            }
        },
        AttachedEvent::Broker { attempt_id, message } => {
            if attempt_id != state.attempt_id {
                return AttachedAction::Wait;
            }
            match message {
                BrokerMessage::AttachedSession { session_id } => {
                    let mismatch = match &state.session_id {
                        Some(expected) => *expected != session_id,
                        None => false,
                    };
                    if mismatch {
                        let expected = match &state.session_id {
                            Some(e) => e.clone(),
                            None => String::new(),
                        };
                        return AttachedAction::Fail(
                            AttachFailure::SessionMismatch { expected, actual: session_id },
                        );
                    }
                    state.session_id = Some(session_id);
                    state.reached = true;
                    AttachedAction::Wait
                },
                BrokerMessage::PtyData { bytes } => {
                    state.reached = true;
                    AttachedAction::WriteStdout(bytes)
                },
                BrokerMessage::ClientShouldExit => AttachedAction::Exit(0),
                BrokerMessage::ExitStatus(status) => match exit_code_from_status(status) {
                    Some(c) => AttachedAction::Exit(c),
                    None => AttachedAction::Fail(AttachFailure::MissingExitStatus),
                },
                BrokerMessage::SessionBusy { session_id } => AttachedAction::Fail(
                    AttachFailure::SessionBusy(session_id),
                ),
                BrokerMessage::Error { message } => AttachedAction::Fail(
                    AttachFailure::BrokerError(message),
                ),
                BrokerMessage::Other(t) => {
                    if t.is_known() {
                        AttachedAction::Fail(AttachFailure::UnexpectedBrokerMessage(t.get()))
                    } else {
                        AttachedAction::Wait
                    }
                },
            }
        },
    }
}

/// Whether an attached connection that failed this way may just have lost
/// its connection, so that reconnecting is worth a try: the broker's stream
/// ended early, or a framing error that a cut connection causes.
pub open spec fn is_ambiguous_failure(failure: AttachFailure) -> bool {
    match failure {
        AttachFailure::BootstrapEnded => true,
        AttachFailure::UnexpectedBrokerEof => true,
        AttachFailure::Protocol(e) => e is Io || e is TruncatedHeader || e is TruncatedPayload,
        _ => false,
    }
}

/// Whether `event` tells that the broker connection of the current attempt
/// was lost: its stream ended or was cut, or no event can come any more.
pub open spec fn is_lost_connection(attempt_id: u64, event: AttachedEvent) -> bool {
    match event {
        AttachedEvent::BrokerEof { attempt_id: a } => a == attempt_id,
        AttachedEvent::BrokerFailed { attempt_id: a, error } => a == attempt_id && (error is Io
            || error is TruncatedHeader || error is TruncatedPayload),
        AttachedEvent::EventsClosed => true,
        _ => false,
    }
}

/// Whether `event` ends the session with a result: `ClientShouldExit`, or
/// the shell's exit status, from the broker of the current attempt.
pub open spec fn is_session_end(attempt_id: u64, event: AttachedEvent) -> bool {
    match event {
        AttachedEvent::Broker { attempt_id: a, message } => a == attempt_id && match message {
            BrokerMessage::ClientShouldExit => true,
            BrokerMessage::ExitStatus(status) => exit_code_from_status_spec(status) is Some,
            _ => false,
        },
        _ => false,
    }
}

/// Whether an attached connection that failed this way may just have lost
/// its connection, so that reconnecting is worth a try.
pub fn is_ambiguous_disconnect(failure: &AttachFailure) -> (r: bool)
    ensures
        r == is_ambiguous_failure(*failure),
{
    match failure {
        AttachFailure::BootstrapEnded => true,
        AttachFailure::UnexpectedBrokerEof => true,
        AttachFailure::Protocol(e) => is_disconnect_error(e),
        _ => false,
    }
}

/// `s` without its trailing carriage returns and line feeds.
pub open spec fn trim_line_end(s: Seq<char>) -> Seq<char>
    decreases s.len(),
{
    if s.len() > 0 && (s.last() == '\r' || s.last() == '\n') {
        trim_line_end(s.drop_last())
    } else {
        s
    }
}

pub open spec fn has_prefix(s: Seq<char>, p: Seq<char>) -> bool {
    p.len() <= s.len() && s.subrange(0, p.len() as int) == p
}

/// A line printed by the remote bootstrap before the server takes over.
#[derive(Debug, Clone, PartialEq, Eq)]
pub enum BootstrapLine {
    /// The server is ready: protocol bytes may flow.
    Ready,
    /// The server must be installed; the user is asked first.
    InstallRequired,
    /// `OBI-ERROR message`.
    RemoteError(String),
    /// Another `OBI-` marker, which the client does not expect.
    UnexpectedMarker(String),
    /// Anything else (motd or rc-file noise), which is skipped.
    Noise,
}

fn has_prefix_chars(s: &Vec<char>, len: usize, p: &Vec<char>) -> (r: bool)
    requires
        len <= s@.len(),
    ensures
        r == has_prefix(s@.subrange(0, len as int), p@),
{
    let m = p.len();
    if m > len {
        return false;
    }
    let mut i: usize = 0;
    while i < m
        invariant
            i <= m,
            m <= len,
            len <= s@.len(),
            m == p@.len(),
            forall|j: int| 0 <= j < i ==> s@[j] == p@[j],
        decreases m - i,
    {
        if s[i] != p[i] {
            proof {
                assert(s@.subrange(0, len as int).subrange(0, m as int)[i as int] != p@[i as int]);
            }
            return false;
        }
        i = i + 1;
    }
    proof {
        assert(s@.subrange(0, len as int).subrange(0, m as int) =~= p@);
    }
    true
}

/// Classifies one bootstrap output line (trailing `\r` and `\n` ignored).
pub fn classify_bootstrap_line(line: &str) -> (r: BootstrapLine)
    ensures
        ({
            let t = trim_line_end(line@);
            if t == READY_MARKER@ {
                r == BootstrapLine::Ready
            } else if t == INSTALL_REQUIRED_MARKER@ {
                r == BootstrapLine::InstallRequired
            } else if has_prefix(t, "OBI-ERROR "@) {
                &&& r matches BootstrapLine::RemoteError(m)
                &&& m@ == t.skip("OBI-ERROR "@.len() as int)
            } else if has_prefix(t, "OBI-"@) {
                &&& r matches BootstrapLine::UnexpectedMarker(m)
                &&& m@ == t
            } else {
                r == BootstrapLine::Noise
            }
        }),
{
    let cs = chars_of(line);
    let mut len = cs.len();
    proof {
        assert(cs@.subrange(0, len as int) =~= cs@);
    }
    while len > 0 && (cs[len - 1] == '\r' || cs[len - 1] == '\n')
        invariant
            len <= cs@.len(),
            trim_line_end(cs@) == trim_line_end(cs@.subrange(0, len as int)),
        decreases len,
    {
        proof {
            assert(cs@.subrange(0, len as int).drop_last() =~= cs@.subrange(0, len - 1));
        }
        len = len - 1;
    }
    let ghost t = cs@.subrange(0, len as int);
    proof {
        assert(t == trim_line_end(line@));
    }
    if chars_equal(&cs, 0, len, READY_MARKER) {
        return BootstrapLine::Ready;
    }
    if chars_equal(&cs, 0, len, INSTALL_REQUIRED_MARKER) {
        return BootstrapLine::InstallRequired;
    }
    let error_prefix = chars_of("OBI-ERROR ");
    if has_prefix_chars(&cs, len, &error_prefix) {
        let message = string_from_chars(&cs, error_prefix.len(), len);
        proof {
            assert(message@ =~= t.skip("OBI-ERROR "@.len() as int));
        }
        return BootstrapLine::RemoteError(message);
    }
    let marker_prefix = chars_of("OBI-");
    if has_prefix_chars(&cs, len, &marker_prefix) {
        let whole = string_from_chars(&cs, 0, len);
        return BootstrapLine::UnexpectedMarker(whole);
    }
    BootstrapLine::Noise
}

/// Reads one bootstrap line: the bytes up to and including the next newline
/// (or to the end of the stream), decoded leniently; `None` at the end of the
/// stream.
pub fn read_line_lossy(reader: &mut ByteCursor) -> (r: Option<String>)
    ensures
        old(reader)@.len() == 0 ==> r is None && final(reader)@ == old(reader)@,
        old(reader)@.len() > 0 ==> {
            &&& r matches Some(line)
            &&& line@ == lossy_utf8(old(reader)@.subrange(0, line_end(old(reader)@) as int))
            &&& final(reader)@ == old(reader)@.skip(line_end(old(reader)@) as int)
        },
{
    if reader.remaining_len() == 0 {
        return None;
    }
    let bytes = reader.take_line();
    Some(lossy_string(bytes.as_slice()))
}

/// The answers that accept the installation, once trimmed.
pub open spec fn accepts_install(t: Seq<char>) -> bool {
    t == ""@ || t == "y"@ || t == "Y"@ || t == "yes"@ || t == "YES"@ || t == "Yes"@
}

fn chars_equal(s: &Vec<char>, from: usize, to: usize, p: &str) -> (r: bool)
    requires
        from <= to <= s@.len(),
    ensures
        r == (s@.subrange(from as int, to as int) == p@),
{
    let pc = chars_of(p);
    if to - from != pc.len() {
        return false;
    }
    let m = pc.len();
    let mut i: usize = 0;
    while i < m
        invariant
            i <= m,
            m == pc@.len(),
            from + m == to,
            to <= s@.len(),
            pc@ == p@,
            forall|j: int| 0 <= j < i ==> s@[from + j] == pc@[j],
        decreases m - i,
    {
        if s[from + i] != pc[i] {
            proof {
                assert(s@.subrange(from as int, to as int)[i as int] != p@[i as int]);
            }
            return false;
        }
        i = i + 1;
    }
    proof {
        assert(s@.subrange(from as int, to as int) =~= p@);
    }
    true
}

/// Whether the user's answer to the install question accepts it: empty,
/// `y` or `yes` (in the usual capitalisations), ignoring surrounding white space.
pub fn install_answer_accepts(answer: &str) -> (r: bool)
    ensures
        r == accepts_install(trim_spec(answer@)),
{
    let cs = chars_of(answer);
    let (a, b) = trim_bounds(&cs);
    chars_equal(&cs, a, b, "") || chars_equal(&cs, a, b, "y") || chars_equal(&cs, a, b, "Y")
        || chars_equal(&cs, a, b, "yes") || chars_equal(&cs, a, b, "YES") || chars_equal(
        &cs,
        a,
        b,
        "Yes",
    )
}

/// Whether `t` is a number from 1 to `total`.
pub open spec fn prompt_number_in_range(t: Seq<char>, total: nat) -> bool {
    parse_usize_spec(t) is Some && 1 <= parse_usize_spec(t)->0 <= total
}

/// What the user picked at the interactive prompt.
#[derive(Debug, Clone, PartialEq, Eq)]
pub enum PromptSelection {
    NewSession,
    Attach(String),
}

/// Resolves the answer typed at the picker prompt: `n` asks for a new
/// session; a number `k` picks the free session shown as `k`. Anything else,
/// `0`, or a number above the count of free sessions is refused with the
/// trimmed answer.
pub fn resolve_prompt_answer(sessions: &[SessionInfo], answer: &str) -> (r: Result<
    PromptSelection,
    String,
>)
    ensures
        ({
            let t = trim_spec(answer@);
            let total = free_count(sessions@, sessions@.len() as int);
            &&& t == "n"@ ==> r == Ok::<PromptSelection, String>(PromptSelection::NewSession)
            &&& t != "n"@ && prompt_number_in_range(t, total) ==> {
                &&& r matches Ok(PromptSelection::Attach(id))
                &&& exists|i: int|
                    0 <= i < sessions@.len() && sessions@[i].state == SessionState::Free
                        && free_count(sessions@, i) + 1 == parse_usize_spec(t)->0
                        && #[trigger] sessions@[i].id@ == id@
            }
            &&& t != "n"@ && !prompt_number_in_range(t, total) ==> {
                &&& r matches Err(m)
                &&& m@ == t
            }
        }),
{
    let cs = chars_of(answer);
    let (a, b) = trim_bounds(&cs);
    let ghost t = trim_spec(answer@);
    let ghost total = free_count(sessions@, sessions@.len() as int);
    if chars_equal(&cs, a, b, "n") {
        return Ok(PromptSelection::NewSession);
    }
    let trimmed = string_from_chars(&cs, a, b);
    let tc = chars_of(trimmed.as_str());
    let parsed = parse_usize_chars(&tc);
    let k = match parsed {
        Some(k) => k,
        None => {
            return Err(trimmed);
        },
    };
    proof {
        assert(trimmed@ == t);
        assert(tc@ == t);
        assert(parse_usize_spec(t) == Some(k as nat));
    }
    if k == 0 {
        return Err(trimmed);
    }
    match free_session_numbered(sessions, k) {
        Some(i) => {
            let id = sessions[i].id.as_str().to_owned();
            proof {
                assert(sessions@[i as int].id@ == id@);
                assert(sessions@[i as int].state == SessionState::Free && free_count(
                    sessions@,
                    i as int,
                ) + 1 == parse_usize_spec(t)->0);
                lemma_free_count_monotone(sessions@, i + 1, sessions@.len() as int);
                assert(prompt_number_in_range(t, total));
            }
            Ok(PromptSelection::Attach(id))
        },
        None => Err(trimmed),
    }
}

/// The position of the free session that the picker numbers `k`, if any.
pub fn free_session_numbered(sessions: &[SessionInfo], k: usize) -> (r: Option<usize>)
    requires
        k >= 1,
    ensures
        r matches Some(i) ==> i < sessions@.len() && sessions@[i as int].state
            == SessionState::Free && free_count(sessions@, i as int) + 1 == k,
        r is None ==> k > free_count(sessions@, sessions@.len() as int),
{
    let n = sessions.len();
    let mut i: usize = 0;
    let mut seen: usize = 0;
    while i < n
        invariant
            i <= n,
            n == sessions@.len(),
            seen == free_count(sessions@, i as int),
            seen <= i,
            seen < k,
        decreases n - i,
    {
        if sessions[i].is_selectable() {
            if seen + 1 == k {
                return Some(i);
            }
            seen = seen + 1;
        }
        i = i + 1;
    }
    None
}

} // verus!
