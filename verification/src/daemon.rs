use vstd::prelude::*;

use std::collections::VecDeque;

use crate::protocol::{MessageType, SessionRecord, message_type_name};
use crate::session::SessionId;
use crate::text::{chars_of, string_from_chars};

verus! {

/// Default size of the replay ring: 64 KiB.
pub const DEFAULT_REPLAY_CAPACITY: usize = 65536;

/// The last `n` elements of `s`, or all of `s` when it is shorter.
pub open spec fn keep_last<A>(s: Seq<A>, n: nat) -> Seq<A> {
    if s.len() <= n {
        s
    } else {
        s.skip(s.len() - n)
    }
}

/// Capacity and current contents (oldest first) of a replay buffer.
pub struct ReplayView {
    pub capacity: nat,
    pub contents: Seq<u8>,
}

/// Bounded buffer of the most recent PTY output, replayed to a reattaching broker.
#[derive(Debug, PartialEq, Eq)]
pub struct ReplayBuffer {
    capacity: usize,
    bytes: VecDeque<u8>,
}

#[derive(Debug, Clone, Copy, PartialEq, Eq, Structural)]
pub enum ReplayBufferError {
    ZeroCapacity,
}

impl View for ReplayBuffer {
    type V = ReplayView;

    closed spec fn view(&self) -> ReplayView {
        ReplayView { capacity: self.capacity as nat, contents: self.bytes@ }
    }
}

impl ReplayBuffer {
    #[verifier::type_invariant]
    spec fn within_capacity(self) -> bool {
        self.capacity > 0 && self.bytes@.len() <= self.capacity
    }

    /// A buffer that keeps at most `capacity` bytes; a zero capacity is refused.
    pub fn new(capacity: usize) -> (r: Result<ReplayBuffer, ReplayBufferError>)
        ensures
            capacity == 0 <==> r is Err,
            r matches Err(e) ==> e == ReplayBufferError::ZeroCapacity,
            r matches Ok(b) ==> b@.capacity == capacity && b@.contents.len() == 0,
    {
        if capacity == 0 {
            return Err(ReplayBufferError::ZeroCapacity);
        }
        Ok(ReplayBuffer { capacity, bytes: VecDeque::with_capacity(capacity) })
    }

    /// An empty buffer of the default capacity.
    pub fn default_capacity() -> (r: ReplayBuffer)
        ensures
            r@.capacity == DEFAULT_REPLAY_CAPACITY,
            r@.contents.len() == 0,
    {
        ReplayBuffer {
            capacity: DEFAULT_REPLAY_CAPACITY,
            bytes: VecDeque::with_capacity(DEFAULT_REPLAY_CAPACITY),
        }
    }

    pub fn capacity(&self) -> (r: usize)
        ensures
            r == self@.capacity,
            r > 0,
    {
        proof {
            use_type_invariant(self);
        }
        self.capacity
    }

    pub fn len(&self) -> (r: usize)
        ensures
            r == self@.contents.len(),
            r <= self@.capacity,
    {
        proof {
            use_type_invariant(self);
        }
        self.bytes.len()
    }

    pub fn is_empty(&self) -> (r: bool)
        ensures
            r == (self@.contents.len() == 0),
    {
        self.bytes.len() == 0
    }

    /// Records `data`; when the buffer would exceed its capacity the oldest
    /// bytes are evicted, so it holds the last `capacity` bytes of its old
    /// contents followed by `data`.
    pub fn append(&mut self, data: &[u8])
        ensures
            final(self)@.capacity == old(self)@.capacity,
            final(self)@.contents == keep_last(old(self)@.contents + data@, old(self)@.capacity),
    {
        proof {
            use_type_invariant(&*self);
        }
        let ghost joined = self.bytes@ + data@;
        let cap = self.capacity;
        let mut bytes: VecDeque<u8> = VecDeque::new();
        std::mem::swap(&mut bytes, &mut self.bytes);
        let ghost old_bytes = bytes@;
        let dlen = data.len();
        if dlen >= cap {
            bytes.clear();
            let start = dlen - cap;
            let mut i: usize = start;
            while i < dlen
                invariant
                    start <= i <= dlen,
                    dlen == data@.len(),
                    bytes@ == data@.subrange(start as int, i as int),
                decreases dlen - i,
            {
                bytes.push_back(data[i]);
                i = i + 1;
                proof {
                    assert(bytes@ =~= data@.subrange(start as int, i as int));
                }
            }
            proof {
                assert(bytes@ =~= keep_last(joined, cap as nat));
            }
            self.bytes = bytes;
            return;
        }
        let len = bytes.len();
        let overflow: usize = if dlen > cap - len {
            dlen - (cap - len)
        } else {
            0
        };
        let mut k: usize = 0;
        while k < overflow
            invariant
                k <= overflow <= len,
                len == old_bytes.len(),
                bytes@ == old_bytes.subrange(k as int, len as int),
            decreases overflow - k,
        {
            bytes.pop_front();
            k = k + 1;
            proof {
                assert(bytes@ =~= old_bytes.subrange(k as int, len as int));
            }
        }
        let mut j: usize = 0;
        while j < dlen
            invariant
                j <= dlen,
                dlen == data@.len(),
                overflow <= len,
                len == old_bytes.len(),
                bytes@ == old_bytes.subrange(overflow as int, len as int) + data@.subrange(
                    0,
                    j as int,
                ),
            decreases dlen - j,
        {
            bytes.push_back(data[j]);
            j = j + 1;
            proof {
                assert(bytes@ =~= old_bytes.subrange(overflow as int, len as int) + data@.subrange(
                    0,
                    j as int,
                ));
            }
        }
        proof {
            assert(bytes@ =~= keep_last(joined, cap as nat));
        }
        self.bytes = bytes;
    }

    /// The current contents, oldest byte first.
    pub fn snapshot(&self) -> (r: Vec<u8>)
        ensures
            r@ == self@.contents,
    {
        let n = self.bytes.len();
        let mut out: Vec<u8> = Vec::with_capacity(n);
        let mut i: usize = 0;
        while i < n
            invariant
                i <= n,
                n == self.bytes@.len(),
                out@ == self.bytes@.subrange(0, i as int),
            decreases n - i,
        {
            out.push(self.bytes[i]);
            i = i + 1;
            proof {
                assert(out@ =~= self.bytes@.subrange(0, i as int));
            }
        }
        proof {
            assert(out@ =~= self.bytes@);
        }
        out
    }

    pub fn clear(&mut self)
        ensures
            final(self)@.capacity == old(self)@.capacity,
            final(self)@.contents.len() == 0,
    {
        proof {
            use_type_invariant(&*self);
        }
        self.bytes = VecDeque::new();
    }
}

impl Clone for ReplayBuffer {
    fn clone(&self) -> (r: ReplayBuffer)
        ensures
            r@ == self@,
    {
        proof {
            use_type_invariant(self);
        }
        let bytes = self.bytes.clone();
        proof {
            assert(bytes@ =~= self.bytes@);
        }
        ReplayBuffer { capacity: self.capacity, bytes }
    }
}

impl Default for ReplayBuffer {
    fn default() -> (r: ReplayBuffer)
        ensures
            r@.capacity == DEFAULT_REPLAY_CAPACITY,
            r@.contents.len() == 0,
    {
        ReplayBuffer::default_capacity()
    }
}

/// Appending in two steps keeps the same bytes as appending the
/// concatenation at once: the buffer always holds the last `capacity` bytes
/// of everything ever written to it.
pub proof fn lemma_append_in_pieces(history: Seq<u8>, next: Seq<u8>, capacity: nat)
    requires
        capacity > 0,
    ensures
        keep_last(keep_last(history, capacity) + next, capacity) == keep_last(
            history + next,
            capacity,
        ),
{
    let h = keep_last(history, capacity);
    let all = history + next;
    if history.len() <= capacity {
        assert(h == history);
    } else {
        let a = h + next;
        if a.len() <= capacity {
            assert(next.len() == 0);
            assert(a =~= keep_last(all, capacity));
        } else {
            assert(keep_last(a, capacity) =~= keep_last(all, capacity));
        }
    }
}

/// The buffer never holds more than its capacity, and everything it holds is
/// the tail of what was written: it is a suffix of the history.
pub proof fn lemma_keep_last_is_bounded_suffix(history: Seq<u8>, capacity: nat)
    ensures
        keep_last(history, capacity).len() <= capacity,
        keep_last(history, capacity) == history.skip(
            history.len() - keep_last(history, capacity).len(),
        ),
{
    if history.len() <= capacity {
        assert(history.skip(0) =~= history);
    }
}

/// The abstract state of a session daemon.
pub struct DaemonView {
    pub session_id: Seq<char>,
    pub init_time: u64,
    pub last_detach_time: Option<u64>,
    pub current_command: Seq<char>,
    pub replay: ReplayView,
    /// The token of the attached broker, if one is attached.
    pub broker: Option<u64>,
    /// The token handed to the most recent attach.
    pub attach_token: u64,
    pub shutdown: bool,
}

/// The session state that a daemon keeps beside its PTY and its sockets: at
/// most one attached broker, identified by the token of its attach, the replay
/// ring, and the times shown in listings (milliseconds after the Unix epoch).
#[derive(Debug)]
pub struct DaemonState {
    session_id: SessionId,
    init_time: u64,
    last_detach_time: Option<u64>,
    current_command: String,
    replay: ReplayBuffer,
    broker: Option<u64>,
    attach_token: u64,
    shutdown: bool,
}

impl View for DaemonState {
    type V = DaemonView;

    closed spec fn view(&self) -> DaemonView {
        DaemonView {
            session_id: self.session_id@,
            init_time: self.init_time,
            last_detach_time: self.last_detach_time,
            current_command: self.current_command@,
            replay: self.replay@,
            broker: self.broker,
            attach_token: self.attach_token,
            shutdown: self.shutdown,
        }
    }
}

/// The token after `t`, wrapping at the top of the `u64` range.
pub open spec fn next_token(t: u64) -> u64 {
    if t < u64::MAX {
        (t + 1) as u64
    } else {
        0
    }
}

/// The state after the attached broker (if any) is let go at time `now`.
pub open spec fn after_detach(v: DaemonView, now: u64) -> DaemonView {
    DaemonView { last_detach_time: Some(now), broker: None, ..v }
}

/// The state after a broker is attached to a free session.
pub open spec fn after_attach(v: DaemonView) -> DaemonView {
    DaemonView {
        broker: Some(next_token(v.attach_token)),
        attach_token: next_token(v.attach_token),
        ..v
    }
}

/// The state after the broker of `token` ends at time `now`: it is let go
/// only if it is still the attached one.
pub open spec fn after_broker_finished(v: DaemonView, token: u64, now: u64) -> DaemonView {
    if v.broker == Some(token) {
        after_detach(v, now)
    } else {
        v
    }
}

/// The state after the PTY produced `data`.
pub open spec fn after_output(v: DaemonView, data: Seq<u8>) -> DaemonView {
    DaemonView {
        replay: ReplayView {
            capacity: v.replay.capacity,
            contents: keep_last(v.replay.contents + data, v.replay.capacity),
        },
        ..v
    }
}

/// The answer to a broker's attach request.
#[derive(Debug)]
pub enum AttachDecision {
    /// Another broker is attached: the requester gets `SessionBusy` and is closed.
    Busy { session_id: String },
    /// The requester is now the attached broker; `replay` is sent to it first.
    Attached { token: u64, replay: Vec<u8> },
}

/// What the daemon does with the first request on a new connection.
#[derive(Debug)]
pub enum DaemonReply {
    /// Answer a `DaemonInfoRequest` with this record.
    Info(SessionRecord),
    /// A `Detach` request: the attached broker, if any, is told `ClientShouldExit`.
    Detached { notify: Option<u64> },
    /// An attach request (`BrokerAttach` or `AttachSession`).
    Attach(AttachDecision),
    /// A message type that the protocol does not know: skipped, and the
    /// next frame is read.
    Skip,
    /// Any other message type closes the connection with an error.
    Unexpected(u8),
}

/// What the daemon does with a frame from its attached broker.
#[derive(Debug, Clone, Copy, PartialEq, Eq, Structural)]
pub enum BrokerFrameAction {
    /// `PtyData`: write the bytes to the PTY.
    WritePty,
    /// `WindowSize`: resize the PTY.
    Resize,
    /// `Detach`: the broker leaves.
    Detach,
    /// A message type that the protocol does not know: skipped.
    Skip,
    /// Any other message type ends the broker's connection with an error.
    Unexpected(u8),
}

/// Classifies a frame from the attached broker by its type.
pub fn broker_frame_action(msg_type: MessageType) -> (r: BrokerFrameAction)
    ensures
        r == (if msg_type.0 == 12 {
            BrokerFrameAction::WritePty
        } else if msg_type.0 == 13 {
            BrokerFrameAction::Resize
        } else if msg_type.0 == 9 {
            BrokerFrameAction::Detach
        } else if message_type_name(msg_type.0) is None {
            BrokerFrameAction::Skip
        } else {
            BrokerFrameAction::Unexpected(msg_type.0)
        }),
{
    let t = msg_type.get();
    if t == 12 {
        BrokerFrameAction::WritePty
    } else if t == 13 {
        BrokerFrameAction::Resize
    } else if t == 9 {
        BrokerFrameAction::Detach
    } else if !msg_type.is_known() {
        BrokerFrameAction::Skip
    } else {
        BrokerFrameAction::Unexpected(t)
    }
}

impl DaemonState {
    pub fn new(session_id: SessionId, init_time: u64, current_command: String) -> (r: DaemonState)
        ensures
            r@.session_id == session_id@,
            r@.init_time == init_time,
            r@.last_detach_time is None,
            r@.current_command == current_command@,
            r@.replay.capacity == DEFAULT_REPLAY_CAPACITY,
            r@.replay.contents.len() == 0,
            r@.broker is None,
            r@.attach_token == 0,
            !r@.shutdown,
    {
        DaemonState {
            session_id,
            init_time,
            last_detach_time: None,
            current_command,
            replay: ReplayBuffer::default_capacity(),
            broker: None,
            attach_token: 0,
            shutdown: false,
        }
    }

    /// The listing record of the session; it is marked attached exactly when
    /// a broker is attached.
    pub fn record(&self) -> (r: SessionRecord)
        ensures
            r.session_id@ == self@.session_id,
            r.init_time == self@.init_time,
            r.last_detach_time == self@.last_detach_time,
            r.current_command@ == self@.current_command,
            r.attached == (self@.broker is Some),
    {
        SessionRecord {
            session_id: self.session_id.as_str().to_owned(),
            init_time: self.init_time,
            last_detach_time: self.last_detach_time,
            current_command: self.current_command.clone(),
            attached: self.broker.is_some(),
        }
    }

    pub fn next_attach_token(&mut self) -> (r: u64)
        ensures
            r == next_token(old(self)@.attach_token),
            final(self)@ == (DaemonView { attach_token: r, ..old(self)@ }),
    {
        self.attach_token = self.attach_token.wrapping_add(1);
        self.attach_token
    }

    /// Lets the attached broker go, recording `now` as the last detach time;
    /// returns the token of the broker that was attached.
    pub fn detach_current(&mut self, now: u64) -> (r: Option<u64>)
        ensures
            r == old(self)@.broker,
            final(self)@ == after_detach(old(self)@, now),
    {
        self.last_detach_time = Some(now);
        let previous = self.broker;
        self.broker = None;
        previous
    }

    /// Arbitrates an attach request: refused while a broker is attached,
    /// otherwise the requester becomes the attached broker under a fresh
    /// token and is handed the replay ring's contents.
    pub fn attach(&mut self) -> (r: AttachDecision)
        ensures
            old(self)@.broker is Some ==> {
                &&& final(self)@ == old(self)@
                &&& r matches AttachDecision::Busy { session_id }
                &&& session_id@ == old(self)@.session_id
            },
            old(self)@.broker is None ==> {
                &&& final(self)@ == after_attach(old(self)@)
                &&& r matches AttachDecision::Attached { token, replay }
                &&& token == next_token(old(self)@.attach_token)
                &&& replay@ == old(self)@.replay.contents
            },
    {
        if self.broker.is_some() {
            return AttachDecision::Busy { session_id: self.session_id.as_str().to_owned() };
        }
        let token = self.next_attach_token();
        let replay = self.replay.snapshot();
        self.broker = Some(token);
        AttachDecision::Attached { token, replay }
    }

    /// The broker of `token` has gone away at `now` (end of stream or a
    /// `Detach` on its own connection).
    pub fn broker_finished(&mut self, token: u64, now: u64)
        ensures
            final(self)@ == after_broker_finished(old(self)@, token, now),
    {
        if self.broker == Some(token) {
            self.detach_current(now);
        }
    }

    /// Records PTY output in the replay ring, whether or not a broker is
    /// attached, and returns the broker to forward it to.
    pub fn record_output(&mut self, data: &[u8]) -> (r: Option<u64>)
        ensures
            r == old(self)@.broker,
            final(self)@ == after_output(old(self)@, data@),
    {
        self.replay.append(data);
        self.broker
    }

    /// The shell has exited: the daemon shuts down; returns the broker that
    /// should receive the exit status.
    pub fn child_exited(&mut self) -> (r: Option<u64>)
        ensures
            r == old(self)@.broker,
            final(self)@ == (DaemonView { shutdown: true, ..old(self)@ }),
    {
        self.shutdown = true;
        self.broker
    }

    /// The token of the attached broker, if one is attached.
    pub fn attached_broker(&self) -> (r: Option<u64>)
        ensures
            r == self@.broker,
    {
        self.broker
    }

    pub fn is_shutdown(&self) -> (r: bool)
        ensures
            r == self@.shutdown,
    {
        self.shutdown
    }

    /// Decides the first request on a daemon connection. Info and detach
    /// requests are served whether or not a broker is attached; only attach
    /// requests are arbitrated; message types the protocol does not know are
    /// skipped.
    pub fn handle_request(&mut self, msg_type: MessageType, now: u64) -> (r: DaemonReply)
        ensures
            msg_type.0 == 7 ==> {
                &&& final(self)@ == old(self)@
                &&& r matches DaemonReply::Info(rec)
                &&& rec.attached == (old(self)@.broker is Some)
                &&& rec.session_id@ == old(self)@.session_id
                &&& rec.init_time == old(self)@.init_time
                &&& rec.last_detach_time == old(self)@.last_detach_time
                &&& rec.current_command@ == old(self)@.current_command
            },
            msg_type.0 == 9 ==> {
                &&& final(self)@ == after_detach(old(self)@, now)
                &&& r matches DaemonReply::Detached { notify }
                &&& notify == old(self)@.broker
            },
            (msg_type.0 == 6 || msg_type.0 == 5) && old(self)@.broker is Some ==> {
                &&& final(self)@ == old(self)@
                &&& r matches DaemonReply::Attach(d)
                &&& d matches AttachDecision::Busy { session_id }
                &&& session_id@ == old(self)@.session_id
            },
            (msg_type.0 == 6 || msg_type.0 == 5) && old(self)@.broker is None ==> {
                &&& final(self)@ == after_attach(old(self)@)
                &&& r matches DaemonReply::Attach(d)
                &&& d matches AttachDecision::Attached { token, replay }
                &&& token == next_token(old(self)@.attach_token)
                &&& replay@ == old(self)@.replay.contents
            },
            message_type_name(msg_type.0) is None ==> final(self)@ == old(self)@ && r is Skip,
            !(msg_type.0 == 7 || msg_type.0 == 9 || msg_type.0 == 6 || msg_type.0 == 5)
                && message_type_name(msg_type.0) is Some ==> {
                &&& final(self)@ == old(self)@
                &&& r matches DaemonReply::Unexpected(t)
                &&& t == msg_type.0
            },
    {
        let t = msg_type.get();
        if t == 7 {
            return DaemonReply::Info(self.record());
        }
        if t == 9 {
            let notify = self.detach_current(now);
            return DaemonReply::Detached { notify };
        }
        if t == 6 || t == 5 {
            return DaemonReply::Attach(self.attach());
        }
        if !msg_type.is_known() {
            return DaemonReply::Skip;
        }
        DaemonReply::Unexpected(t)
    }
}

/// Attach arbitration: once a broker is attached, every further attach is
/// refused and leaves the session as it was, until that broker is let go.
pub proof fn lemma_single_broker(v: DaemonView)
    requires
        v.broker is None,
    ensures
        after_attach(v).broker is Some,
        after_attach(v).broker == Some(after_attach(v).attach_token),
        after_detach(after_attach(v), 0).broker is None,
{
}

/// A broker that ends after it was replaced does not detach its successor:
/// attach A, detach, attach B, then A's connection closes, and B is still
/// attached. Holds while the token counter does not wrap around.
pub proof fn lemma_stale_broker_does_not_detach_successor(
    v: DaemonView,
    detach_time: u64,
    finish_time: u64,
)
    requires
        v.broker is None,
        v.attach_token < u64::MAX - 1,
    ensures
        ({
            let a = after_attach(v);
            let token_a = a.broker->0;
            let b = after_attach(after_detach(a, detach_time));
            let token_b = b.broker->0;
            &&& token_a != token_b
            &&& after_broker_finished(b, token_a, finish_time) == b
            &&& after_broker_finished(b, token_b, finish_time).broker is None
            &&& after_broker_finished(b, token_b, finish_time).last_detach_time == Some(
                finish_time,
            )
        }),
{
}

/// Output is kept while no broker is attached, and a broker that attaches
/// afterwards is replayed the ring as it stands: the last `capacity` bytes
/// of the output.
pub proof fn lemma_detached_output_is_replayed(v: DaemonView, data: Seq<u8>)
    requires
        v.broker is None,
        v.replay.capacity > 0,
    ensures
        after_attach(after_output(v, data)).replay.contents == keep_last(
            v.replay.contents + data,
            v.replay.capacity,
        ),
        after_attach(after_output(v, data)).broker is Some,
{
}

/// Every byte the PTY produces goes into the ring, whether or not a broker is
/// attached: the ring then holds as many bytes as its capacity allows of its
/// old contents followed by `data`, those bytes are the tail of that
/// concatenation, the ring ends with `data` whenever `data` fits in it, and
/// nothing else about the session changes.
pub proof fn lemma_output_always_recorded(v: DaemonView, data: Seq<u8>)
    ensures
        ({
            let all = v.replay.contents + data;
            let cap = v.replay.capacity;
            let w = after_output(v, data);
            let r = w.replay.contents;
            &&& w.replay.capacity == cap
            &&& r.len() == (if all.len() <= cap {
                all.len()
            } else {
                cap
            })
            &&& r == all.subrange(all.len() - r.len(), all.len() as int)
            &&& data.len() <= cap ==> r.subrange(r.len() - data.len(), r.len() as int) == data
            &&& (DaemonView { replay: v.replay, ..w }) == v
        }),
{
    let all = v.replay.contents + data;
    let cap = v.replay.capacity;
    let r = after_output(v, data).replay.contents;
    if all.len() <= cap {
        assert(all.subrange(0, all.len() as int) =~= all);
    } else {
        assert(r =~= all.subrange(all.len() - cap, all.len() as int));
    }
    if data.len() <= cap {
        assert(r.subrange(r.len() - data.len(), r.len() as int) =~= data);
    }
}

/// Output produced while a broker is attached is replayed to the next one:
/// a broker attaches, the PTY prints `data`, the connection drops at `now`,
/// and the ring that the next attach hands over whole ends with `data`
/// (when `data` fits in the ring).
pub proof fn lemma_attached_output_is_replayed(v: DaemonView, data: Seq<u8>, now: u64)
    requires
        v.broker is None,
        data.len() <= v.replay.capacity,
    ensures
        ({
            let first = after_attach(v);
            let dropped = after_detach(after_output(first, data), now);
            let r = dropped.replay.contents;
            &&& first.broker is Some
            &&& dropped.broker is None
            &&& after_attach(dropped).broker is Some
            &&& after_attach(dropped).replay == dropped.replay
            &&& r.len() >= data.len()
            &&& r.subrange(r.len() - data.len(), r.len() as int) == data
        }),
{
    lemma_output_always_recorded(after_attach(v), data);
}

/// Position of the last `/` in `p`, or -1 when there is none.
pub open spec fn last_slash(p: Seq<char>) -> int
    decreases p.len(),
{
    if p.len() == 0 {
        -1
    } else if p.last() == '/' {
        p.len() - 1
    } else {
        last_slash(p.drop_last())
    }
}

/// The final component of `path` as `std::path::Path::file_name` finds it on
/// Unix: trailing `/` and `.` components are passed over; the result is the
/// last component when it is a normal one, and `None` when it is `..` or
/// when nothing but the root or a leading `.` is left.
pub open spec fn path_file_name(path: Seq<char>) -> Option<Seq<char>>
    decreases path.len(),
{
    if path.len() == 0 {
        None
    } else if path.last() == '/' {
        path_file_name(path.drop_last())
    } else {
        let last = path.subrange(last_slash(path) + 1, path.len() as int);
        if last == seq!['.'] {
            if last_slash(path) >= 0 {
                path_file_name(path.drop_last())
            } else {
                None
            }
        } else if last == seq!['.', '.'] {
            None
        } else {
            Some(last)
        }
    }
}

proof fn lemma_last_slash_bounds(p: Seq<char>)
    ensures
        -1 <= last_slash(p) < p.len(),
        last_slash(p) >= 0 ==> p[last_slash(p)] == '/',
    decreases p.len(),
{
    if p.len() > 0 && p.last() != '/' {
        lemma_last_slash_bounds(p.drop_last());
    }
}

/// The file name of `path`, as `std::path::Path::file_name` gives it.
#[verifier::spinoff_prover]
pub fn file_name_of(path: &str) -> (r: Option<String>)
    ensures
        match r {
            Some(s) => path_file_name(path@) == Some(s@),
            None => path_file_name(path@) is None,
        },
{
    let cs = chars_of(path);
    let mut end: usize = cs.len();
    proof {
        assert(cs@.subrange(0, end as int) =~= path@);
    }
    loop
        invariant
            end <= cs@.len(),
            path_file_name(path@) == path_file_name(cs@.subrange(0, end as int)),
        decreases end,
    {
        let ghost p = cs@.subrange(0, end as int);
        if end == 0 {
            return None;
        }
        if cs[end - 1] == '/' {
            proof {
                assert(p.drop_last() =~= cs@.subrange(0, end - 1));
            }
            end = end - 1;
            continue;
        }
        let mut k: usize = end;
        while k > 0 && cs[k - 1] != '/'
            invariant
                k <= end <= cs@.len(),
                end > 0,
                p == cs@.subrange(0, end as int),
                p.last() != '/',
                last_slash(p) == last_slash(cs@.subrange(0, k as int)),
            decreases k,
        {
            proof {
                let q = cs@.subrange(0, k as int);
                assert(q.last() == cs@[k - 1]);
                assert(q.drop_last() =~= cs@.subrange(0, k - 1));
            }
            k = k - 1;
        }
        proof {
            let q = cs@.subrange(0, k as int);
            if k > 0 {
                assert(q.last() == '/');
            }
            assert(last_slash(p) + 1 == k);
            lemma_last_slash_bounds(p);
        }
        let ghost last = p.subrange(k as int, end as int);
        let len = end - k;
        if len == 1 && cs[k] == '.' {
            proof {
                assert(last =~= seq!['.']);
            }
            if k == 0 {
                return None;
            }
            proof {
                assert(p.drop_last() =~= cs@.subrange(0, end - 1));
            }
            end = end - 1;
            continue;
        }
        proof {
            if len == 1 {
                assert(last[0] == cs@[k as int]);
                assert(last != seq!['.']);
            }
        }
        if len == 2 && cs[k] == '.' && cs[k + 1] == '.' {
            proof {
                assert(last =~= seq!['.', '.']);
            }
            return None;
        }
        proof {
            assert(last.len() == len);
            assert(seq!['.'].len() == 1);
            assert(seq!['.', '.'].len() == 2);
            if len == 2 {
                assert(last[0] == cs@[k as int] && last[1] == cs@[k + 1]);
                assert(last != seq!['.', '.']);
            }
            assert(last != seq!['.'] && last != seq!['.', '.']);
        }
        let name = string_from_chars(&cs, k, end);
        proof {
            assert(name@ =~= last);
        }
        return Some(name);
    }
}

/// The command shown for a fresh session: the shell's file name, or
/// `(unknown)` when its path has none.
pub fn shell_command_name(shell: &str) -> (r: String)
    ensures
        r@ == match path_file_name(shell@) {
            Some(n) => n,
            None => "(unknown)"@,
        },
{
    match file_name_of(shell) {
        Some(name) => name,
        None => "(unknown)".to_owned(),
    }
}

/// Milliseconds after the Unix epoch of a time given as its distance from
/// the epoch in whole seconds and nanoseconds (`None` for times before the
/// epoch, which count as 0), wrapping at 2^64 as a cast from `u128` does.
pub fn unix_time_millis(since_epoch: Option<(u64, u32)>) -> (r: u64)
    ensures
        r == match since_epoch {
            Some((secs, nanos)) => ((secs * 1000 + nanos / 1000000) % 18446744073709551616) as u64,
            None => 0,
        },
{
    match since_epoch {
        Some((secs, nanos)) => {
            let m: u128 = (secs as u128) * 1000 + ((nanos / 1000000) as u128);
            (m % 18446744073709551616u128) as u64
        },
        None => 0,
    }
}

} // verus!
