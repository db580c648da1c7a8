use vstd::prelude::*;
use vstd::string::*;
use vstd::utf8::*;

use crate::protocol::SessionRecord;
use crate::text::{decimal_text, push_decimal};

verus! {

/// Largest time, in milliseconds after the Unix epoch, that the picker can
/// render: the last millisecond of the last year that the calendar library
/// represents.
pub const MAX_DISPLAY_MILLIS: u64 = 8210266876799999;

/// Bytes allowed in a session id: lowercase base32 (`a`-`z`, `2`-`7`).
pub open spec fn is_session_id_byte(b: u8) -> bool {
    (97 <= b && b <= 122) || (50 <= b && b <= 55)
}

/// Why a candidate session id (given by its UTF-8 bytes) is refused, if it is.
pub open spec fn session_id_error(bytes: Seq<u8>) -> Option<SessionIdError> {
    if !(8 <= bytes.len() <= 10) {
        Some(SessionIdError::InvalidLength { len: bytes.len() as usize })
    } else if exists|i: int| 0 <= i < bytes.len() && !is_session_id_byte(#[trigger] bytes[i]) {
        Some(SessionIdError::InvalidCharacter)
    } else {
        None
    }
}

/// A server-generated session id: 8 to 10 lowercase base32 characters.
#[derive(Debug, PartialEq, Eq, Hash, PartialOrd, Ord)]
pub struct SessionId(String);

#[derive(Debug, Clone, PartialEq, Eq, Structural)]
pub enum SessionIdError {
    InvalidLength { len: usize },
    InvalidCharacter,
}

impl View for SessionId {
    type V = Seq<char>;

    closed spec fn view(&self) -> Seq<char> {
        self.0@
    }
}

impl SessionId {
    #[verifier::type_invariant]
    spec fn well_formed(self) -> bool {
        session_id_error(encode_utf8(self.0@)) is None
    }

    /// Accepts `value` as a session id when it has 8 to 10 bytes, all
    /// lowercase base32; the length is checked first.
    pub fn new(value: &str) -> (r: Result<SessionId, SessionIdError>)
        ensures
            r is Ok <==> session_id_error(value.spec_bytes()) is None,
            r matches Err(e) ==> Some(e) == session_id_error(value.spec_bytes()),
            r matches Ok(id) ==> id@ == value@,
    {
        let bytes = value.as_bytes();
        let len = bytes.len();
        if len < 8 || len > 10 {
            return Err(SessionIdError::InvalidLength { len });
        }
        let mut i: usize = 0;
        while i < len
            invariant
                i <= len,
                len == bytes@.len(),
                bytes@ == value.spec_bytes(),
                8 <= len <= 10,
                forall|j: int| 0 <= j < i ==> is_session_id_byte(#[trigger] bytes@[j]),
            decreases len - i,
        {
            let b = bytes[i];
            if !((b >= 97 && b <= 122) || (b >= 50 && b <= 55)) {
                proof {
                    assert(bytes@ == value.spec_bytes());
                    assert(!is_session_id_byte(bytes@[i as int]));
                    assert(8 <= value.spec_bytes().len() <= 10);
                    assert(session_id_error(value.spec_bytes()) == Some(
                        SessionIdError::InvalidCharacter,
                    ));
                }
                return Err(SessionIdError::InvalidCharacter);
            }
            i = i + 1;
        }
        let owned = value.to_owned();
        Ok(SessionId(owned))
    }

    pub fn as_str(&self) -> (r: &str)
        ensures
            r@ == self@,
            session_id_error(r.spec_bytes()) is None,
    {
        proof {
            use_type_invariant(self);
        }
        self.0.as_str()
    }
}

impl Clone for SessionId {
    fn clone(&self) -> (r: SessionId)
        ensures
            r@ == self@,
    {
        proof {
            use_type_invariant(self);
        }
        SessionId(self.0.clone())
    }
}

#[derive(Debug, Clone, Copy, PartialEq, Eq, Structural)]
pub enum SessionState {
    Free,
    Busy,
}

impl SessionState {
    pub fn is_free(self) -> (r: bool)
        ensures
            r == (self == SessionState::Free),
    {
        match self {
            SessionState::Free => true,
            SessionState::Busy => false,
        }
    }
}

/// What the picker knows of one session. Times are milliseconds after the Unix epoch.
#[derive(Debug, Clone, PartialEq, Eq)]
pub struct SessionInfo {
    pub id: SessionId,
    pub init_time: u64,
    pub last_detach_time: Option<u64>,
    pub current_command: String,
    pub state: SessionState,
}

impl SessionInfo {
    /// The picker's view of a daemon's record: its id is checked, and it is
    /// busy exactly when a broker is attached.
    pub fn from_record(record: SessionRecord) -> (r: Result<SessionInfo, SessionIdError>)
        ensures
            r is Ok <==> session_id_error(encode_utf8(record.session_id@)) is None,
            r matches Err(e) ==> Some(e) == session_id_error(encode_utf8(record.session_id@)),
            r matches Ok(info) ==> {
                &&& info.id@ == record.session_id@
                &&& info.init_time == record.init_time
                &&& info.last_detach_time == record.last_detach_time
                &&& info.current_command@ == record.current_command@
                &&& info.state == (if record.attached {
                    SessionState::Busy
                } else {
                    SessionState::Free
                })
            },
    {
        let id = SessionId::new(record.session_id.as_str())?;
        let state = if record.attached {
            SessionState::Busy
        } else {
            SessionState::Free
        };
        Ok(SessionInfo {
            id,
            init_time: record.init_time,
            last_detach_time: record.last_detach_time,
            current_command: record.current_command,
            state,
        })
    }

    /// A session can be picked when no broker is attached to it.
    pub fn is_selectable(&self) -> (r: bool)
        ensures
            r == (self.state == SessionState::Free),
    {
        self.state.is_free()
    }
}

/// Number of free sessions among the first `n` of `s`.
pub open spec fn free_count(s: Seq<SessionInfo>, n: int) -> nat
    decreases n,
{
    if n <= 0 {
        0
    } else {
        free_count(s, n - 1) + if s[n - 1].state == SessionState::Free {
            1nat
        } else {
            0nat
        }
    }
}

#[derive(Debug, Clone, PartialEq, Eq)]
pub enum AutoSelection {
    NewSession,
    Attach(SessionId),
    Prompt,
}

/// Counting free sessions over a longer prefix never gives fewer.
pub proof fn lemma_free_count_monotone(s: Seq<SessionInfo>, a: int, b: int)
    requires
        a <= b,
    ensures
        free_count(s, a) <= free_count(s, b),
    decreases b - a,
{
    if a < b {
        lemma_free_count_monotone(s, a, b - 1);
    }
}

/// The picker gives two different free sessions two different numbers: the
/// number of a free session is one more than the count of free sessions
/// before it, and that count grows past every free session.
pub proof fn lemma_picker_numbers_distinct(s: Seq<SessionInfo>, i: int, j: int)
    requires
        0 <= i < j < s.len(),
        s[i].state == SessionState::Free,
        s[j].state == SessionState::Free,
    ensures
        free_count(s, i) + 1 <= free_count(s, j),
{
    lemma_free_count_monotone(s, i + 1, j);
}

/// Every number from 1 to the count of free sessions is shown by the picker
/// for exactly one free session.
pub proof fn lemma_picker_numbers_cover(s: Seq<SessionInfo>, k: int)
    requires
        1 <= k <= free_count(s, s.len() as int),
    ensures
        exists|i: int|
            0 <= i < s.len() && s[i].state == SessionState::Free && #[trigger] free_count(s, i) + 1
                == k,
    decreases s.len(),
{
    let n = s.len() as int;
    if free_count(s, n - 1) >= k {
        let t = s.drop_last();
        assert forall|m: int| 0 <= m <= n - 1 implies free_count(t, m) == free_count(s, m) by {
            lemma_free_count_prefix(s, t, m);
        }
        lemma_picker_numbers_cover(t, k);
        let i = choose|i: int|
            0 <= i < t.len() && t[i].state == SessionState::Free && #[trigger] free_count(t, i) + 1
                == k;
        assert(s[i] == t[i]);
        assert(free_count(s, i) + 1 == k);
    } else {
        assert(s[n - 1].state == SessionState::Free);
        assert(free_count(s, n - 1) + 1 == k);
    }
}

proof fn lemma_free_count_prefix(s: Seq<SessionInfo>, t: Seq<SessionInfo>, m: int)
    requires
        t.len() <= s.len(),
        0 <= m <= t.len(),
        forall|x: int| 0 <= x < t.len() ==> t[x] == s[x],
    ensures
        free_count(t, m) == free_count(s, m),
    decreases m,
{
    if m > 0 {
        lemma_free_count_prefix(s, t, m - 1);
    }
}

/// With no free session a new one is made; with exactly one it is attached;
/// with several the user is asked.
pub fn auto_select(sessions: &[SessionInfo]) -> (r: AutoSelection)
    ensures
        r is NewSession <==> free_count(sessions@, sessions@.len() as int) == 0,
        r is Prompt <==> free_count(sessions@, sessions@.len() as int) >= 2,
        r matches AutoSelection::Attach(id) ==> free_count(sessions@, sessions@.len() as int) == 1
            && exists|i: int|
            0 <= i < sessions@.len() && sessions@[i].state == SessionState::Free && free_count(
                sessions@,
                i,
            ) == 0 && id@ == sessions@[i].id@,
{
    let n = sessions.len();
    let mut i: usize = 0;
    let mut found = false;
    while i < n && !found
        invariant
            i <= n,
            n == sessions@.len(),
            free_count(sessions@, i as int) == 0,
            found ==> i < n && sessions@[i as int].state == SessionState::Free,
        decreases (n - i) * 2 + if found {
            0int
        } else {
            1int
        },
    {
        if sessions[i].is_selectable() {
            found = true;
        } else {
            i = i + 1;
        }
    }
    if !found {
        return AutoSelection::NewSession;
    }
    let first = i;
    let mut j: usize = first + 1;
    while j < n
        invariant
            first < j <= n,
            n == sessions@.len(),
            sessions@[first as int].state == SessionState::Free,
            free_count(sessions@, first as int) == 0,
            free_count(sessions@, j as int) == 1,
        decreases n - j,
    {
        if sessions[j].is_selectable() {
            proof {
                lemma_free_count_monotone(sessions@, j + 1, n as int);
            }
            return AutoSelection::Prompt;
        }
        j = j + 1;
    }
    AutoSelection::Attach(sessions[first].id.clone())
}

/// Socket paths must be shorter than this many bytes (the BSD `sun_path`
/// limit is 104).
pub const MAX_SOCKET_PATH_LEN: usize = 100;

/// Why the daemon's socket cannot be placed.
#[derive(Debug)]
pub enum SocketPathError {
    /// The path would be `len` bytes long, not under `max`.
    TooLong { len: usize, max: usize },
    /// The per-user directory is owned by another user.
    NotOwned { owner: u32, uid: u32 },
    /// The per-user directory is open to other users (its mode bits).
    InsecurePermissions { mode: u32 },
    /// The per-user directory could not be created or inspected.
    Io(std::io::Error),
}

/// The directory of the sockets of user `uid`: `/tmp/ssh-obi-<uid>`.
pub fn socket_dir_for_uid(uid: u32) -> (r: String)
    ensures
        r@ == "/tmp/ssh-obi-"@ + decimal_text(uid as nat),
{
    let mut dir = "/tmp/ssh-obi-".to_owned();
    push_decimal(&mut dir, uid as u128);
    dir
}

/// The path of a session's socket, `<dir>/<session-id>.sock`.
pub open spec fn socket_path_text(dir: Seq<char>, session_id: Seq<char>) -> Seq<char> {
    dir + "/"@ + session_id + ".sock"@
}

/// The socket path of `session_id` in `dir`, refused when its UTF-8 form is
/// not shorter than `MAX_SOCKET_PATH_LEN` bytes.
pub fn socket_path(dir: &str, session_id: &str) -> (r: Result<String, SocketPathError>)
    ensures
        ({
            let p = socket_path_text(dir@, session_id@);
            &&& encode_utf8(p).len() < MAX_SOCKET_PATH_LEN ==> (r matches Ok(s) && s@ == p)
            &&& encode_utf8(p).len() >= MAX_SOCKET_PATH_LEN ==> (r matches Err(
                SocketPathError::TooLong { len, max },
            ) && len == encode_utf8(p).len() && max == MAX_SOCKET_PATH_LEN)
        }),
{
    let mut path = dir.to_owned();
    path.append("/");
    path.append(session_id);
    path.append(".sock");
    proof {
        assert(path@ =~= socket_path_text(dir@, session_id@));
    }
    let len = path.as_str().as_bytes().len();
    if len >= MAX_SOCKET_PATH_LEN {
        return Err(SocketPathError::TooLong { len, max: MAX_SOCKET_PATH_LEN });
    }
    Ok(path)
}

/// Checks an existing per-user socket directory: it must belong to `uid`
/// and give no access to group or others.
pub fn check_socket_dir(owner: u32, mode: u32, uid: u32) -> (r: Result<(), SocketPathError>)
    ensures
        owner != uid ==> (r matches Err(SocketPathError::NotOwned { owner: o, uid: u }) && o
            == owner && u == uid),
        owner == uid && mode & 0o077 != 0 ==> (r matches Err(
            SocketPathError::InsecurePermissions { mode: m },
        ) && m == mode),
        owner == uid && mode & 0o077 == 0 ==> r is Ok,
{
    if owner != uid {
        return Err(SocketPathError::NotOwned { owner, uid });
    }
    if mode & 0o077 != 0 {
        return Err(SocketPathError::InsecurePermissions { mode });
    }
    Ok(())
}

/// One line of the interactive picker. Only free sessions get a selector.
#[derive(Debug, Clone, PartialEq, Eq)]
pub struct PickerRow {
    pub selector: Option<usize>,
    pub session_id: SessionId,
    pub init_time: String,
    pub detach_time: String,
    pub state: SessionState,
    pub current_command: String,
}

/// The chrono format of the picker's times: `YYYY-MM-DD HH:MM`.
pub const DISPLAY_TIME_FORMAT: &'static str = "%Y-%m-%d %H:%M";

/// The text that chrono's `format` with `format` makes of the instant
/// `millis` milliseconds after the Unix epoch, seen at the fixed offset of
/// `offset_secs` seconds east of UTC.
pub uninterp spec fn chrono_time_text(millis: u64, offset_secs: i32, format: Seq<char>) -> Seq<
    char,
>;

/// The offset from UTC, in seconds east, of the machine's local time zone at
/// the instant `millis` milliseconds after the Unix epoch, from chrono's
/// `Local.offset_from_utc_datetime`. It depends on the machine's time zone,
/// so the contract states only what chrono's `FixedOffset` always holds:
/// less than a day either way. The bound on `millis` keeps the instant inside
/// the range of dates that chrono represents, beyond which it panics.
#[verifier::external_body]
fn local_offset_secs(millis: u64) -> (r: i32)
    requires
        millis <= MAX_DISPLAY_MILLIS,
    ensures
        -86400 < r < 86400,
{
    let time = std::time::UNIX_EPOCH + std::time::Duration::from_millis(millis);
    let utc: chrono::DateTime<chrono::Utc> = time.into();
    let offset = chrono::TimeZone::offset_from_utc_datetime(&chrono::Local, &utc.naive_utc());
    chrono::Offset::fix(&offset).local_minus_utc()
}

/// Formats the instant `millis` milliseconds after the Unix epoch, seen at
/// the fixed offset `offset_secs`, with chrono's `FixedOffset::east_opt`,
/// `with_timezone` and `format`. The contract claims that the text is the
/// named result and, for the picker's format (a year of at least four
/// digits, signed above 9999, then `-MM-DD HH:MM`), at least 16 characters.
#[verifier::external_body]
fn format_at_offset(millis: u64, offset_secs: i32, format: &str) -> (r: String)
    requires
        millis <= MAX_DISPLAY_MILLIS,
        -86400 < offset_secs < 86400,
        format@ == DISPLAY_TIME_FORMAT@,
    ensures
        r@ == chrono_time_text(millis, offset_secs, format@),
        r@.len() >= 16,
{
    let time = std::time::UNIX_EPOCH + std::time::Duration::from_millis(millis);
    let utc: chrono::DateTime<chrono::Utc> = time.into();
    match chrono::FixedOffset::east_opt(offset_secs) {
        Some(offset) => utc.with_timezone(&offset).format(format).to_string(),
        None => String::new(),
    }
}

/// Whether `text` renders the instant `millis` in the picker's format at
/// some offset from UTC (the local one, which depends on the machine).
pub open spec fn renders_time(text: Seq<char>, millis: u64) -> bool {
    exists|o: i32| -86400 < o < 86400 && text == #[trigger] chrono_time_text(millis, o, DISPLAY_TIME_FORMAT@)
}

/// Renders a time, in milliseconds after the Unix epoch, as `YYYY-MM-DD
/// HH:MM` at the local offset of that instant.
fn display_time(millis: u64) -> (r: String)
    requires
        millis <= MAX_DISPLAY_MILLIS,
    ensures
        renders_time(r@, millis),
        r@.len() >= 16,
{
    let offset = local_offset_secs(millis);
    format_at_offset(millis, offset, DISPLAY_TIME_FORMAT)
}

/// Builds the picker row of `session` from its selector and its rendered
/// times; a session that never detached shows `-` as its detach time.
pub fn picker_row(
    session: &SessionInfo,
    selector: Option<usize>,
    init_time: String,
    detach_time: Option<String>,
) -> (r: PickerRow)
    ensures
        r.selector == selector,
        r.session_id@ == session.id@,
        r.init_time@ == init_time@,
        r.detach_time@ == match detach_time {
            Some(t) => t@,
            None => "-"@,
        },
        r.state == session.state,
        r.current_command@ == session.current_command@,
{
    let detach = match detach_time {
        Some(t) => t,
        None => "-".to_owned(),
    };
    PickerRow {
        selector,
        session_id: session.id.clone(),
        init_time,
        detach_time: detach,
        state: session.state,
        current_command: session.current_command.clone(),
    }
}

/// The picker rows of `sessions`, in order. Free sessions are numbered 1, 2,
/// ... in the order they appear; busy sessions get no number. The detach
/// time reads `-` exactly for a session that never detached; the times shown
/// are each session's own, rendered as `YYYY-MM-DD HH:MM` at the local
/// offset of their instant.
pub fn picker_rows(sessions: &[SessionInfo]) -> (r: Vec<PickerRow>)
    requires
        forall|i: int|
            0 <= i < sessions@.len() ==> #[trigger] sessions@[i].init_time <= MAX_DISPLAY_MILLIS
                && match sessions@[i].last_detach_time {
                Some(t) => t <= MAX_DISPLAY_MILLIS,
                None => true,
            },
    ensures
        r@.len() == sessions@.len(),
        forall|i: int|
            0 <= i < sessions@.len() ==> {
                &&& #[trigger] r@[i].selector == if sessions@[i].state == SessionState::Free {
                    Some((free_count(sessions@, i) + 1) as usize)
                } else {
                    None::<usize>
                }
                &&& r@[i].session_id@ == sessions@[i].id@
                &&& r@[i].state == sessions@[i].state
                &&& r@[i].current_command@ == sessions@[i].current_command@
                &&& (r@[i].detach_time@ == "-"@ <==> sessions@[i].last_detach_time is None)
                &&& renders_time(r@[i].init_time@, sessions@[i].init_time)
                &&& (sessions@[i].last_detach_time matches Some(t) ==> renders_time(
                    r@[i].detach_time@,
                    t,
                ))
            },
{
    let n = sessions.len();
    let mut rows: Vec<PickerRow> = Vec::with_capacity(n);
    let mut selected: usize = 0;
    let mut i: usize = 0;
    while i < n
        invariant
            i <= n,
            n == sessions@.len(),
            rows@.len() == i,
            selected == free_count(sessions@, i as int),
            free_count(sessions@, i as int) <= i,
            forall|k: int|
                0 <= k < sessions@.len() ==> #[trigger] sessions@[k].init_time
                    <= MAX_DISPLAY_MILLIS && match sessions@[k].last_detach_time {
                    Some(t) => t <= MAX_DISPLAY_MILLIS,
                    None => true,
                },
            forall|k: int|
                0 <= k < i ==> {
                    &&& #[trigger] rows@[k].selector == if sessions@[k].state
                        == SessionState::Free {
                        Some((free_count(sessions@, k) + 1) as usize)
                    } else {
                        None::<usize>
                    }
                    &&& rows@[k].session_id@ == sessions@[k].id@
                    &&& rows@[k].state == sessions@[k].state
                    &&& rows@[k].current_command@ == sessions@[k].current_command@
                    &&& (rows@[k].detach_time@ == "-"@ <==> sessions@[k].last_detach_time
                        is None)
                    &&& renders_time(rows@[k].init_time@, sessions@[k].init_time)
                    &&& (sessions@[k].last_detach_time matches Some(t) ==> renders_time(
                        rows@[k].detach_time@,
                        t,
                    ))
                },
        decreases n - i,
    {
        let session = &sessions[i];
        let selector = if session.is_selectable() {
            selected = selected + 1;
            Some(selected)
        } else {
            None
        };
        let init_text = display_time(session.init_time);
        let detach_text = match session.last_detach_time {
            Some(t) => Some(display_time(t)),
            None => None,
        };
        proof {
            reveal_strlit("-");
        }
        let row = picker_row(session, selector, init_text, detach_text);
        rows.push(row);
        i = i + 1;
    }
    rows
}

} // verus!
