use vstd::prelude::*;
use vstd::string::*;

verus! {

/// Number of bytes in a frame header: type, flags and a big-endian `u32` length.
pub const HEADER_LEN: usize = 6;

/// Largest payload that a frame may carry (1 MiB).
pub const MAX_PAYLOAD_LEN: usize = 1048576;

/// The protocol baseline that this implementation announces to the bootstrap.
pub const CURRENT_PROTOCOL_BASELINE: &'static str = "0.1";

#[verifier::external_type_specification]
#[verifier::external_body]
pub struct ExIoError(std::io::Error);

/// One-byte message type tag of a frame.
#[derive(Debug, Clone, Copy, PartialEq, Eq, Hash, Structural)]
pub struct MessageType(pub u8);

/// The display name of each known message type; `None` for tags this
/// implementation does not know (which receivers skip).
pub open spec fn message_type_name(value: u8) -> Option<Seq<char>> {
    if value == 1 {
        Some("Capabilities"@)
    } else if value == 2 {
        Some("SessionListRequest"@)
    } else if value == 3 {
        Some("SessionList"@)
    } else if value == 4 {
        Some("NewSession"@)
    } else if value == 5 {
        Some("AttachSession"@)
    } else if value == 6 {
        Some("BrokerAttach"@)
    } else if value == 7 {
        Some("DaemonInfoRequest"@)
    } else if value == 8 {
        Some("DaemonInfo"@)
    } else if value == 9 {
        Some("Detach"@)
    } else if value == 10 {
        Some("ClientShouldExit"@)
    } else if value == 11 {
        Some("SessionBusy"@)
    } else if value == 12 {
        Some("PtyData"@)
    } else if value == 13 {
        Some("WindowSize"@)
    } else if value == 14 {
        Some("ExitStatus"@)
    } else if value == 15 {
        Some("Error"@)
    } else {
        None
    }
}

#[allow(non_snake_case)]
impl MessageType {
    pub fn CAPABILITIES() -> (r: MessageType)
        ensures
            r.0 == 1,
    {
        MessageType(1)
    }

    pub fn SESSION_LIST_REQUEST() -> (r: MessageType)
        ensures
            r.0 == 2,
    {
        MessageType(2)
    }

    pub fn SESSION_LIST() -> (r: MessageType)
        ensures
            r.0 == 3,
    {
        MessageType(3)
    }

    pub fn NEW_SESSION() -> (r: MessageType)
        ensures
            r.0 == 4,
    {
        MessageType(4)
    }

    pub fn ATTACH_SESSION() -> (r: MessageType)
        ensures
            r.0 == 5,
    {
        MessageType(5)
    }

    pub fn BROKER_ATTACH() -> (r: MessageType)
        ensures
            r.0 == 6,
    {
        MessageType(6)
    }

    pub fn DAEMON_INFO_REQUEST() -> (r: MessageType)
        ensures
            r.0 == 7,
    {
        MessageType(7)
    }

    pub fn DAEMON_INFO() -> (r: MessageType)
        ensures
            r.0 == 8,
    {
        MessageType(8)
    }

    pub fn DETACH() -> (r: MessageType)
        ensures
            r.0 == 9,
    {
        MessageType(9)
    }

    pub fn CLIENT_SHOULD_EXIT() -> (r: MessageType)
        ensures
            r.0 == 10,
    {
        MessageType(10)
    }

    pub fn SESSION_BUSY() -> (r: MessageType)
        ensures
            r.0 == 11,
    {
        MessageType(11)
    }

    pub fn PTY_DATA() -> (r: MessageType)
        ensures
            r.0 == 12,
    {
        MessageType(12)
    }

    pub fn WINDOW_SIZE() -> (r: MessageType)
        ensures
            r.0 == 13,
    {
        MessageType(13)
    }

    pub fn EXIT_STATUS() -> (r: MessageType)
        ensures
            r.0 == 14,
    {
        MessageType(14)
    }

    pub fn ERROR() -> (r: MessageType)
        ensures
            r.0 == 15,
    {
        MessageType(15)
    }

    pub fn new(value: u8) -> (r: MessageType)
        ensures
            r.0 == value,
    {
        MessageType(value)
    }

    pub fn get(self) -> (r: u8)
        ensures
            r == self.0,
    {
        self.0
    }

    /// Whether this is one of the message types of the protocol; receivers
    /// skip the others silently.
    pub fn is_known(self) -> (r: bool)
        ensures
            r == (message_type_name(self.0) is Some),
    {
        1 <= self.0 && self.0 <= 15
    }

    pub fn name(self) -> (r: Option<&'static str>)
        ensures
            r is Some <==> message_type_name(self.0) is Some,
            r matches Some(s) ==> s@ == message_type_name(self.0)->0,
    {
        match self.0 {
            1 => Some("Capabilities"),
            2 => Some("SessionListRequest"),
            3 => Some("SessionList"),
            4 => Some("NewSession"),
            5 => Some("AttachSession"),
            6 => Some("BrokerAttach"),
            7 => Some("DaemonInfoRequest"),
            8 => Some("DaemonInfo"),
            9 => Some("Detach"),
            10 => Some("ClientShouldExit"),
            11 => Some("SessionBusy"),
            12 => Some("PtyData"),
            13 => Some("WindowSize"),
            14 => Some("ExitStatus"),
            15 => Some("Error"),
            _ => None,
        }
    }
}

/// Errors of the framing layer.
#[derive(Debug)]
pub enum ProtocolError {
    Io(std::io::Error),
    TruncatedHeader,
    TruncatedPayload { expected: usize, actual: usize },
    PayloadTooLarge { len: usize, max: usize },
    InvalidMessage(&'static str),
}

/// The mathematical content of a frame.
pub struct FrameView {
    pub msg_type: u8,
    pub flags: u8,
    pub payload: Seq<u8>,
}

/// A protocol frame: type, flags and a payload of at most `MAX_PAYLOAD_LEN` bytes.
#[derive(Debug, PartialEq, Eq)]
pub struct Frame {
    msg_type: MessageType,
    flags: u8,
    payload: Vec<u8>,
}

impl View for Frame {
    type V = FrameView;

    closed spec fn view(&self) -> FrameView {
        FrameView { msg_type: self.msg_type.0, flags: self.flags, payload: self.payload@ }
    }
}

/// The four big-endian bytes of a length below 2^32.
pub open spec fn be_bytes(n: nat) -> Seq<u8> {
    seq![
        ((n / 16777216) % 256) as u8,
        ((n / 65536) % 256) as u8,
        ((n / 256) % 256) as u8,
        (n % 256) as u8,
    ]
}

/// The value of four big-endian bytes.
pub open spec fn be_value(b: Seq<u8>) -> nat {
    (b[0] as nat) * 16777216 + (b[1] as nat) * 65536 + (b[2] as nat) * 256 + (b[3] as nat)
}

/// The wire form of a frame: type, flags, payload length (big endian), payload.
pub open spec fn encode_frame(f: FrameView) -> Seq<u8> {
    seq![f.msg_type, f.flags] + be_bytes(f.payload.len()) + f.payload
}

/// What reading one frame from a stream that holds exactly `r` yields.
pub enum ReadOutcome {
    /// The stream ended before the first header byte.
    Eof,
    /// The stream ended inside the header.
    TruncatedHeader,
    /// The header announces a payload above the limit.
    PayloadTooLarge { len: nat },
    /// The stream ended inside the payload.
    TruncatedPayload { expected: nat },
    /// A whole frame, and how many bytes it took.
    Complete { frame: FrameView, consumed: nat },
}

/// The payload length announced by a (complete) header at the start of `r`.
pub open spec fn header_payload_len(r: Seq<u8>) -> nat {
    be_value(r.subrange(2, 6))
}

pub open spec fn read_outcome(r: Seq<u8>) -> ReadOutcome {
    if r.len() == 0 {
        ReadOutcome::Eof
    } else if r.len() < HEADER_LEN {
        ReadOutcome::TruncatedHeader
    } else if header_payload_len(r) > MAX_PAYLOAD_LEN {
        ReadOutcome::PayloadTooLarge { len: header_payload_len(r) }
    } else if r.len() < HEADER_LEN + header_payload_len(r) {
        ReadOutcome::TruncatedPayload { expected: header_payload_len(r) }
    } else {
        ReadOutcome::Complete {
            frame: FrameView {
                msg_type: r[0],
                flags: r[1],
                payload: r.subrange(6, 6 + header_payload_len(r) as int),
            },
            consumed: (HEADER_LEN + header_payload_len(r)) as nat,
        }
    }
}

/// How many bytes a read of one frame takes from a stream holding `r`:
/// nothing at the end of the stream, everything left when the stream is cut
/// short, the header alone when the length is refused, the frame otherwise.
pub open spec fn read_consumes(r: Seq<u8>) -> nat {
    match read_outcome(r) {
        ReadOutcome::Eof => 0,
        ReadOutcome::TruncatedHeader => r.len(),
        ReadOutcome::PayloadTooLarge { .. } => HEADER_LEN as nat,
        ReadOutcome::TruncatedPayload { .. } => r.len(),
        ReadOutcome::Complete { consumed, .. } => consumed,
    }
}

/// Whether a read result matches the outcome predicted for the stream contents.
pub open spec fn read_result_matches(
    outcome: ReadOutcome,
    res: Result<Option<Frame>, ProtocolError>,
) -> bool {
    match outcome {
        ReadOutcome::Eof => res matches Ok(None),
        ReadOutcome::TruncatedHeader => res matches Err(ProtocolError::TruncatedHeader),
        ReadOutcome::PayloadTooLarge { len } => res matches Err(
            ProtocolError::PayloadTooLarge { len: l, max: m },
        ) && l == len && m == MAX_PAYLOAD_LEN,
        ReadOutcome::TruncatedPayload { expected } => res matches Err(
            ProtocolError::TruncatedPayload { expected: e, actual: a },
        ) && e == expected && a == 0,
        ReadOutcome::Complete { frame, .. } => res matches Ok(Some(f)) && f@ == frame,
    }
}

impl Frame {
    #[verifier::type_invariant]
    spec fn payload_within_limit(self) -> bool {
        self.payload@.len() <= MAX_PAYLOAD_LEN
    }

    pub fn new(msg_type: MessageType, flags: u8, payload: Vec<u8>) -> (r: Result<
        Frame,
        ProtocolError,
    >)
        ensures
            payload@.len() <= MAX_PAYLOAD_LEN <==> r is Ok,
            r matches Ok(f) ==> f@ == (FrameView {
                msg_type: msg_type.0,
                flags,
                payload: payload@,
            }),
            r matches Err(e) ==> e matches ProtocolError::PayloadTooLarge { len, max } && len
                == payload@.len() && max == MAX_PAYLOAD_LEN,
    {
        if payload.len() > MAX_PAYLOAD_LEN {
            return Err(ProtocolError::PayloadTooLarge { len: payload.len(), max: MAX_PAYLOAD_LEN });
        }
        Ok(Frame { msg_type, flags, payload })
    }

    pub fn msg_type(&self) -> (r: MessageType)
        ensures
            r.0 == self@.msg_type,
    {
        self.msg_type
    }

    pub fn flags(&self) -> (r: u8)
        ensures
            r == self@.flags,
    {
        self.flags
    }

    pub fn payload(&self) -> (r: &[u8])
        ensures
            r@ == self@.payload,
            r@.len() <= MAX_PAYLOAD_LEN,
    {
        proof {
            use_type_invariant(self);
        }
        self.payload.as_slice()
    }

    pub fn into_payload(self) -> (r: Vec<u8>)
        ensures
            r@ == self@.payload,
            r@.len() <= MAX_PAYLOAD_LEN,
    {
        proof {
            use_type_invariant(&self);
        }
        self.payload
    }

    /// Appends the wire form of the frame to `out`.
    pub fn write_to(&self, out: &mut Vec<u8>) -> (r: Result<(), ProtocolError>)
        ensures
            r is Ok,
            final(out)@ == old(out)@ + encode_frame(self@),
    {
        proof {
            use_type_invariant(self);
        }
        let len = self.payload.len();
        let len32 = len as u32;
        proof {
            lemma_be_split(len32);
        }
        out.push(self.msg_type.0);
        out.push(self.flags);
        out.push(((len32 >> 24u32) & 0xffu32) as u8);
        out.push(((len32 >> 16u32) & 0xffu32) as u8);
        out.push(((len32 >> 8u32) & 0xffu32) as u8);
        out.push((len32 & 0xffu32) as u8);
        let ghost header = out@;
        let mut i: usize = 0;
        while i < len
            invariant
                i <= len,
                len == self.payload@.len(),
                out@ == header + self.payload@.subrange(0, i as int),
            decreases len - i,
        {
            out.push(self.payload[i]);
            i = i + 1;
            proof {
                assert(self.payload@.subrange(0, i as int) =~= self.payload@.subrange(
                    0,
                    i - 1,
                ).push(self.payload@[i - 1]));
            }
        }
        proof {
            assert(self.payload@.subrange(0, len as int) =~= self.payload@);
            assert(out@ =~= old(out)@ + encode_frame(self@));
        }
        Ok(())
    }
}

proof fn lemma_be_split(n: u32)
    ensures
        ((n >> 24u32) & 0xffu32) == (n / 16777216) % 256,
        ((n >> 16u32) & 0xffu32) == (n / 65536) % 256,
        ((n >> 8u32) & 0xffu32) == (n / 256) % 256,
        (n & 0xffu32) == n % 256,
{
    assert(((n >> 24u32) & 0xffu32) == (n / 16777216) % 256) by (bit_vector);
    assert(((n >> 16u32) & 0xffu32) == (n / 65536) % 256) by (bit_vector);
    assert(((n >> 8u32) & 0xffu32) == (n / 256) % 256) by (bit_vector);
    assert((n & 0xffu32) == n % 256) by (bit_vector);
}

proof fn lemma_be_join(b0: u8, b1: u8, b2: u8, b3: u8)
    ensures
        ((b0 as u32) << 24u32) | ((b1 as u32) << 16u32) | ((b2 as u32) << 8u32) | (b3 as u32)
            == (b0 as u32) * 16777216 + (b1 as u32) * 65536 + (b2 as u32) * 256 + (b3 as u32),
{
    assert(((b0 as u32) << 24u32) | ((b1 as u32) << 16u32) | ((b2 as u32) << 8u32) | (b3 as u32)
        == (b0 as u32) * 16777216 + (b1 as u32) * 65536 + (b2 as u32) * 256 + (b3 as u32))
        by (bit_vector);
}

proof fn lemma_be_round_trip(n: nat)
    requires
        n < 4294967296,
    ensures
        be_value(be_bytes(n)) == n,
{
    let m = n as u32;
    assert(((m / 16777216) % 256) * 16777216 + ((m / 65536) % 256) * 65536 + ((m / 256) % 256)
        * 256 + m % 256 == m) by (bit_vector);
}

/// A frame written to a stream is read back unchanged, whatever follows it on
/// the stream, and the read takes exactly the bytes that were written.
pub proof fn lemma_frame_round_trip(frame: FrameView, rest: Seq<u8>)
    requires
        frame.payload.len() <= MAX_PAYLOAD_LEN,
    ensures
        read_outcome(encode_frame(frame) + rest) == (ReadOutcome::Complete {
            frame,
            consumed: encode_frame(frame).len(),
        }),
        read_consumes(encode_frame(frame) + rest) == encode_frame(frame).len(),
{
    let bytes = encode_frame(frame) + rest;
    let n = frame.payload.len();
    lemma_be_round_trip(n);
    assert(bytes.subrange(2, 6) =~= be_bytes(n));
    assert(header_payload_len(bytes) == n);
    assert(bytes.subrange(6, 6 + n as int) =~= frame.payload);
}

/// An in-memory byte stream from which frames are read front to back.
pub struct ByteCursor {
    bytes: Vec<u8>,
    pos: usize,
}

impl View for ByteCursor {
    type V = Seq<u8>;

    /// The bytes not read yet.
    closed spec fn view(&self) -> Seq<u8> {
        self.bytes@.subrange(self.pos as int, self.bytes@.len() as int)
    }
}

impl ByteCursor {
    #[verifier::type_invariant]
    spec fn position_in_bounds(self) -> bool {
        self.pos <= self.bytes@.len()
    }

    pub fn new(bytes: Vec<u8>) -> (r: ByteCursor)
        ensures
            r@ == bytes@,
    {
        let r = ByteCursor { bytes, pos: 0 };
        proof {
            assert(r@ =~= r.bytes@);
        }
        r
    }

    /// Number of bytes not read yet.
    pub fn remaining_len(&self) -> (r: usize)
        ensures
            r == self@.len(),
    {
        proof {
            use_type_invariant(self);
        }
        self.bytes.len() - self.pos
    }

    /// Takes one byte, or `None` at the end of the stream.
    pub fn read_byte(&mut self) -> (r: Option<u8>)
        ensures
            old(self)@.len() == 0 ==> r is None && final(self)@ == old(self)@,
            old(self)@.len() > 0 ==> r == Some(old(self)@[0]) && final(self)@ == old(
                self,
            )@.skip(1),
    {
        proof {
            use_type_invariant(&*self);
        }
        if self.pos < self.bytes.len() {
            let b = self.bytes[self.pos];
            self.pos = self.pos + 1;
            proof {
                assert(self@ =~= old(self)@.skip(1));
            }
            Some(b)
        } else {
            None
        }
    }
}

/// Reads one frame from the stream. A stream that ends before the first byte
/// gives `Ok(None)`; one that ends inside a frame, or announces a payload over
/// the limit, gives the matching error. An oversized length is refused before
/// any payload byte is taken.
pub fn read_frame(reader: &mut ByteCursor) -> (r: Result<Option<Frame>, ProtocolError>)
    ensures
        read_result_matches(read_outcome(old(reader)@), r),
        final(reader)@ == old(reader)@.skip(read_consumes(old(reader)@) as int),
{
    proof {
        use_type_invariant(&*reader);
    }
    let ghost r0 = reader@;
    let end = reader.bytes.len();
    let p = reader.pos;
    let avail = end - p;
    if avail == 0 {
        proof {
            assert(reader@ =~= r0.skip(0));
        }
        return Ok(None);
    }
    if avail < HEADER_LEN {
        reader.pos = end;
        proof {
            assert(reader@ =~= r0.skip(r0.len() as int));
        }
        return Err(ProtocolError::TruncatedHeader);
    }
    let t = reader.bytes[p];
    let fl = reader.bytes[p + 1];
    let b2 = reader.bytes[p + 2];
    let b3 = reader.bytes[p + 3];
    let b4 = reader.bytes[p + 4];
    let b5 = reader.bytes[p + 5];
    let len32: u32 = ((b2 as u32) << 24u32) | ((b3 as u32) << 16u32) | ((b4 as u32) << 8u32) | (
    b5 as u32);
    proof {
        lemma_be_join(b2, b3, b4, b5);
        assert(r0.subrange(2, 6) =~= seq![b2, b3, b4, b5]);
        assert(header_payload_len(r0) == len32);
    }
    let len = len32 as usize;
    if len > MAX_PAYLOAD_LEN {
        reader.pos = p + HEADER_LEN;
        proof {
            assert(reader@ =~= r0.skip(6));
        }
        return Err(ProtocolError::PayloadTooLarge { len, max: MAX_PAYLOAD_LEN });
    }
    if avail - HEADER_LEN < len {
        reader.pos = end;
        proof {
            assert(reader@ =~= r0.skip(r0.len() as int));
        }
        return Err(ProtocolError::TruncatedPayload { expected: len, actual: 0 });
    }
    let start = p + HEADER_LEN;
    let mut payload: Vec<u8> = Vec::with_capacity(len);
    let mut i: usize = 0;
    while i < len
        invariant
            i <= len,
            len <= MAX_PAYLOAD_LEN,
            start + len <= end,
            end == reader.bytes@.len(),
            payload@ == reader.bytes@.subrange(start as int, start + i),
        decreases len - i,
    {
        payload.push(reader.bytes[start + i]);
        i = i + 1;
        proof {
            assert(payload@ =~= reader.bytes@.subrange(start as int, start + i));
        }
    }
    reader.pos = start + len;
    proof {
        assert(reader@ =~= r0.skip(6 + len));
        assert(payload@ =~= r0.subrange(6, 6 + len));
    }
    let frame = Frame { msg_type: MessageType(t), flags: fl, payload };
    Ok(Some(frame))
}

/// Whether the server speaks the framing and handshake of the given protocol baseline.
pub fn supports_protocol_baseline(baseline: &str) -> (r: bool)
    ensures
        r == (baseline@ == "0.1"@ || baseline@ == "0.1.0"@),
{
    proof {
        reveal_strlit("0.1");
        reveal_strlit("0.1.0");
    }
    let n = baseline.unicode_len();
    if n != 3 && n != 5 {
        return false;
    }
    let ok = baseline.get_char(0) == '0' && baseline.get_char(1) == '.' && baseline.get_char(2)
        == '1';
    if !ok {
        proof {
            assert(baseline@ != "0.1"@);
            assert(baseline@ != "0.1.0"@);
        }
        return false;
    }
    if n == 3 {
        proof {
            assert(baseline@ =~= "0.1"@);
        }
        return true;
    }
    let r = baseline.get_char(3) == '.' && baseline.get_char(4) == '0';
    proof {
        if r {
            assert(baseline@ =~= "0.1.0"@);
        } else {
            assert(baseline@ != "0.1.0"@);
        }
    }
    r
}

/// Terminal size carried by `WindowSize` messages.
#[derive(Debug, Clone, Copy, PartialEq, Eq, Structural)]
pub struct WindowSize {
    pub rows: u16,
    pub cols: u16,
    pub pixel_width: u16,
    pub pixel_height: u16,
}

/// How the session's shell ended: its exit code, or the signal that ended it.
#[derive(Debug, Clone, Copy, PartialEq, Eq, Structural)]
pub struct ExitStatus {
    pub code: Option<i32>,
    pub signal: Option<i32>,
}

/// What a daemon reports of its session. Times are milliseconds after the Unix epoch.
#[derive(Debug, Clone, PartialEq, Eq)]
pub struct SessionRecord {
    pub session_id: String,
    pub init_time: u64,
    pub last_detach_time: Option<u64>,
    pub current_command: String,
    pub attached: bool,
}

/// Whether a framing error may come from a connection that was cut (an I/O
/// error or a frame that ends early), as opposed to a peer that broke the
/// protocol.
pub fn is_disconnect_error(e: &ProtocolError) -> (r: bool)
    ensures
        r == (e is Io || e is TruncatedHeader || e is TruncatedPayload),
{
    match e {
        ProtocolError::Io(_) => true,
        ProtocolError::TruncatedHeader => true,
        ProtocolError::TruncatedPayload { .. } => true,
        _ => false,
    }
}

/// Length of the first line of `r`, its newline included; all of `r` when it
/// holds no newline.
pub open spec fn line_end(r: Seq<u8>) -> nat
    decreases r.len(),
{
    if r.len() == 0 {
        0
    } else if r[0] == 10 {
        1
    } else {
        1 + line_end(r.skip(1))
    }
}

proof fn lemma_line_end_bound(r: Seq<u8>)
    ensures
        line_end(r) <= r.len(),
    decreases r.len(),
{
    if r.len() > 0 && r[0] != 10 {
        lemma_line_end_bound(r.skip(1));
    }
}

impl ByteCursor {
    /// Takes the bytes up to and including the next newline, or everything
    /// left when there is none.
    pub fn take_line(&mut self) -> (r: Vec<u8>)
        ensures
            r@ == old(self)@.subrange(0, line_end(old(self)@) as int),
            final(self)@ == old(self)@.skip(line_end(old(self)@) as int),
    {
        proof {
            use_type_invariant(&*self);
            lemma_line_end_bound(self@);
        }
        let ghost r0 = self@;
        let end = self.bytes.len();
        let start = self.pos;
        let mut j: usize = start;
        let mut out: Vec<u8> = Vec::new();
        let mut found = false;
        while j < end && !found
            invariant
                start <= j <= end,
                end == self.bytes@.len(),
                start == self.pos,
                r0 == self.bytes@.subrange(start as int, end as int),
                out@ == self.bytes@.subrange(start as int, j as int),
                !found ==> line_end(r0) == (j - start) + line_end(
                    self.bytes@.subrange(j as int, end as int),
                ),
                found ==> line_end(r0) == j - start,
            decreases end - j,
        {
            let b = self.bytes[j];
            proof {
                let rest = self.bytes@.subrange(j as int, end as int);
                assert(rest[0] == b);
                assert(rest.skip(1) =~= self.bytes@.subrange(j + 1, end as int));
            }
            out.push(b);
            j = j + 1;
            if b == 10 {
                found = true;
            }
            proof {
                assert(out@ =~= self.bytes@.subrange(start as int, j as int));
            }
        }
        proof {
            if !found {
                assert(self.bytes@.subrange(j as int, end as int).len() == 0);
            }
        }
        self.pos = j;
        proof {
            assert(self@ =~= r0.skip(j - start));
            assert(out@ =~= r0.subrange(0, j - start));
        }
        out
    }
}

/// The message type, flags and payload length announced by a frame header,
/// or the error for a length over the limit. Used by readers of live streams,
/// which read the header, then the payload it announces.
pub fn parse_header(header: &[u8]) -> (r: Result<(MessageType, u8, usize), ProtocolError>)
    requires
        header@.len() == HEADER_LEN,
    ensures
        header_payload_len(header@) <= MAX_PAYLOAD_LEN ==> {
            &&& r matches Ok((t, f, len))
            &&& t.0 == header@[0]
            &&& f == header@[1]
            &&& len == header_payload_len(header@)
        },
        header_payload_len(header@) > MAX_PAYLOAD_LEN ==> {
            &&& r matches Err(ProtocolError::PayloadTooLarge { len, max })
            &&& len == header_payload_len(header@)
            &&& max == MAX_PAYLOAD_LEN
        },
{
    let len32: u32 = ((header[2] as u32) << 24u32) | ((header[3] as u32) << 16u32) | ((
    header[4] as u32) << 8u32) | (header[5] as u32);
    proof {
        lemma_be_join(header@[2], header@[3], header@[4], header@[5]);
        assert(header@.subrange(2, 6) =~= seq![header@[2], header@[3], header@[4], header@[5]]);
    }
    let len = len32 as usize;
    if len > MAX_PAYLOAD_LEN {
        return Err(ProtocolError::PayloadTooLarge { len, max: MAX_PAYLOAD_LEN });
    }
    Ok((MessageType(header[0]), header[1], len))
}

} // verus!
