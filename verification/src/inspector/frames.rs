//! WebSocket framing (RFC 6455), as far as a DevTools client exercises it:
//! decoding client frames, reassembling fragmented messages, and encoding the
//! server's own frames.
//!
//! The reader is a state machine over the bytes received so far: the caller
//! feeds it bytes and asks for the next message; when a frame is not complete
//! yet it answers `NeedMore` and keeps what it has.
use vstd::prelude::*;
use vstd::string::StrSliceExecFns;
use vstd::utf8::{decode_utf8, encode_utf8, valid_utf8};

verus! {

/// Cap on a single WebSocket message. CDP payloads can be large, so this is
/// generous, but still bounded.
pub const MAX_PAYLOAD_BYTES: usize = 67108864;

pub const OP_CONTINUATION: u8 = 0;
pub const OP_TEXT: u8 = 1;
pub const OP_BINARY: u8 = 2;
pub const OP_CLOSE: u8 = 8;
pub const OP_PING: u8 = 9;
pub const OP_PONG: u8 = 10;

/// Once this many consumed bytes sit at the front of the buffer, they are dropped.
pub const RECLAIM_BYTES: usize = 65536;

/// Why a connection's byte stream is not a valid WebSocket stream.
#[derive(Debug, Clone, Copy, PartialEq, Eq, Structural)]
pub enum ProtocolError {
    LengthOverflow,
    PayloadTooLarge,
    MalformedControl,
    OrphanContinuation,
    MessageTooLarge,
    InterleavedData,
    UnknownOpcode,
    InvalidUtf8,
}

/// The text the server reports for each protocol error.
pub open spec fn protocol_error_text(e: ProtocolError) -> Seq<char> {
    match e {
        ProtocolError::LengthOverflow => "payload length overflows usize"@,
        ProtocolError::PayloadTooLarge => "payload exceeds maximum size"@,
        ProtocolError::MalformedControl => "malformed control frame"@,
        ProtocolError::OrphanContinuation => "continuation without an open message"@,
        ProtocolError::MessageTooLarge => "fragmented message exceeds maximum size"@,
        ProtocolError::InterleavedData => "new data frame while a message is open"@,
        ProtocolError::UnknownOpcode => "unknown opcode"@,
        ProtocolError::InvalidUtf8 => "text frame is not valid UTF-8"@,
    }
}

impl ProtocolError {
    /// The error's message.
    pub fn message(&self) -> (r: String)
        ensures
            r@ == protocol_error_text(*self),
    {
        match self {
            ProtocolError::LengthOverflow => "payload length overflows usize".to_owned(),
            ProtocolError::PayloadTooLarge => "payload exceeds maximum size".to_owned(),
            ProtocolError::MalformedControl => "malformed control frame".to_owned(),
            ProtocolError::OrphanContinuation => "continuation without an open message".to_owned(),
            ProtocolError::MessageTooLarge => "fragmented message exceeds maximum size".to_owned(),
            ProtocolError::InterleavedData => "new data frame while a message is open".to_owned(),
            ProtocolError::UnknownOpcode => "unknown opcode".to_owned(),
            ProtocolError::InvalidUtf8 => "text frame is not valid UTF-8".to_owned(),
        }
    }
}

// ---------------------------------------------------------------------------
// Big-endian integers
// ---------------------------------------------------------------------------

/// `256` to the power `k`.
pub open spec fn pow256(k: nat) -> nat
    decreases k,
{
    if k == 0 {
        1
    } else {
        256 * pow256((k - 1) as nat)
    }
}

/// The unsigned integer that `b` holds, most significant byte first.
pub open spec fn be_value(b: Seq<u8>) -> nat
    decreases b.len(),
{
    if b.len() == 0 {
        0
    } else {
        (be_value(b.drop_last()) * 256 + b.last()) as nat
    }
}

/// The last `k` bytes of `n`, most significant first (`to_be_bytes` when `n` fits).
pub open spec fn be_bytes(n: nat, k: nat) -> Seq<u8>
    decreases k,
{
    if k == 0 {
        Seq::empty()
    } else {
        be_bytes(n / 256, (k - 1) as nat).push((n % 256) as u8)
    }
}

pub proof fn lemma_be_value_bound(b: Seq<u8>)
    ensures
        be_value(b) < pow256(b.len()),
    decreases b.len(),
{
    if b.len() > 0 {
        lemma_be_value_bound(b.drop_last());
    }
}

/// Reading back `k` big-endian bytes of `n` gives `n`, when `n` fits in `k` bytes.
pub proof fn lemma_be_roundtrip(n: nat, k: nat)
    requires
        n < pow256(k),
    ensures
        be_bytes(n, k).len() == k,
        be_value(be_bytes(n, k)) == n,
    decreases k,
{
    if k > 0 {
        let p = pow256((k - 1) as nat);
        assert(n / 256 < p) by (nonlinear_arith)
            requires
                n < 256 * p,
        ;
        lemma_be_roundtrip(n / 256, (k - 1) as nat);
        let b = be_bytes(n, k);
        assert(b.drop_last() =~= be_bytes(n / 256, (k - 1) as nat));
    }
}

/// Reads `k` bytes of `buf` from `start` as a big-endian integer.
fn read_be(buf: &[u8], start: usize, k: usize) -> (r: u64)
    requires
        k <= 8,
        start + k <= buf@.len(),
    ensures
        r == be_value(buf@.subrange(start as int, start + k)),
{
    let n: usize = buf.len();
    let mut v: u64 = 0;
    let mut i: usize = 0;
    proof {
        reveal_with_fuel(pow256, 8);
        assert(pow256(7) == 72057594037927936);
    }
    while i < k
        invariant
            k <= 8,
            i <= k,
            start + k <= buf@.len(),
            n == buf@.len(),
            v == be_value(buf@.subrange(start as int, start + i)),
            pow256(7) == 72057594037927936,
        decreases k - i,
    {
        proof {
            lemma_be_value_bound(buf@.subrange(start as int, start + i));
            lemma_pow256_mono(i as nat, 7);
            let s = buf@.subrange(start as int, start + i + 1);
            assert(s.drop_last() =~= buf@.subrange(start as int, start + i));
            assert(v < 72057594037927936);
        }
        v = v * 256 + buf[start + i] as u64;
        i = i + 1;
    }
    v
}

proof fn lemma_pow256_mono(i: nat, j: nat)
    requires
        i <= j,
    ensures
        pow256(i) <= pow256(j),
    decreases j,
{
    if i < j {
        lemma_pow256_mono(i, (j - 1) as nat);
    }
}

/// Appends the last `k` bytes of `n`, most significant first.
fn push_be(out: &mut Vec<u8>, n: u64, k: usize)
    ensures
        final(out)@ == old(out)@ + be_bytes(n as nat, k as nat),
    decreases k,
{
    if k > 0 {
        push_be(out, n / 256, k - 1);
        out.push((n % 256) as u8);
        proof {
            assert(final(out)@ =~= old(out)@ + be_bytes(n as nat, k as nat));
        }
    }
}

// ---------------------------------------------------------------------------
// Frames
// ---------------------------------------------------------------------------

/// A complete WebSocket message or control frame.
#[derive(Debug)]
pub enum Frame {
    Text(String),
    Binary(Vec<u8>),
    Ping(Vec<u8>),
    Pong(Vec<u8>),
    Close,
}

/// What a `Frame` holds.
pub enum FrameModel {
    Text(Seq<char>),
    Binary(Seq<u8>),
    Ping(Seq<u8>),
    Pong(Seq<u8>),
    Close,
}

impl View for Frame {
    type V = FrameModel;

    open spec fn view(&self) -> FrameModel {
        match self {
            Frame::Text(t) => FrameModel::Text(t@),
            Frame::Binary(d) => FrameModel::Binary(d@),
            Frame::Ping(d) => FrameModel::Ping(d@),
            Frame::Pong(d) => FrameModel::Pong(d@),
            Frame::Close => FrameModel::Close,
        }
    }
}

/// Unmasks a client payload: byte `i` is XORed with byte `i % 4` of the mask.
pub open spec fn unmask(payload: Seq<u8>, mask: Seq<u8>) -> Seq<u8> {
    Seq::new(payload.len(), |i: int| payload[i] ^ mask[i % 4])
}

/// The FIN bit of the frame starting `b`.
pub open spec fn frame_fin(b: Seq<u8>) -> bool {
    b[0] & 0x80u8 != 0u8
}

/// The opcode of the frame starting `b`.
pub open spec fn frame_opcode(b: Seq<u8>) -> u8 {
    b[0] & 0x0Fu8
}

/// Whether the frame starting `b` is masked.
pub open spec fn frame_masked(b: Seq<u8>) -> bool {
    b[1] & 0x80u8 != 0u8
}

/// How many extended length bytes follow the two header bytes.
pub open spec fn frame_ext(b: Seq<u8>) -> nat {
    let code = b[1] & 0x7Fu8;
    if code == 126u8 {
        2
    } else if code == 127u8 {
        8
    } else {
        0
    }
}

/// The payload length the header of the frame starting `b` announces.
pub open spec fn frame_len(b: Seq<u8>) -> nat {
    let e = frame_ext(b);
    if e == 0 {
        (b[1] & 0x7Fu8) as nat
    } else {
        be_value(b.subrange(2, 2 + (e as int)))
    }
}

/// Where the payload of the frame starting `b` begins.
pub open spec fn frame_start(b: Seq<u8>) -> nat {
    2 + frame_ext(b) + if frame_masked(b) {
        4nat
    } else {
        0nat
    }
}

/// How many bytes the frame starting `b` occupies.
pub open spec fn frame_size(b: Seq<u8>) -> nat {
    frame_start(b) + frame_len(b)
}

/// What the bytes at the front of a stream make of one frame.
pub enum RawOutcome {
    /// More bytes are needed to finish the frame.
    Incomplete,
    /// The frame breaks the protocol; this is known before its payload arrives.
    Invalid(ProtocolError),
    /// A whole frame, its payload unmasked.
    Complete { fin: bool, opcode: u8, payload: Seq<u8> },
}

/// The frame at the front of `b`. The length checks come before the payload is
/// needed: a frame that announces too much is refused at once.
pub open spec fn frame_outcome(b: Seq<u8>) -> RawOutcome {
    if b.len() < 2 || b.len() < 2 + frame_ext(b) {
        RawOutcome::Incomplete
    } else if frame_len(b) > usize::MAX {
        RawOutcome::Invalid(ProtocolError::LengthOverflow)
    } else if frame_len(b) > MAX_PAYLOAD_BYTES {
        RawOutcome::Invalid(ProtocolError::PayloadTooLarge)
    } else if frame_opcode(b) & 0x08u8 != 0u8 && (!frame_fin(b) || frame_len(b) > 125) {
        RawOutcome::Invalid(ProtocolError::MalformedControl)
    } else if b.len() < frame_size(b) {
        RawOutcome::Incomplete
    } else {
        let raw = b.subrange(frame_start(b) as int, frame_size(b) as int);
        let ext = frame_ext(b) as int;
        RawOutcome::Complete {
            fin: frame_fin(b),
            opcode: frame_opcode(b),
            payload: if frame_masked(b) {
                unmask(raw, b.subrange(2 + ext, 6 + ext))
            } else {
                raw
            },
        }
    }
}

/// The result of decoding the frame at the front of a buffer.
pub enum FrameParse {
    Incomplete,
    Invalid(ProtocolError),
    Complete { fin: bool, opcode: u8, payload: Vec<u8>, consumed: usize },
}

/// Decodes the frame at the front of `b`, unmasking its payload.
pub fn decode_frame(b: &[u8]) -> (r: FrameParse)
    ensures
        match r {
            FrameParse::Incomplete => frame_outcome(b@) is Incomplete,
            FrameParse::Invalid(e) => frame_outcome(b@) == RawOutcome::Invalid(e),
            FrameParse::Complete { fin, opcode, payload, consumed } => frame_outcome(b@)
                == RawOutcome::Complete { fin, opcode, payload: payload@ } && consumed
                == frame_size(b@) && 0 < consumed <= b@.len(),
        },
{
    let n: usize = b.len();
    if n < 2 {
        return FrameParse::Incomplete;
    }
    let b0 = b[0];
    let b1 = b[1];
    let fin = b0 & 0x80u8 != 0u8;
    let opcode = b0 & 0x0Fu8;
    let masked = b1 & 0x80u8 != 0u8;
    let code = b1 & 0x7Fu8;
    let ext: usize = if code == 126u8 {
        2
    } else if code == 127u8 {
        8
    } else {
        0
    };
    if n < 2 + ext {
        return FrameParse::Incomplete;
    }
    let len: u64 = if ext == 0 {
        code as u64
    } else {
        read_be(b, 2, ext)
    };
    if len > usize::MAX as u64 {
        return FrameParse::Invalid(ProtocolError::LengthOverflow);
    }
    if len > MAX_PAYLOAD_BYTES as u64 {
        return FrameParse::Invalid(ProtocolError::PayloadTooLarge);
    }
    if opcode & 0x08u8 != 0u8 && (!fin || len > 125) {
        return FrameParse::Invalid(ProtocolError::MalformedControl);
    }
    let len: usize = len as usize;
    let start: usize = if masked {
        2 + ext + 4
    } else {
        2 + ext
    };
    if n < start || n - start < len {
        return FrameParse::Incomplete;
    }
    let mut payload: Vec<u8> = Vec::new();
    let mut i: usize = 0;
    while i < len
        invariant
            n == b@.len(),
            start + len <= n,
            start == 2 + ext + if masked { 4usize } else { 0usize },
            i <= len,
            payload@.len() == i,
            forall|j: int|
                0 <= j < i ==> #[trigger] payload@[j] == if masked {
                    b@[start + j] ^ b@[2 + ext + j % 4]
                } else {
                    b@[start + j]
                },
        decreases len - i,
    {
        let raw = b[start + i];
        let byte = if masked {
            raw ^ b[2 + ext + i % 4]
        } else {
            raw
        };
        payload.push(byte);
        i = i + 1;
    }
    proof {
        let raw = b@.subrange(start as int, start + len);
        if masked {
            assert(payload@ =~= unmask(raw, b@.subrange(2 + ext, 6 + ext)));
        } else {
            assert(payload@ =~= raw);
        }
    }
    FrameParse::Complete { fin, opcode, payload, consumed: start + len }
}

/// The opcode and payload bytes a frame is sent with.
pub open spec fn frame_parts(f: FrameModel) -> (u8, Seq<u8>) {
    match f {
        FrameModel::Text(t) => (OP_TEXT, encode_utf8(t)),
        FrameModel::Binary(d) => (OP_BINARY, d),
        FrameModel::Ping(d) => (OP_PING, d),
        FrameModel::Pong(d) => (OP_PONG, d),
        FrameModel::Close => (OP_CLOSE, Seq::empty()),
    }
}

/// The bytes of a server frame: FIN set (outbound messages are never
/// fragmented), unmasked (RFC 6455 §5.1), with the shortest length encoding.
pub open spec fn encoded_frame(opcode: u8, payload: Seq<u8>) -> Seq<u8> {
    let len = payload.len();
    let head = if len < 126 {
        seq![0x80u8 | opcode, len as u8]
    } else if len <= 65535 {
        seq![0x80u8 | opcode, 126u8] + be_bytes(len, 2)
    } else {
        seq![0x80u8 | opcode, 127u8] + be_bytes(len, 8)
    };
    head + payload
}

/// Encodes a frame for sending.
pub fn encode_frame(frame: &Frame) -> (r: Vec<u8>)
    ensures
        r@ == encoded_frame(frame_parts(frame@).0, frame_parts(frame@).1),
{
    let (opcode, payload): (u8, Vec<u8>) = match frame {
        Frame::Text(text) => (OP_TEXT, text.as_str().as_bytes_vec()),
        Frame::Binary(data) => (OP_BINARY, vstd::slice::slice_to_vec(data.as_slice())),
        Frame::Ping(data) => (OP_PING, vstd::slice::slice_to_vec(data.as_slice())),
        Frame::Pong(data) => (OP_PONG, vstd::slice::slice_to_vec(data.as_slice())),
        Frame::Close => (OP_CLOSE, Vec::new()),
    };
    let len: usize = payload.len();
    let mut out: Vec<u8> = Vec::new();
    out.push(0x80u8 | opcode);
    if len < 126 {
        out.push(len as u8);
    } else if len <= 65535 {
        out.push(126u8);
        push_be(&mut out, len as u64, 2);
    } else {
        out.push(127u8);
        push_be(&mut out, len as u64, 8);
    }
    let mut i: usize = 0;
    let ghost head = out@;
    while i < len
        invariant
            len == payload@.len(),
            i <= len,
            out@ == head + payload@.take(i as int),
        decreases len - i,
    {
        out.push(payload[i]);
        i = i + 1;
        proof {
            assert(out@ =~= head + payload@.take(i as int));
        }
    }
    proof {
        assert(payload@.take(len as int) =~= payload@);
        assert(out@ =~= encoded_frame(opcode, payload@));
    }
    out
}

// ---------------------------------------------------------------------------
// Messages
// ---------------------------------------------------------------------------

/// What asking for the next message gives.
pub enum ReadModel {
    /// The buffered bytes end inside a frame; feed more and ask again.
    NeedMore,
    Message(FrameModel),
    Failed(ProtocolError),
}

/// The message a finished data message makes: text must be valid UTF-8.
pub open spec fn finish_spec(opcode: u8, payload: Seq<u8>) -> ReadModel {
    if opcode == OP_TEXT {
        if valid_utf8(payload) {
            ReadModel::Message(FrameModel::Text(decode_utf8(payload)))
        } else {
            ReadModel::Failed(ProtocolError::InvalidUtf8)
        }
    } else {
        ReadModel::Message(FrameModel::Binary(payload))
    }
}

/// What one frame does: it ends the request for a message (with the open
/// fragmented message after it), or it only extends the open message.
pub enum Assembly {
    Done(ReadModel, Option<(u8, Seq<u8>)>),
    Continue(Option<(u8, Seq<u8>)>),
}

/// The effect of one frame, given the open fragmented message (its first
/// opcode and its payload so far). Control frames are surfaced at once, even
/// in the middle of a fragmented message, which stays open.
pub open spec fn assemble(open: Option<(u8, Seq<u8>)>, fin: bool, opcode: u8, payload: Seq<u8>) -> Assembly {
    if opcode == OP_CLOSE {
        Assembly::Done(ReadModel::Message(FrameModel::Close), open)
    } else if opcode == OP_PING {
        Assembly::Done(ReadModel::Message(FrameModel::Ping(payload)), open)
    } else if opcode == OP_PONG {
        Assembly::Done(ReadModel::Message(FrameModel::Pong(payload)), open)
    } else if opcode == OP_CONTINUATION {
        match open {
            None => Assembly::Done(ReadModel::Failed(ProtocolError::OrphanContinuation), open),
            Some((first, acc)) => if acc.len() + payload.len() > MAX_PAYLOAD_BYTES {
                Assembly::Done(ReadModel::Failed(ProtocolError::MessageTooLarge), open)
            } else if fin {
                Assembly::Done(finish_spec(first, acc + payload), None)
            } else {
                Assembly::Continue(Some((first, acc + payload)))
            },
        }
    } else if opcode == OP_TEXT || opcode == OP_BINARY {
        if open is Some {
            Assembly::Done(ReadModel::Failed(ProtocolError::InterleavedData), open)
        } else if fin {
            Assembly::Done(finish_spec(opcode, payload), None)
        } else {
            Assembly::Continue(Some((opcode, payload)))
        }
    } else {
        Assembly::Done(ReadModel::Failed(ProtocolError::UnknownOpcode), open)
    }
}

/// A complete frame fits in the bytes it was decoded from.
pub proof fn lemma_complete_size(b: Seq<u8>)
    ensures
        frame_outcome(b) is Complete ==> 2 <= frame_size(b) <= b.len(),
{
}

/// What asking for the next message does: its outcome, how many buffered bytes
/// it consumes, and the open fragmented message it leaves.
pub struct ReadStep {
    pub outcome: ReadModel,
    pub consumed: nat,
    pub open: Option<(u8, Seq<u8>)>,
}

/// Reads frames from `bytes` until one completes a message, fails, or is cut off.
pub open spec fn read_step(bytes: Seq<u8>, open: Option<(u8, Seq<u8>)>) -> ReadStep
    decreases bytes.len(),
{
    match frame_outcome(bytes) {
        RawOutcome::Incomplete => ReadStep { outcome: ReadModel::NeedMore, consumed: 0, open },
        RawOutcome::Invalid(e) => ReadStep { outcome: ReadModel::Failed(e), consumed: 0, open },
        RawOutcome::Complete { fin, opcode, payload } => {
            let used = frame_size(bytes);
            match assemble(open, fin, opcode, payload) {
                Assembly::Done(outcome, next) => ReadStep { outcome, consumed: used, open: next },
                Assembly::Continue(next) => {
                    proof {
                        lemma_complete_size(bytes);
                    }
                    let rest = read_step(bytes.skip(used as int), next);
                    ReadStep { outcome: rest.outcome, consumed: used + rest.consumed, open: rest.open }
                },
            }
        },
    }
}

/// What `FrameReader::next_message` gives.
#[derive(Debug)]
pub enum ReadResult {
    NeedMore,
    Message(Frame),
    Failed(ProtocolError),
}

impl View for ReadResult {
    type V = ReadModel;

    open spec fn view(&self) -> ReadModel {
        match self {
            ReadResult::NeedMore => ReadModel::NeedMore,
            ReadResult::Message(f) => ReadModel::Message(f@),
            ReadResult::Failed(e) => ReadModel::Failed(*e),
        }
    }
}

/// Calls `String::from_utf8`. Trusted: it succeeds exactly on valid UTF-8, and
/// then holds the characters the bytes encode.
#[verifier::external_body]
fn utf8_string(bytes: Vec<u8>) -> (r: Option<String>)
    ensures
        match r {
            Some(s) => valid_utf8(bytes@) && s@ == decode_utf8(bytes@),
            None => !valid_utf8(bytes@),
        },
{
    String::from_utf8(bytes).ok()
}

/// Turns the payload of a finished data message into a message.
fn finish(opcode: u8, payload: Vec<u8>) -> (r: ReadResult)
    ensures
        r@ == finish_spec(opcode, payload@),
{
    if opcode == OP_TEXT {
        match utf8_string(payload) {
            Some(text) => ReadResult::Message(Frame::Text(text)),
            None => ReadResult::Failed(ProtocolError::InvalidUtf8),
        }
    } else {
        ReadResult::Message(Frame::Binary(payload))
    }
}

/// Reads WebSocket messages from the bytes a connection delivers.
pub struct FrameReader {
    buf: Vec<u8>,
    pos: usize,
    /// The open fragmented message, with the opcode of its first frame. Kept on
    /// the reader so that a control frame arriving mid-message does not lose it.
    fragment: Option<(u8, Vec<u8>)>,
}

impl FrameReader {
    /// The bytes received and not yet consumed.
    pub closed spec fn pending(&self) -> Seq<u8> {
        self.buf@.skip(self.pos as int)
    }

    /// The open fragmented message: its first opcode and its payload so far.
    pub closed spec fn open_message(&self) -> Option<(u8, Seq<u8>)> {
        match self.fragment {
            Some((opcode, acc)) => Some((opcode, acc@)),
            None => None,
        }
    }

    /// How many received bytes have been consumed and are still held.
    pub closed spec fn consumed(&self) -> nat {
        self.pos as nat
    }

    /// The reader's own bookkeeping is consistent.
    pub closed spec fn wf(&self) -> bool {
        &&& self.pos <= self.buf@.len()
        &&& self.fragment matches Some((_, acc)) ==> acc@.len() <= MAX_PAYLOAD_BYTES
    }

    /// A reader that starts with the bytes already received after the handshake.
    pub fn new(initial: Vec<u8>) -> (r: Self)
        ensures
            r.wf(),
            r.pending() == initial@,
            r.open_message() is None,
    {
        let r = FrameReader { buf: initial, pos: 0, fragment: None };
        proof {
            assert(r.buf@.skip(0) =~= r.buf@);
        }
        r
    }

    /// Adds bytes received from the connection.
    pub fn feed(&mut self, bytes: &[u8])
        requires
            old(self).wf(),
        ensures
            final(self).wf(),
            final(self).pending() == old(self).pending() + bytes@,
            final(self).open_message() == old(self).open_message(),
    {
        let mut more = vstd::slice::slice_to_vec(bytes);
        self.buf.append(&mut more);
        proof {
            assert(self.buf@.skip(self.pos as int) =~= old(self).pending() + bytes@);
        }
    }

    /// Drops the consumed bytes once enough of them have piled up.
    fn reclaim(&mut self)
        requires
            old(self).wf(),
        ensures
            final(self).wf(),
            final(self).pending() == old(self).pending(),
            final(self).open_message() == old(self).open_message(),
            old(self).consumed() >= RECLAIM_BYTES ==> final(self).consumed() == 0,
            old(self).consumed() < RECLAIM_BYTES ==> final(self).consumed() == old(self).consumed(),
    {
        if self.pos >= RECLAIM_BYTES {
            let rest = self.buf.split_off(self.pos);
            self.buf = rest;
            self.pos = 0;
            proof {
                assert(self.buf@.skip(0) =~= self.buf@);
                assert(self.buf@ =~= old(self).pending());
            }
        }
    }

    /// Applies one decoded frame to the open message.
    fn accept(&mut self, fin: bool, opcode: u8, payload: Vec<u8>) -> (r: Option<ReadResult>)
        requires
            old(self).wf(),
            payload@.len() <= MAX_PAYLOAD_BYTES,
        ensures
            final(self).wf(),
            final(self).pending() == old(self).pending(),
            match assemble(old(self).open_message(), fin, opcode, payload@) {
                Assembly::Done(outcome, next) => r matches Some(x) && x@ == outcome
                    && final(self).open_message() == next,
                Assembly::Continue(next) => r is None && final(self).open_message() == next,
            },
    {
        if opcode == OP_CLOSE {
            Some(ReadResult::Message(Frame::Close))
        } else if opcode == OP_PING {
            Some(ReadResult::Message(Frame::Ping(payload)))
        } else if opcode == OP_PONG {
            Some(ReadResult::Message(Frame::Pong(payload)))
        } else if opcode == OP_CONTINUATION {
            match self.fragment.take() {
                None => Some(ReadResult::Failed(ProtocolError::OrphanContinuation)),
                Some((first, acc)) => {
                    let mut acc = acc;
                    if payload.len() > MAX_PAYLOAD_BYTES - acc.len() {
                        self.fragment = Some((first, acc));
                        return Some(ReadResult::Failed(ProtocolError::MessageTooLarge));
                    }
                    let mut payload = payload;
                    acc.append(&mut payload);
                    if fin {
                        Some(finish(first, acc))
                    } else {
                        self.fragment = Some((first, acc));
                        None
                    }
                },
            }
        } else if opcode == OP_TEXT || opcode == OP_BINARY {
            if self.fragment.is_some() {
                return Some(ReadResult::Failed(ProtocolError::InterleavedData));
            }
            if fin {
                Some(finish(opcode, payload))
            } else {
                self.fragment = Some((opcode, payload));
                None
            }
        } else {
            Some(ReadResult::Failed(ProtocolError::UnknownOpcode))
        }
    }

    /// The next complete message, reassembling fragments; `NeedMore` when the
    /// buffered bytes end inside a frame.
    pub fn next_message(&mut self) -> (r: ReadResult)
        requires
            old(self).wf(),
        ensures
            final(self).wf(),
            ({
                let step = read_step(old(self).pending(), old(self).open_message());
                &&& r@ == step.outcome
                &&& final(self).pending() == old(self).pending().skip(step.consumed as int)
                &&& final(self).open_message() == step.open
            }),
    {
        let ghost start = self.pending();
        let ghost open0 = self.open_message();
        let ghost mut done: nat = 0;
        loop
            invariant
                self.wf(),
                start == old(self).pending(),
                open0 == old(self).open_message(),
                done <= start.len(),
                self.pending() == start.skip(done as int),
                ({
                    let whole = read_step(start, open0);
                    let rest = read_step(self.pending(), self.open_message());
                    &&& whole.outcome == rest.outcome
                    &&& whole.consumed == done + rest.consumed
                    &&& whole.open == rest.open
                }),
            decreases start.len() - done,
        {
            let n: usize = self.buf.len();
            let window = vstd::slice::slice_subrange(self.buf.as_slice(), self.pos, n);
            proof {
                assert(window@ =~= self.pending());
            }
            match decode_frame(window) {
                FrameParse::Incomplete => {
                    proof {
                        let rest = read_step(self.pending(), self.open_message());
                        assert(frame_outcome(self.pending()) is Incomplete);
                        assert(rest.outcome == ReadModel::NeedMore);
                        assert(rest.consumed == 0);
                        assert(rest.open == self.open_message());
                    }
                    return ReadResult::NeedMore;
                },
                FrameParse::Invalid(e) => {
                    proof {
                        let rest = read_step(self.pending(), self.open_message());
                        assert(rest.outcome == ReadModel::Failed(e));
                        assert(rest.consumed == 0);
                        assert(rest.open == self.open_message());
                    }
                    return ReadResult::Failed(e);
                },
                FrameParse::Complete { fin, opcode, payload, consumed } => {
                    let ghost before = self.pending();
                    self.pos = self.pos + consumed;
                    proof {
                        assert(self.pending() =~= before.skip(consumed as int));
                        assert(start.skip(done + consumed) =~= before.skip(consumed as int));
                    }
                    self.reclaim();
                    let out = self.accept(fin, opcode, payload);
                    match out {
                        Some(result) => {
                            proof {
                                assert(start.skip(done + consumed) =~= start.skip(done as int).skip(consumed as int));
                            }
                            return result;
                        },
                        None => {
                            proof {
                                done = (done + consumed) as nat;
                            }
                        },
                    }
                },
            }
        }
    }
}

// ---------------------------------------------------------------------------
// What the reader makes of what the writer wrote
// ---------------------------------------------------------------------------

/// A frame the writer can send and a reader accepts: its payload is within
/// the message cap, and a control frame's payload within 125 bytes.
pub open spec fn sendable(f: FrameModel) -> bool {
    match f {
        FrameModel::Text(t) => encode_utf8(t).len() <= MAX_PAYLOAD_BYTES,
        FrameModel::Binary(d) => d.len() <= MAX_PAYLOAD_BYTES,
        FrameModel::Ping(d) => d.len() <= 125,
        FrameModel::Pong(d) => d.len() <= 125,
        FrameModel::Close => true,
    }
}

proof fn lemma_header_bits(op: u8, code: u8)
    requires
        op < 16,
        code < 128,
    ensures
        (0x80u8 | op) & 0x80u8 != 0u8,
        (0x80u8 | op) & 0x0Fu8 == op,
        code & 0x80u8 == 0u8,
        code & 0x7Fu8 == code,
{
    assert((0x80u8 | op) & 0x80u8 != 0u8) by (bit_vector);
    assert((0x80u8 | op) & 0x0Fu8 == op) by (bit_vector)
        requires
            op < 16,
    ;
    assert(code & 0x80u8 == 0u8) by (bit_vector)
        requires
            code < 128,
    ;
    assert(code & 0x7Fu8 == code) by (bit_vector)
        requires
            code < 128,
    ;
}

/// Decoding the bytes of a server frame, whatever follows them, gives back the
/// frame: FIN set, the same opcode and the same payload, and exactly its bytes
/// consumed.
pub proof fn law_frame_roundtrip(op: u8, payload: Seq<u8>, rest: Seq<u8>)
    requires
        op < 16,
        payload.len() <= MAX_PAYLOAD_BYTES,
        op & 0x08u8 != 0u8 ==> payload.len() <= 125,
    ensures
        frame_outcome(encoded_frame(op, payload) + rest) == (RawOutcome::Complete {
            fin: true,
            opcode: op,
            payload,
        }),
        frame_size(encoded_frame(op, payload) + rest) == encoded_frame(op, payload).len(),
{
    let len = payload.len();
    let bytes = encoded_frame(op, payload);
    let b = bytes + rest;
    reveal_with_fuel(pow256, 9);
    if len < 126 {
        lemma_header_bits(op, len as u8);
        assert(b[0] == 0x80u8 | op);
        assert(b[1] == len as u8);
        assert(frame_ext(b) == 0);
        assert(frame_len(b) == len);
        assert(b.subrange(2, 2 + len as int) =~= payload);
    } else if len <= 65535 {
        lemma_header_bits(op, 126u8);
        lemma_be_roundtrip(len, 2);
        assert(b[0] == 0x80u8 | op);
        assert(b[1] == 126u8);
        assert(frame_ext(b) == 2);
        assert(b.subrange(2, 4) =~= be_bytes(len, 2));
        assert(frame_len(b) == len);
        assert(b.subrange(4, 4 + len as int) =~= payload);
    } else {
        lemma_header_bits(op, 127u8);
        assert(len < pow256(8));
        lemma_be_roundtrip(len, 8);
        assert(b[0] == 0x80u8 | op);
        assert(b[1] == 127u8);
        assert(frame_ext(b) == 8);
        assert(b.subrange(2, 10) =~= be_bytes(len, 8));
        assert(frame_len(b) == len);
        assert(b.subrange(10, 10 + len as int) =~= payload);
    }
}

/// What a reader gives back of what the writer wrote: the bytes of a sendable
/// frame, whatever follows them, read as that very frame, consuming exactly
/// its bytes. A control frame is read the same way in the middle of a
/// fragmented message, which stays open; a data frame arrives with none open.
pub proof fn law_read_what_was_written(f: FrameModel, open: Option<(u8, Seq<u8>)>, rest: Seq<u8>)
    requires
        sendable(f),
        (f is Text || f is Binary) ==> open is None,
    ensures
        ({
            let bytes = encoded_frame(frame_parts(f).0, frame_parts(f).1);
            read_step(bytes + rest, open) == ReadStep {
                outcome: ReadModel::Message(f),
                consumed: bytes.len(),
                open,
            }
        }),
{
    let (op, payload) = frame_parts(f);
    assert(OP_TEXT & 0x08u8 == 0u8) by (bit_vector);
    assert(OP_BINARY & 0x08u8 == 0u8) by (bit_vector);
    law_frame_roundtrip(op, payload, rest);
    if let FrameModel::Text(t) = f {
        vstd::utf8::encode_utf8_valid_utf8(t);
        vstd::utf8::encode_utf8_decode_utf8(t);
    }
}

/// The bytes of a first fragment: a server frame with its FIN bit clear.
pub open spec fn fragment_frame(opcode: u8, payload: Seq<u8>) -> Seq<u8> {
    encoded_frame(opcode, payload).update(0, opcode)
}

proof fn lemma_fragment_outcome(op: u8, payload: Seq<u8>, rest: Seq<u8>)
    requires
        op < 8,
        payload.len() <= MAX_PAYLOAD_BYTES,
    ensures
        frame_outcome(fragment_frame(op, payload) + rest) == (RawOutcome::Complete {
            fin: false,
            opcode: op,
            payload,
        }),
        frame_size(fragment_frame(op, payload) + rest) == fragment_frame(op, payload).len(),
{
    let e = encoded_frame(op, payload) + rest;
    let f = fragment_frame(op, payload) + rest;
    assert(op & 0x08u8 == 0u8) by (bit_vector)
        requires
            op < 8,
    ;
    law_frame_roundtrip(op, payload, rest);
    assert(op & 0x80u8 == 0u8) by (bit_vector)
        requires
            op < 8,
    ;
    assert(op & 0x0Fu8 == op) by (bit_vector)
        requires
            op < 8,
    ;
    assert(f =~= e.update(0, op));
    let b1 = e[1];
    if payload.len() < 126 {
        assert(b1 == payload.len() as u8);
    } else if payload.len() <= 65535 {
        assert(b1 == 126u8);
    } else {
        assert(b1 == 127u8);
    }
    assert(b1 & 0x80u8 == 0u8) by (bit_vector)
        requires
            b1 < 128,
    ;
    assert(!frame_masked(e));
    assert(f[0] == op);
    assert(f[1] == e[1]);
    assert(f.len() == e.len());
    assert(f.subrange(2, f.len() as int) =~= e.subrange(2, e.len() as int));
    assert(frame_ext(f) == frame_ext(e));
    assert(f.subrange(2, 2 + frame_ext(f) as int) =~= e.subrange(2, 2 + frame_ext(e) as int));
    assert(frame_len(f) == frame_len(e));
    assert(frame_masked(f) == frame_masked(e));
    assert(frame_start(f) == frame_start(e));
    assert(frame_size(f) == frame_size(e));
    assert(f.subrange(frame_start(f) as int, frame_size(f) as int) =~= e.subrange(
        frame_start(e) as int,
        frame_size(e) as int,
    ));
    assert(!frame_fin(f));
    assert(frame_opcode(f) == op);
    assert(frame_outcome(f) == (RawOutcome::Complete { fin: false, opcode: op, payload }));
}

/// A control frame arriving in the middle of a fragmented message is handed
/// over at once, and the message stays open: after a first fragment and a
/// ping, the reader gives the ping; the final continuation then completes the
/// message from both fragments.
pub proof fn law_control_frame_keeps_fragment(op: u8, a: Seq<u8>, p: Seq<u8>, b: Seq<u8>, rest: Seq<u8>)
    requires
        op == OP_TEXT || op == OP_BINARY,
        a.len() + b.len() <= MAX_PAYLOAD_BYTES,
        p.len() <= 125,
    ensures
        ({
            let first = fragment_frame(op, a);
            let ping = encoded_frame(OP_PING, p);
            let last = encoded_frame(OP_CONTINUATION, b);
            &&& read_step(first + ping + last + rest, None) == ReadStep {
                outcome: ReadModel::Message(FrameModel::Ping(p)),
                consumed: first.len() + ping.len(),
                open: Some((op, a)),
            }
            &&& read_step(last + rest, Some((op, a))) == ReadStep {
                outcome: finish_spec(op, a + b),
                consumed: last.len(),
                open: None,
            }
        }),
{
    let first = fragment_frame(op, a);
    let ping = encoded_frame(OP_PING, p);
    let last = encoded_frame(OP_CONTINUATION, b);
    let all = first + ping + last + rest;
    assert(all =~= first + (ping + (last + rest)));
    lemma_fragment_outcome(op, a, ping + (last + rest));
    assert(all.skip(first.len() as int) =~= ping + (last + rest));
    law_read_what_was_written(FrameModel::Ping(p), Some((op, a)), last + rest);
    assert(frame_parts(FrameModel::Ping(p)) == (OP_PING, p));
    assert(OP_CONTINUATION & 0x08u8 == 0u8) by (bit_vector);
    law_frame_roundtrip(OP_CONTINUATION, b, rest);
}

} // verus!
