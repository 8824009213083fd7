//! The client's side of an RPC: the request frame, and the reading of the
//! reply stream up to its terminator.
//!
//! The reply is read chunk by chunk. Each `DATA` frame is handed to the
//! caller; an `END` frame is handed over too and ends the call; an `ERROR`
//! frame ends it with the server's error. Reading the socket and calling
//! back are the caller's.

use bytes::BytesMut;
use vstd::prelude::*;
use vstd::slice::slice_subrange;
use vstd::string::*;

use crate::buffer::{buffer_bytes, buffer_len};
use crate::payload::{error_fields, parse_error_fields, push_all};
use vstd::slice::slice_to_vec;
use crate::rpc::{server_event, ProtocolViolation, RpcEvent, RpcState};
use crate::theorems::lemma_parse_settled;
use crate::protocol::{
    encode_fault, encode_msg, frame_size, lemma_parse_outcome, spec_encode, spec_parse, views,
    DataView, FastEncodeError, FastMessage, FastMessageData, FastMessageId, FastMessageServerError,
    FastMessageStatus, FastMessageType, FastParseError, MessageView, FP_MSGID_MODULUS,
};

verus! {

/// Why a call failed.
#[derive(Debug, Clone)]
pub enum ClientError {
    /// The reply stream broke the format.
    Parse(FastParseError),
    /// The server answered with an `ERROR` frame.
    Remote(FastMessageServerError),
    /// A frame broke the protocol.
    Protocol(ProtocolViolation),
}

/// The request frame for a call of `method` with arguments `args` (JSON
/// text), with id `id` and time `uts`.
pub open spec fn request_view(id: u32, method: Seq<char>, args: Seq<char>, uts: u64) -> MessageView {
    MessageView {
        msg_type: FastMessageType::Json,
        status: FastMessageStatus::Data,
        id,
        msg_size: None,
        data: DataView { name: method, uts: Some(uts), d: args },
    }
}

/// Appending the frame of `m` to the bytes `prior` left `after` and gave
/// `r`: the frame's length, or the reason it could not be written, with
/// nothing appended.
pub open spec fn written(prior: Seq<u8>, after: Seq<u8>, r: Result<usize, FastEncodeError>, m: MessageView) -> bool {
    match encode_fault(prior, m) {
        Some(e) => r == Err::<usize, FastEncodeError>(e) && after == prior,
        None => r == Ok::<usize, FastEncodeError>(spec_encode(m)->Some_0.len() as usize) && after == prior
            + spec_encode(m)->Some_0,
    }
}

/// Take the next id from `msg_id` and append the `DATA` frame that calls
/// `method` with `args` (JSON text) to `buf`; the result is the number of
/// bytes appended. On failure `buf` is left as it was.
pub fn prepare_request(method: String, args: String, msg_id: &mut FastMessageId, buf: &mut BytesMut) -> (r: Result<usize, FastEncodeError>)
    ensures
        final(msg_id)@ == (old(msg_id)@ + 1) % (FP_MSGID_MODULUS as nat),
        exists|uts: u64|
            written(
                buffer_bytes(*old(buf)),
                buffer_bytes(*final(buf)),
                r,
                #[trigger] request_view(old(msg_id)@ as u32, method@, args@, uts),
            ),
{
    let ghost prior = buffer_bytes(*buf);
    let ghost start = msg_id@;
    let id = msg_id.next();
    let msg = FastMessage::data(id, FastMessageData::new(method, args));
    let ghost m = request_view(start as u32, method@, args@, msg.data.m.uts->Some_0);
    assert(m == msg@);
    let before = buffer_len(buf);
    let r = match encode_msg(&msg, buf) {
        Ok(()) => {
            let after = buffer_len(buf);
            Ok(after - before)
        },
        Err(e) => Err(e),
    };
    assert(written(prior, buffer_bytes(*buf), r, m));
    r
}

/// The error that stands in for an `ERROR` frame whose value is not an
/// error object.
pub fn unspecified_error() -> (r: FastMessageServerError)
    ensures
        r.name@ == "UnspecifiedServerError"@,
        r.message@ == "Server reported unspecified error."@,
{
    FastMessageServerError::new("UnspecifiedServerError", "Server reported unspecified error.")
}

/// The name and message of the error that an `ERROR` frame with value `d`
/// reports.
pub open spec fn reported_error(d: Seq<char>) -> (Seq<char>, Seq<char>) {
    match error_fields(d) {
        Some(f) => f,
        None => ("UnspecifiedServerError"@, "Server reported unspecified error."@),
    }
}

/// How a scan of the reply bytes ended.
pub enum ScanEnd {
    /// The bytes ran out before a terminator; the given number were used.
    Wait(nat),
    /// An `END` frame was read.
    Done,
    /// An `ERROR` frame was read, reporting this name and message.
    Remote(Seq<char>, Seq<char>),
    /// The bytes break the format.
    Failed(FastParseError),
    /// A frame of another RPC came: with no request open under its id, any
    /// server frame breaks the protocol.
    Violation(ProtocolViolation),
}

/// The violation that a server frame with status `st` is, for an id with no
/// request open.
pub open spec fn stray_frame(st: FastMessageStatus) -> ProtocolViolation {
    ProtocolViolation { state: RpcState::Idle, event: server_event(st) }
}

/// Reading reply bytes `b` from the front: the frames handed to the caller,
/// and how the reading ended. Reading stops at the first terminator. Where
/// `expect` names the outstanding request's id, a frame with another id
/// stops the reading as a protocol violation.
pub open spec fn scan_reply(b: Seq<u8>, verify_crc: bool, expect: Option<u32>) -> (Seq<MessageView>, ScanEnd)
    decreases b.len(),
{
    match spec_parse(b, verify_crc) {
        Err(FastParseError::NotEnoughBytes(_)) => (Seq::empty(), ScanEnd::Wait(0)),
        Err(e) => (Seq::empty(), ScanEnd::Failed(e)),
        Ok(m) => if frame_size(b) > b.len() {
            (Seq::empty(), ScanEnd::Wait(0))
        } else if expect matches Some(x) && m.id != x {
            (Seq::empty(), ScanEnd::Violation(stray_frame(m.status)))
        } else {
            match m.status {
                FastMessageStatus::Data => {
                    let n = frame_size(b);
                    let (ms, end) = scan_reply(b.subrange(n as int, b.len() as int), verify_crc, expect);
                    (
                        seq![m] + ms,
                        match end {
                            ScanEnd::Wait(used) => ScanEnd::Wait(n + used),
                            other => other,
                        },
                    )
                },
                FastMessageStatus::End => (seq![m], ScanEnd::Done),
                FastMessageStatus::Error => {
                    let (name, message) = reported_error(m.data.d);
                    (Seq::empty(), ScanEnd::Remote(name, message))
                },
            }
        },
    }
}

/// How reading reply bytes ended, as values.
#[derive(Debug, Clone)]
pub enum BufferAction {
    /// Keep reading; the given number of bytes at the front were used.
    Trim(usize),
    /// The reply ended with an `END` frame.
    Done,
    /// The server reported an error.
    Remote(FastMessageServerError),
    /// The reply broke the format.
    Failed(FastParseError),
    /// A frame of another RPC came.
    Violation(ProtocolViolation),
}

pub open spec fn action_matches(a: BufferAction, e: ScanEnd) -> bool {
    match (a, e) {
        (BufferAction::Trim(n), ScanEnd::Wait(m)) => n as nat == m,
        (BufferAction::Done, ScanEnd::Done) => true,
        (BufferAction::Remote(x), ScanEnd::Remote(n, m)) => x.name@ == n && x.message@ == m,
        (BufferAction::Failed(x), ScanEnd::Failed(y)) => x == y,
        (BufferAction::Violation(x), ScanEnd::Violation(y)) => x == y,
        _ => false,
    }
}

/// Read the reply bytes in `read_buf` as `scan_reply` does.
pub fn parse_and_handle_messages(read_buf: &[u8], verify_crc: bool, expect: Option<u32>) -> (r: (Vec<FastMessage>, BufferAction))
    ensures
        views(r.0@) == scan_reply(read_buf@, verify_crc, expect).0,
        action_matches(r.1, scan_reply(read_buf@, verify_crc, expect).1),
{
    let len = read_buf.len();
    let mut frames: Vec<FastMessage> = Vec::new();
    let mut offset: usize = 0;
    assert(read_buf@.subrange(0, len as int) =~= read_buf@);
    assert(views(frames@) =~= Seq::<MessageView>::empty());
    loop
        invariant
            len == read_buf@.len(),
            offset <= len,
            ({
                let whole = scan_reply(read_buf@, verify_crc, expect);
                let rest = scan_reply(read_buf@.subrange(offset as int, len as int), verify_crc, expect);
                &&& whole.0 == views(frames@) + rest.0
                &&& match rest.1 {
                    ScanEnd::Wait(used) => whole.1 == ScanEnd::Wait((offset + used) as nat),
                    other => whole.1 == other,
                }
            }),
        decreases len - offset,
    {
        let ghost rb = read_buf@.subrange(offset as int, len as int);
        proof {
            lemma_parse_outcome(rb, verify_crc);
        }
        match FastMessage::parse_with(slice_subrange(read_buf, offset, len), verify_crc) {
            Ok(m) => {
                let n = match m.msg_size {
                    Some(n) => n,
                    None => { return (frames, BufferAction::Trim(offset)); },
                };
                if let Some(x) = expect {
                    if m.id != x {
                        let e = RpcEvent::of_server_status(m.status);
                        let v = match RpcState::Idle.advance(e) {
                            Err(v) => v,
                            Ok(_) => ProtocolViolation { state: RpcState::Idle, event: e },
                        };
                        return (frames, BufferAction::Violation(v));
                    }
                }
                match m.status {
                    FastMessageStatus::Data => {
                        assert(rb.subrange(n as int, rb.len() as int) =~= read_buf@.subrange(offset + n, len as int));
                        let ghost before = frames@;
                        frames.push(m);
                        assert(views(frames@) =~= views(before) + seq![m@]);
                        offset = offset + n;
                    },
                    FastMessageStatus::End => {
                        let ghost before = frames@;
                        frames.push(m);
                        assert(views(frames@) =~= views(before) + seq![m@]);
                        return (frames, BufferAction::Done);
                    },
                    FastMessageStatus::Error => {
                        let err = match parse_error_fields(m.data.d.as_str()) {
                            Some((name, message)) => FastMessageServerError { name, message },
                            None => unspecified_error(),
                        };
                        return (frames, BufferAction::Remote(err));
                    },
                }
            },
            Err(FastParseError::NotEnoughBytes(_)) => {
                return (frames, BufferAction::Trim(offset));
            },
            Err(e) => {
                return (frames, BufferAction::Failed(e));
            },
        }
    }
}

/// What became of the call after a chunk was read.
#[derive(Debug, Clone)]
pub enum ReadOutcome {
    /// The reply goes on: read more.
    Continue,
    /// The reply ended; the given number of bytes were read in all.
    Done(usize),
    /// The call failed.
    Failed(ClientError),
}

/// The frames to hand to the caller, in order, and what became of the call.
#[derive(Debug, Clone)]
pub struct ReadStep {
    pub frames: Vec<FastMessage>,
    pub outcome: ReadOutcome,
}

/// The reading of one reply: the bytes read but not yet used, and the
/// number of bytes read so far.
#[derive(Debug)]
pub struct ReplyReader {
    held: Vec<u8>,
    total: usize,
    verify_crc: bool,
    expect: Option<u32>,
}

impl ReplyReader {
    /// The bytes read and not yet used.
    pub closed spec fn held(&self) -> Seq<u8> {
        self.held@
    }

    /// The number of bytes read so far.
    pub closed spec fn total(&self) -> usize {
        self.total
    }

    /// Whether checksum mismatches fail the call.
    pub closed spec fn checks_crc(&self) -> bool {
        self.verify_crc
    }

    /// The id of the outstanding request, where the reader knows it.
    pub closed spec fn expected_id(&self) -> Option<u32> {
        self.expect
    }

    /// A reader that has read nothing, rejects checksum mismatches, and
    /// takes frames of any id.
    pub fn new() -> (r: ReplyReader)
        ensures
            r.held() == Seq::<u8>::empty(),
            r.total() == 0,
            r.checks_crc(),
            r.expected_id() is None,
    {
        ReplyReader { held: Vec::new(), total: 0, verify_crc: true, expect: None }
    }

    /// A reader that has read nothing, rejects checksum mismatches, and
    /// fails on a frame whose id is not `id`.
    pub fn for_id(id: u32) -> (r: ReplyReader)
        ensures
            r.held() == Seq::<u8>::empty(),
            r.total() == 0,
            r.checks_crc(),
            r.expected_id() == Some(id),
    {
        ReplyReader { held: Vec::new(), total: 0, verify_crc: true, expect: Some(id) }
    }

    /// A reader that has read nothing, ignores checksums, and takes frames
    /// of any id.
    pub fn legacy() -> (r: ReplyReader)
        ensures
            r.held() == Seq::<u8>::empty(),
            r.total() == 0,
            !r.checks_crc(),
            r.expected_id() is None,
    {
        ReplyReader { held: Vec::new(), total: 0, verify_crc: false, expect: None }
    }

    /// Take in the bytes of one read. The frames read up to the reply's
    /// terminator are returned to be handed to the caller; bytes of a frame
    /// not yet whole are kept for the next read.
    pub fn on_read(&mut self, chunk: &[u8]) -> (r: ReadStep)
        ensures
            final(self).checks_crc() == old(self).checks_crc(),
            final(self).expected_id() == old(self).expected_id(),
            final(self).total() == old(self).total().saturating_add(chunk@.len() as usize),
            ({
                let b = old(self).held() + chunk@;
                let (ms, end) = scan_reply(b, old(self).checks_crc(), old(self).expected_id());
                &&& views(r.frames@) == ms
                &&& match end {
                    ScanEnd::Wait(used) => r.outcome is Continue && final(self).held() == b.subrange(used as int, b.len() as int),
                    ScanEnd::Done => r.outcome matches ReadOutcome::Done(n) && n == final(self).total(),
                    ScanEnd::Remote(name, message) => r.outcome matches ReadOutcome::Failed(ClientError::Remote(e))
                        && e.name@ == name && e.message@ == message,
                    ScanEnd::Failed(e) => r.outcome matches ReadOutcome::Failed(ClientError::Parse(x)) && x == e,
                    ScanEnd::Violation(v) => r.outcome matches ReadOutcome::Failed(ClientError::Protocol(x)) && x == v,
                }
            }),
    {
        self.total = self.total.saturating_add(chunk.len());
        let mut b: Vec<u8> = Vec::new();
        push_all(&mut b, self.held.as_slice());
        push_all(&mut b, chunk);
        let (frames, action) = parse_and_handle_messages(b.as_slice(), self.verify_crc, self.expect);
        let outcome = match action {
            BufferAction::Trim(used) => {
                proof {
                    lemma_scan_used_bound(b@, self.verify_crc, self.expect);
                }
                self.held = slice_to_vec(slice_subrange(b.as_slice(), used, b.len()));
                ReadOutcome::Continue
            },
            BufferAction::Done => ReadOutcome::Done(self.total),
            BufferAction::Remote(e) => ReadOutcome::Failed(ClientError::Remote(e)),
            BufferAction::Failed(e) => ReadOutcome::Failed(ClientError::Parse(e)),
            BufferAction::Violation(v) => ReadOutcome::Failed(ClientError::Protocol(v)),
        };
        ReadStep { frames, outcome }
    }
}

/// A scan that waits for more bytes has used no more bytes than there are.
pub proof fn lemma_scan_used_bound(b: Seq<u8>, verify_crc: bool, expect: Option<u32>)
    ensures
        scan_reply(b, verify_crc, expect).1 matches ScanEnd::Wait(used) ==> used <= b.len(),
    decreases b.len(),
{
    lemma_parse_outcome(b, verify_crc);
    if let Ok(m) = spec_parse(b, verify_crc) {
        if frame_size(b) <= b.len() {
            lemma_scan_used_bound(b.subrange(frame_size(b) as int, b.len() as int), verify_crc, expect);
        }
    }
}

/// How a scan ended, counting `n` more bytes used before it.
pub open spec fn shifted(end: ScanEnd, n: nat) -> ScanEnd {
    match end {
        ScanEnd::Wait(used) => ScanEnd::Wait(n + used),
        other => other,
    }
}

/// The bytes that a waiting scan of `b` leaves unused hold no whole frame.
pub proof fn lemma_scan_rest(b: Seq<u8>, verify_crc: bool, expect: Option<u32>)
    requires
        scan_reply(b, verify_crc, expect).1 is Wait,
    ensures
        scan_reply(b, verify_crc, expect).1->Wait_0 <= b.len(),
        scan_reply(b.subrange(scan_reply(b, verify_crc, expect).1->Wait_0 as int, b.len() as int), verify_crc, expect)
            == (Seq::<MessageView>::empty(), ScanEnd::Wait(0)),
    decreases b.len(),
{
    lemma_parse_outcome(b, verify_crc);
    match spec_parse(b, verify_crc) {
        Ok(m) => {
            let n = frame_size(b);
            let r = b.subrange(n as int, b.len() as int);
            lemma_scan_rest(r, verify_crc, expect);
            let u = scan_reply(r, verify_crc, expect).1->Wait_0;
            assert(b.subrange((n + u) as int, b.len() as int) =~= r.subrange(u as int, r.len() as int));
        },
        Err(_) => {
            assert(b.subrange(0, b.len() as int) =~= b);
        },
    }
}

/// A scan that ended at a terminator or an error ends there still when more
/// bytes follow.
pub proof fn lemma_scan_stops(b: Seq<u8>, x: Seq<u8>, verify_crc: bool, expect: Option<u32>)
    requires
        !(scan_reply(b, verify_crc, expect).1 is Wait),
    ensures
        scan_reply(b + x, verify_crc, expect) == scan_reply(b, verify_crc, expect),
    decreases b.len(),
{
    lemma_parse_outcome(b, verify_crc);
    lemma_parse_settled(b, x, verify_crc);
    if let Ok(m) = spec_parse(b, verify_crc) {
        let n = frame_size(b);
        let r = b.subrange(n as int, b.len() as int);
        assert((b + x).subrange(n as int, (b + x).len() as int) =~= r + x);
        if m.status == FastMessageStatus::Data && !(expect matches Some(id) && m.id != id) {
            lemma_scan_stops(r, x, verify_crc, expect);
        }
    }
}

/// Bytes read after a scan that waits continue it: the frames already read
/// stay, and the rest is read as if it followed the unused bytes alone.
pub proof fn lemma_scan_append(b: Seq<u8>, x: Seq<u8>, verify_crc: bool, expect: Option<u32>)
    requires
        scan_reply(b, verify_crc, expect).1 is Wait,
    ensures
        ({
            let (ms, end) = scan_reply(b, verify_crc, expect);
            let used = end->Wait_0;
            let next = scan_reply(b.subrange(used as int, b.len() as int) + x, verify_crc, expect);
            scan_reply(b + x, verify_crc, expect) == (ms + next.0, shifted(next.1, used))
        }),
    decreases b.len(),
{
    lemma_parse_outcome(b, verify_crc);
    lemma_scan_rest(b, verify_crc, expect);
    match spec_parse(b, verify_crc) {
        Ok(m) => {
            let n = frame_size(b);
            let r = b.subrange(n as int, b.len() as int);
            lemma_parse_settled(b, x, verify_crc);
            assert((b + x).subrange(n as int, (b + x).len() as int) =~= r + x);
            lemma_scan_append(r, x, verify_crc, expect);
            lemma_scan_rest(r, verify_crc, expect);
            let (ms_r, end_r) = scan_reply(r, verify_crc, expect);
            let u = end_r->Wait_0;
            assert(b.subrange((n + u) as int, b.len() as int) =~= r.subrange(u as int, r.len() as int));
            let next = scan_reply(r.subrange(u as int, r.len() as int) + x, verify_crc, expect);
            assert(seq![m] + (ms_r + next.0) =~= (seq![m] + ms_r) + next.0);
            assert(shifted(shifted(next.1, u), n) == shifted(next.1, (n + u) as nat));
        },
        Err(_) => {
            assert(b.subrange(0, b.len() as int) =~= b);
            let next = scan_reply(b + x, verify_crc, expect);
            assert(Seq::<MessageView>::empty() + next.0 =~= next.0);
            assert(shifted(next.1, 0) == next.1);
        },
    }
}

/// A reader that holds `held` and is given the chunks in order: the frames
/// it hands over, how it ends (`Wait(0)` where it still reads), and the
/// bytes it then holds.
pub open spec fn read_chunks(held: Seq<u8>, chunks: Seq<Seq<u8>>, verify_crc: bool, expect: Option<u32>) -> (Seq<MessageView>, ScanEnd, Seq<u8>)
    decreases chunks.len(),
{
    if chunks.len() == 0 {
        (Seq::empty(), ScanEnd::Wait(0), held)
    } else {
        let b = held + chunks[0];
        let (ms, end) = scan_reply(b, verify_crc, expect);
        match end {
            ScanEnd::Wait(used) => {
                let (more, fin, rest) = read_chunks(b.subrange(used as int, b.len() as int), chunks.drop_first(), verify_crc, expect);
                (ms + more, fin, rest)
            },
            other => (ms, other, b),
        }
    }
}

/// However a reply is cut into reads, the reader hands over the frames that
/// reading it in one piece would, and ends the same way.
#[verifier::rlimit(40)]
pub proof fn lemma_read_chunks(held: Seq<u8>, chunks: Seq<Seq<u8>>, verify_crc: bool, expect: Option<u32>)
    requires
        scan_reply(held, verify_crc, expect) == (Seq::<MessageView>::empty(), ScanEnd::Wait(0)),
    ensures
        ({
            let whole = held + chunks.flatten();
            let (ms, end) = scan_reply(whole, verify_crc, expect);
            let (got, fin, rest) = read_chunks(held, chunks, verify_crc, expect);
            &&& got == ms
            &&& match end {
                ScanEnd::Wait(used) => fin == ScanEnd::Wait(0) && rest == whole.subrange(used as int, whole.len() as int),
                other => fin == other,
            }
        }),
    decreases chunks.len(),
{
    if chunks.len() == 0 {
        assert(held + chunks.flatten() =~= held);
        assert(held.subrange(0, held.len() as int) =~= held);
    } else {
        let b = held + chunks[0];
        let t = chunks.drop_first().flatten();
        let whole = held + chunks.flatten();
        assert(whole =~= b + t);
        let (ms_b, end_b) = scan_reply(b, verify_crc, expect);
        if end_b is Wait {
            let u = end_b->Wait_0;
            let rest_b = b.subrange(u as int, b.len() as int);
            lemma_scan_append(b, t, verify_crc, expect);
            lemma_scan_rest(b, verify_crc, expect);
            lemma_read_chunks(rest_b, chunks.drop_first(), verify_crc, expect);
            let next = scan_reply(rest_b + t, verify_crc, expect);
            if next.1 is Wait {
                let u2 = next.1->Wait_0;
                lemma_scan_rest(rest_b + t, verify_crc, expect);
                assert(whole.subrange((u + u2) as int, whole.len() as int) =~= (rest_b + t).subrange(
                    u2 as int,
                    (rest_b + t).len() as int,
                ));
            }
        } else {
            lemma_scan_stops(b, t, verify_crc, expect);
        }
    }
}

} // verus!
