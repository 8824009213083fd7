//! The Fast frame: its types, its byte layout, and the codec that turns
//! messages into bytes and bytes into messages.
//!
//! A frame is a 15-byte header (version, type, status, message id, payload
//! checksum, payload length; integers big-endian) followed by the payload, a
//! JSON object `{"m": {"name": .., "uts": ..}, "d": ..}`.

use std::time::UNIX_EPOCH;

use bytes::BytesMut;
use vstd::prelude::*;

use crate::buffer::{
    buffer_advance, buffer_bytes, buffer_extend, buffer_len, buffer_put_u32, buffer_put_u8,
    buffer_reserve, buffer_slice,
};
use crate::checksum::{crc16_arc, crc16_of};
use crate::payload::{decode_payload, encode_payload, parse_payload, payload_of};
use crate::wire::{be32_bytes, be32_value, read_be_u32};
use vstd::slice::slice_subrange;
use vstd::string::*;

verus! {

/// Offset of the type byte.
pub const FP_OFF_TYPE: usize = 1;
/// Offset of the status byte.
pub const FP_OFF_STATUS: usize = 2;
/// Offset of the message id.
pub const FP_OFF_MSGID: usize = 3;
/// Offset of the payload checksum.
pub const FP_OFF_CRC: usize = 7;
/// Offset of the payload length.
pub const FP_OFF_DATALEN: usize = 11;
/// Offset of the payload.
pub const FP_OFF_DATA: usize = 15;
/// The size of a Fast message header.
pub const FP_HEADER_SZ: usize = 15;
/// The protocol revision that every frame carries in its first byte.
pub const FP_VERSION_CURRENT: u8 = 1;
/// Message ids live in `0 .. FP_MSGID_MODULUS`.
pub const FP_MSGID_MODULUS: u32 = 0x7fff_ffff;

/// The Type field of a Fast message. JSON is the only one defined.
#[derive(Debug, Clone, Copy, PartialEq, Eq, Structural)]
pub enum FastMessageType {
    Json,
}

/// The Status field of a Fast message.
#[derive(Debug, Clone, Copy, PartialEq, Eq, Structural)]
pub enum FastMessageStatus {
    Data,
    End,
    Error,
}

/// The byte that stands for a message type on the wire.
pub open spec fn type_byte(t: FastMessageType) -> u8 {
    match t {
        FastMessageType::Json => 1,
    }
}

/// The byte that stands for a status on the wire.
pub open spec fn status_byte(s: FastMessageStatus) -> u8 {
    match s {
        FastMessageStatus::Data => 1,
        FastMessageStatus::End => 2,
        FastMessageStatus::Error => 3,
    }
}

/// The message type that a wire byte stands for, if any.
pub open spec fn type_of_byte(b: u8) -> Option<FastMessageType> {
    if b == 1 {
        Some(FastMessageType::Json)
    } else {
        None
    }
}

/// The status that a wire byte stands for, if any.
pub open spec fn status_of_byte(b: u8) -> Option<FastMessageStatus> {
    if b == 1 {
        Some(FastMessageStatus::Data)
    } else if b == 2 {
        Some(FastMessageStatus::End)
    } else if b == 3 {
        Some(FastMessageStatus::Error)
    } else {
        None
    }
}

impl FastMessageType {
    pub fn from_u8(b: u8) -> (r: Option<FastMessageType>)
        ensures
            r == type_of_byte(b),
    {
        if b == 1 {
            Some(FastMessageType::Json)
        } else {
            None
        }
    }

    pub fn to_u8(&self) -> (r: u8)
        ensures
            r == type_byte(*self),
    {
        match self {
            FastMessageType::Json => 1,
        }
    }
}

impl FastMessageStatus {
    pub fn from_u8(b: u8) -> (r: Option<FastMessageStatus>)
        ensures
            r == status_of_byte(b),
    {
        if b == 1 {
            Some(FastMessageStatus::Data)
        } else if b == 2 {
            Some(FastMessageStatus::End)
        } else if b == 3 {
            Some(FastMessageStatus::Error)
        } else {
            None
        }
    }

    pub fn to_u8(&self) -> (r: u8)
        ensures
            r == status_byte(*self),
    {
        match self {
            FastMessageStatus::Data => 1,
            FastMessageStatus::End => 2,
            FastMessageStatus::Error => 3,
        }
    }
}

/// What part of a frame was not understood.
#[derive(Debug, Clone, Copy, PartialEq, Eq, Structural)]
pub enum Malformation {
    Version,
    MessageType,
    Status,
    Payload,
}

/// A failure to parse a buffer as a Fast message.
#[derive(Debug, Clone, Copy, PartialEq, Eq, Structural)]
pub enum FastParseError {
    /// The buffer, of the given length, does not yet hold a whole frame.
    NotEnoughBytes(usize),
    /// The frame breaks the format.
    Malformed(Malformation),
    /// The payload's CRC-16/ARC differs from the header's.
    ChecksumMismatch,
}

/// A failure to encode a message.
#[derive(Debug, Clone, Copy, PartialEq, Eq, Structural)]
pub enum FastEncodeError {
    /// The payload could not be serialized.
    Serialize,
    /// The payload is longer than a 32-bit length can say.
    PayloadTooLarge,
    /// The output buffer cannot grow by the frame's size.
    BufferFull,
}

/// The source of message ids for one connection: `0, 1, 2, ...` through
/// `FP_MSGID_MODULUS - 1`, then `0` again.
///
/// It does not track which ids are in flight: a connection that keeps more
/// than `FP_MSGID_MODULUS` requests open at once would reuse an id.
#[derive(Debug)]
pub struct FastMessageId {
    current: u32,
}

impl View for FastMessageId {
    type V = nat;

    closed spec fn view(&self) -> nat {
        self.current as nat
    }
}

impl FastMessageId {
    #[verifier::type_invariant]
    spec fn in_range(&self) -> bool {
        self.current < FP_MSGID_MODULUS
    }

    /// A source whose first id is 0.
    pub fn new() -> (r: FastMessageId)
        ensures
            r@ == 0,
    {
        FastMessageId { current: 0 }
    }

    /// The current id; the source moves on to the next one.
    pub fn next(&mut self) -> (r: u32)
        ensures
            r == old(self)@,
            r < FP_MSGID_MODULUS,
            final(self)@ == (old(self)@ + 1) % (FP_MSGID_MODULUS as nat),
    {
        proof {
            use_type_invariant(&*self);
        }
        let id = self.current;
        self.current = if id + 1 == FP_MSGID_MODULUS {
            0
        } else {
            id + 1
        };
        id
    }
}

/// An error that a Fast server reported in an `ERROR` frame.
#[derive(Debug, Clone)]
pub struct FastMessageServerError {
    pub name: String,
    pub message: String,
}

impl FastMessageServerError {
    /// An error with the given name and message.
    pub fn new(name: &str, message: &str) -> (r: FastMessageServerError)
        ensures
            r.name@ == name@,
            r.message@ == message@,
    {
        FastMessageServerError { name: String::from_str(name), message: String::from_str(message) }
    }

    /// The error as one line: `"<name>: <message>"`.
    pub fn to_message(&self) -> (r: String)
        ensures
            r@ == self.name@ + ": "@ + self.message@,
    {
        self.name.clone().concat(": ").concat(self.message.as_str())
    }
}

/// Relies on std's `SystemTime::elapsed`, from `UNIX_EPOCH`: microseconds
/// since the Unix epoch, or zero for a clock set before it.
#[verifier::external_body]
pub(crate) fn now_micros() -> (r: u64) {
    UNIX_EPOCH.elapsed().map(|d| d.as_micros() as u64).unwrap_or(0)
}

/// The `m` member of a payload: the RPC method name and the time the message
/// was made, in microseconds since the Unix epoch.
#[derive(Debug, Clone)]
pub struct FastMessageMetaData {
    pub uts: Option<u64>,
    pub name: String,
}

impl FastMessageMetaData {
    /// Metadata for method `n`, stamped with the current time.
    pub fn new(n: String) -> (r: FastMessageMetaData)
        ensures
            r.name@ == n@,
            r.uts is Some,
    {
        FastMessageMetaData { uts: Some(now_micros()), name: n }
    }
}

/// A payload: the metadata `m` and the JSON text of the value `d`.
///
/// `d` is held as JSON text: an array of arguments or emitted values, or an
/// error object `{"name": .., "message": ..}`.
#[derive(Debug, Clone)]
pub struct FastMessageData {
    pub m: FastMessageMetaData,
    pub d: String,
}

/// A payload as plain values.
pub struct DataView {
    pub name: Seq<char>,
    pub uts: Option<u64>,
    pub d: Seq<char>,
}

impl View for FastMessageData {
    type V = DataView;

    open spec fn view(&self) -> DataView {
        DataView { name: self.m.name@, uts: self.m.uts, d: self.d@ }
    }
}

impl FastMessageData {
    /// A payload for method `n` with value `d`, stamped with the current time.
    pub fn new(n: String, d: String) -> (r: FastMessageData)
        ensures
            r@.name == n@,
            r@.d == d@,
            r@.uts is Some,
    {
        FastMessageData { m: FastMessageMetaData::new(n), d }
    }
}

/// A Fast message: the header fields and the payload.
#[derive(Debug, Clone)]
pub struct FastMessage {
    /// The Type field of the Fast message
    pub msg_type: FastMessageType,
    /// The Status field of the Fast message
    pub status: FastMessageStatus,
    /// The Fast message identifier
    pub id: u32,
    /// The size on the wire of a parsed message, header included
    pub msg_size: Option<usize>,
    /// The data payload of the Fast message
    pub data: FastMessageData,
}

/// A message as plain values.
pub struct MessageView {
    pub msg_type: FastMessageType,
    pub status: FastMessageStatus,
    pub id: u32,
    pub msg_size: Option<usize>,
    pub data: DataView,
}

impl View for FastMessage {
    type V = MessageView;

    open spec fn view(&self) -> MessageView {
        MessageView {
            msg_type: self.msg_type,
            status: self.status,
            id: self.id,
            msg_size: self.msg_size,
            data: self.data@,
        }
    }
}

impl PartialEq for FastMessage {
    fn eq(&self, other: &FastMessage) -> (r: bool) {
        let same_size = match (self.msg_size, other.msg_size) {
            (Some(a), Some(b)) => a == b,
            (None, None) => true,
            _ => false,
        };
        let same_uts = match (self.data.m.uts, other.data.m.uts) {
            (Some(a), Some(b)) => a == b,
            (None, None) => true,
            _ => false,
        };
        self.msg_type == other.msg_type && self.status == other.status && self.id == other.id
            && same_size && same_uts && self.data.m.name == other.data.m.name && self.data.d
            == other.data.d
    }
}

impl vstd::std_specs::cmp::PartialEqSpecImpl for FastMessage {
    open spec fn obeys_eq_spec() -> bool {
        true
    }

    open spec fn eq_spec(&self, other: &FastMessage) -> bool {
        self@ == other@
    }
}

/// The header of a Fast message.
#[derive(Debug, Clone, Copy)]
pub struct FastMessageHeader {
    /// The Type field of the Fast message
    pub msg_type: FastMessageType,
    /// The Status field of the Fast message
    pub status: FastMessageStatus,
    /// The Fast message identifier
    pub id: u32,
    /// The CRC16 check value of the Fast message data payload
    pub crc: u32,
    /// The length in bytes of the Fast message data payload
    pub data_len: usize,
}

/// The payload length that the header at the start of `b` gives.
pub open spec fn data_len_field(b: Seq<u8>) -> nat {
    be32_value(b.subrange(11, 15)) as nat
}

/// The size of the frame at the start of `b`, as its header gives it.
pub open spec fn frame_size(b: Seq<u8>) -> nat {
    15 + data_len_field(b)
}

/// The header fields at the start of `b` (at least 15 bytes), or what is
/// wrong with them.
pub open spec fn spec_header(b: Seq<u8>) -> Result<FastMessageHeader, FastParseError> {
    if b[0] != FP_VERSION_CURRENT {
        Err(FastParseError::Malformed(Malformation::Version))
    } else if type_of_byte(b[1]) is None {
        Err(FastParseError::Malformed(Malformation::MessageType))
    } else if status_of_byte(b[2]) is None {
        Err(FastParseError::Malformed(Malformation::Status))
    } else {
        Ok(
            FastMessageHeader {
                msg_type: type_of_byte(b[1])->Some_0,
                status: status_of_byte(b[2])->Some_0,
                id: be32_value(b.subrange(3, 7)),
                crc: be32_value(b.subrange(7, 11)),
                data_len: data_len_field(b) as usize,
            },
        )
    }
}

/// The payload of the frame at the start of `b`.
pub open spec fn frame_payload(b: Seq<u8>) -> Seq<u8> {
    b.subrange(15, frame_size(b) as int)
}

/// What parsing the bytes `b` gives. With `verify_crc` a payload whose
/// checksum differs from the header's is rejected; without it, the checksum
/// is ignored.
#[verifier::opaque]
pub open spec fn spec_parse(b: Seq<u8>, verify_crc: bool) -> Result<MessageView, FastParseError> {
    if b.len() < 15 {
        Err(FastParseError::NotEnoughBytes(b.len() as usize))
    } else {
        match spec_header(b) {
            Err(e) => Err(e),
            Ok(h) => if b.len() < frame_size(b) {
                Err(FastParseError::NotEnoughBytes(b.len() as usize))
            } else if verify_crc && crc16_arc(frame_payload(b)) as u32 != h.crc {
                Err(FastParseError::ChecksumMismatch)
            } else {
                match decode_payload(frame_payload(b)) {
                    None => Err(FastParseError::Malformed(Malformation::Payload)),
                    Some(data) => Ok(
                        MessageView {
                            msg_type: h.msg_type,
                            status: h.status,
                            id: h.id,
                            msg_size: Some(frame_size(b) as usize),
                            data,
                        },
                    ),
                }
            },
        }
    }
}

pub open spec fn parse_view(r: Result<FastMessage, FastParseError>) -> Result<MessageView, FastParseError> {
    match r {
        Ok(m) => Ok(m@),
        Err(e) => Err(e),
    }
}

/// The frame for a message with the given fields, checksum and payload.
pub open spec fn frame_bytes(
    t: FastMessageType,
    s: FastMessageStatus,
    id: u32,
    crc: u32,
    payload: Seq<u8>,
) -> Seq<u8> {
    seq![FP_VERSION_CURRENT, type_byte(t), status_byte(s)] + be32_bytes(id) + be32_bytes(crc)
        + be32_bytes(payload.len() as u32) + payload
}

/// The bytes of `m` on the wire, or `None` where its payload cannot be
/// written or is too long for the length field.
pub open spec fn spec_encode(m: MessageView) -> Option<Seq<u8>> {
    match payload_of(m.data) {
        None => None,
        Some(p) => if p.len() > u32::MAX {
            None
        } else {
            Some(frame_bytes(m.msg_type, m.status, m.id, crc16_arc(p) as u32, p))
        },
    }
}

/// The reason encoding `m` after the bytes `prior` fails, if it does.
pub open spec fn encode_fault(prior: Seq<u8>, m: MessageView) -> Option<FastEncodeError> {
    match payload_of(m.data) {
        None => Some(FastEncodeError::Serialize),
        Some(p) => if p.len() > u32::MAX {
            Some(FastEncodeError::PayloadTooLarge)
        } else if prior.len() + 15 + p.len() > usize::MAX {
            Some(FastEncodeError::BufferFull)
        } else {
            None
        },
    }
}

impl FastMessage {
    /// Parse a byte buffer into a `FastMessage`, rejecting a payload whose
    /// checksum does not match.
    pub fn parse(buf: &[u8]) -> (r: Result<FastMessage, FastParseError>)
        ensures
            parse_view(r) == spec_parse(buf@, true),
    {
        FastMessage::parse_with(buf, true)
    }

    /// Parse a byte buffer into a `FastMessage`; `verify_crc` says whether a
    /// checksum mismatch rejects the frame.
    pub fn parse_with(buf: &[u8], verify_crc: bool) -> (r: Result<FastMessage, FastParseError>)
        ensures
            parse_view(r) == spec_parse(buf@, verify_crc),
    {
        reveal(spec_parse);
        if let Err(e) = FastMessage::check_buffer_size(buf) {
            return Err(e);
        }
        let header = match FastMessage::parse_header(buf) {
            Ok(h) => h,
            Err(e) => return Err(e),
        };
        match FastMessage::validate_data_length(buf, header.data_len) {
            Ok(()) => {},
            Err(e) => return Err(e),
        }
        let available = buf.len();
        assert(FP_OFF_DATA + header.data_len <= available);
        let raw_data = slice_subrange(buf, FP_OFF_DATA, FP_OFF_DATA + header.data_len);
        if verify_crc {
            if let Err(e) = FastMessage::validate_crc(raw_data, header.crc) {
                return Err(e);
            }
        }
        let data = match FastMessage::parse_data(raw_data) {
            Ok(d) => d,
            Err(e) => return Err(e),
        };
        Ok(
            FastMessage {
                msg_type: header.msg_type,
                status: header.status,
                id: header.id,
                msg_size: Some(FP_OFF_DATA + header.data_len),
                data,
            },
        )
    }

    /// Check that the buffer holds at least a header's worth of bytes.
    pub fn check_buffer_size(buf: &[u8]) -> (r: Result<(), FastParseError>)
        ensures
            buf@.len() < 15 <==> r is Err,
            r is Err ==> r == Err::<(), FastParseError>(FastParseError::NotEnoughBytes(buf@.len() as usize)),
    {
        if buf.len() < FP_HEADER_SZ {
            Err(FastParseError::NotEnoughBytes(buf.len()))
        } else {
            Ok(())
        }
    }

    /// Read the header at the start of the buffer.
    pub fn parse_header(buf: &[u8]) -> (r: Result<FastMessageHeader, FastParseError>)
        requires
            buf@.len() >= 15,
        ensures
            r == spec_header(buf@),
    {
        if buf[0] != FP_VERSION_CURRENT {
            return Err(FastParseError::Malformed(Malformation::Version));
        }
        let msg_type = match FastMessageType::from_u8(buf[FP_OFF_TYPE]) {
            Some(t) => t,
            None => return Err(FastParseError::Malformed(Malformation::MessageType)),
        };
        let status = match FastMessageStatus::from_u8(buf[FP_OFF_STATUS]) {
            Some(s) => s,
            None => return Err(FastParseError::Malformed(Malformation::Status)),
        };
        let id = read_be_u32(slice_subrange(buf, FP_OFF_MSGID, FP_OFF_MSGID + 4));
        let crc = read_be_u32(slice_subrange(buf, FP_OFF_CRC, FP_OFF_CRC + 4));
        let data_len = read_be_u32(slice_subrange(buf, FP_OFF_DATALEN, FP_OFF_DATALEN + 4)) as usize;
        Ok(FastMessageHeader { msg_type, status, id, crc, data_len })
    }

    fn validate_data_length(buf: &[u8], data_length: usize) -> (r: Result<(), FastParseError>)
        requires
            buf@.len() >= 15,
        ensures
            buf@.len() < 15 + data_length <==> r is Err,
            r is Err ==> r == Err::<(), FastParseError>(FastParseError::NotEnoughBytes(buf@.len() as usize)),
    {
        if buf.len() - FP_HEADER_SZ < data_length {
            Err(FastParseError::NotEnoughBytes(buf.len()))
        } else {
            Ok(())
        }
    }

    fn validate_crc(data_buf: &[u8], crc: u32) -> (r: Result<(), FastParseError>)
        ensures
            crc16_arc(data_buf@) as u32 != crc <==> r is Err,
            r is Err ==> r == Err::<(), FastParseError>(FastParseError::ChecksumMismatch),
    {
        let calculated = crc16_of(data_buf) as u32;
        if crc != calculated {
            Err(FastParseError::ChecksumMismatch)
        } else {
            Ok(())
        }
    }

    fn parse_data(data_buf: &[u8]) -> (r: Result<FastMessageData, FastParseError>)
        ensures
            match r {
                Ok(d) => decode_payload(data_buf@) == Some(d@),
                Err(e) => decode_payload(data_buf@) is None && e == FastParseError::Malformed(
                    Malformation::Payload,
                ),
            },
    {
        match parse_payload(data_buf) {
            Some(d) => Ok(d),
            None => Err(FastParseError::Malformed(Malformation::Payload)),
        }
    }

    /// A `DATA` message with the given id and payload.
    pub fn data(msg_id: u32, data: FastMessageData) -> (r: FastMessage)
        ensures
            r@ == (MessageView {
                msg_type: FastMessageType::Json,
                status: FastMessageStatus::Data,
                id: msg_id,
                msg_size: None,
                data: data@,
            }),
    {
        FastMessage {
            msg_type: FastMessageType::Json,
            status: FastMessageStatus::Data,
            id: msg_id,
            msg_size: None,
            data,
        }
    }

    /// An `END` message with the given id; `method` names the RPC in the
    /// otherwise empty payload.
    pub fn end(msg_id: u32, method: String) -> (r: FastMessage)
        ensures
            r.msg_type == FastMessageType::Json,
            r.status == FastMessageStatus::End,
            r.id == msg_id,
            r.msg_size is None,
            r@.data.name == method@,
            r@.data.d == "[]"@,
            r@.data.uts is Some,
    {
        FastMessage {
            msg_type: FastMessageType::Json,
            status: FastMessageStatus::End,
            id: msg_id,
            msg_size: None,
            data: FastMessageData::new(method, String::from_str("[]")),
        }
    }

    /// An `ERROR` message with the given id and payload.
    pub fn error(msg_id: u32, data: FastMessageData) -> (r: FastMessage)
        ensures
            r@ == (MessageView {
                msg_type: FastMessageType::Json,
                status: FastMessageStatus::Error,
                id: msg_id,
                msg_size: None,
                data: data@,
            }),
    {
        FastMessage {
            msg_type: FastMessageType::Json,
            status: FastMessageStatus::Error,
            id: msg_id,
            msg_size: None,
            data,
        }
    }
}

/// Append the frame of `msg` to `buf`. On failure `buf` is left as it was.
pub fn encode_msg(msg: &FastMessage, buf: &mut BytesMut) -> (r: Result<(), FastEncodeError>)
    ensures
        payload_of(msg@.data) is Some,
        match encode_fault(buffer_bytes(*old(buf)), msg@) {
            Some(e) => r == Err::<(), FastEncodeError>(e) && buffer_bytes(*final(buf)) == buffer_bytes(*old(buf)),
            None => r is Ok && buffer_bytes(*final(buf)) == buffer_bytes(*old(buf)) + spec_encode(msg@)->Some_0,
        },
{
    let payload = match encode_payload(&msg.data) {
        Some(p) => p,
        None => return Err(FastEncodeError::Serialize),
    };
    let data_len = payload.len();
    if data_len > 0xffff_ffff {
        return Err(FastEncodeError::PayloadTooLarge);
    }
    let prior = buffer_len(buf);
    if data_len > usize::MAX - FP_HEADER_SZ || prior > usize::MAX - FP_HEADER_SZ - data_len {
        return Err(FastEncodeError::BufferFull);
    }
    buffer_reserve(buf, FP_HEADER_SZ + data_len);
    let crc = crc16_of(payload.as_slice()) as u32;
    buffer_put_u8(buf, FP_VERSION_CURRENT);
    buffer_put_u8(buf, msg.msg_type.to_u8());
    buffer_put_u8(buf, msg.status.to_u8());
    buffer_put_u32(buf, msg.id);
    buffer_put_u32(buf, crc);
    buffer_put_u32(buf, data_len as u32);
    buffer_extend(buf, payload.as_slice());
    assert(buffer_bytes(*buf) =~= buffer_bytes(*old(buf)) + spec_encode(msg@)->Some_0);
    Ok(())
}

/// The views of a sequence of messages.
pub open spec fn views(v: Seq<FastMessage>) -> Seq<MessageView> {
    v.map_values(|m: FastMessage| m@)
}

/// Splitting the bytes `b` into frames from the front: the messages parsed,
/// how many bytes they took, and the error that stopped the split, if one
/// did. A split stops quietly where the rest is not yet a whole frame.
pub open spec fn split(b: Seq<u8>, verify_crc: bool) -> (Seq<MessageView>, nat, Option<FastParseError>)
    decreases b.len(),
{
    if b.len() == 0 {
        (Seq::empty(), 0, None)
    } else {
        match spec_parse(b, verify_crc) {
            Err(FastParseError::NotEnoughBytes(_)) => (Seq::empty(), 0, None),
            Err(e) => (Seq::empty(), 0, Some(e)),
            Ok(m) => if frame_size(b) <= b.len() {
                let rest = split(b.subrange(frame_size(b) as int, b.len() as int), verify_crc);
                (seq![m] + rest.0, frame_size(b) + rest.1, rest.2)
            } else {
                (Seq::empty(), 0, None)
            },
        }
    }
}

/// The frames at the front of `b`, as `split` gives them.
pub fn split_frames(b: &[u8], verify_crc: bool) -> (r: (Vec<FastMessage>, usize, Option<FastParseError>))
    ensures
        (views(r.0@), r.1 as nat, r.2) == split(b@, verify_crc),
{
    let len = b.len();
    let mut msgs: Vec<FastMessage> = Vec::new();
    let mut offset: usize = 0;
    assert(b@.subrange(0, len as int) =~= b@);
    assert(views(msgs@) =~= Seq::<MessageView>::empty());
    while offset < len
        invariant
            len == b@.len(),
            offset <= len,
            ({
                let rest = split(b@.subrange(offset as int, len as int), verify_crc);
                split(b@, verify_crc) == (views(msgs@) + rest.0, (offset + rest.1) as nat, rest.2)
            }),
        decreases len - offset,
    {
        let ghost rb = b@.subrange(offset as int, len as int);
        proof {
            lemma_parse_outcome(rb, verify_crc);
        }
        match FastMessage::parse_with(slice_subrange(b, offset, len), verify_crc) {
            Ok(m) => {
                let n = match m.msg_size {
                    Some(n) => n,
                    None => { return (msgs, offset, None); },
                };
                assert(b@.subrange(offset as int, len as int).subrange(n as int, rb.len() as int)
                    =~= b@.subrange(offset + n, len as int));
                let ghost before = msgs@;
                msgs.push(m);
                assert(views(msgs@) =~= views(before) + seq![m@]);
                offset = offset + n;
            },
            Err(FastParseError::NotEnoughBytes(_)) => {
                return (msgs, offset, None);
            },
            Err(e) => {
                return (msgs, offset, Some(e));
            },
        }
    }
    assert(b@.subrange(offset as int, len as int).len() == 0);
    (msgs, offset, None)
}

/// What appending the frames of `ms` after the bytes `prior` gives: the bytes
/// written, and the error that stopped the writing, if one did.
pub open spec fn encode_all(prior: Seq<u8>, ms: Seq<MessageView>) -> (Seq<u8>, Option<FastEncodeError>)
    decreases ms.len(),
{
    if ms.len() == 0 {
        (prior, None)
    } else {
        match encode_fault(prior, ms[0]) {
            Some(e) => (prior, Some(e)),
            None => encode_all(prior + spec_encode(ms[0])->Some_0, ms.drop_first()),
        }
    }
}

/// The framing of a Fast connection: a stream of bytes read as frames, and
/// messages written as frames.
#[derive(Debug, Clone, Copy)]
pub struct FastRpc {
    /// Whether a payload whose checksum does not match is rejected. Peers
    /// that predate correct checksums are read with this off.
    pub verify_crc: bool,
}

impl FastRpc {
    /// Framing that rejects checksum mismatches.
    pub fn new() -> (r: FastRpc)
        ensures
            r.verify_crc,
    {
        FastRpc { verify_crc: true }
    }

    /// Framing that ignores checksums, for peers that compute them wrongly.
    pub fn legacy() -> (r: FastRpc)
        ensures
            !r.verify_crc,
    {
        FastRpc { verify_crc: false }
    }

    /// Take every whole frame from the front of `buf`. Bytes of a frame not
    /// yet complete stay in `buf` for the next call; `Ok(None)` says that no
    /// frame was whole. On an error `buf` is left as it was.
    pub fn decode(&mut self, buf: &mut BytesMut) -> (r: Result<Option<Vec<FastMessage>>, FastParseError>)
        ensures
            *final(self) == *old(self),
            ({
                let (ms, used, fault) = split(buffer_bytes(*old(buf)), old(self).verify_crc);
                match fault {
                    Some(e) => r == Err::<Option<Vec<FastMessage>>, FastParseError>(e)
                        && buffer_bytes(*final(buf)) == buffer_bytes(*old(buf)),
                    None => buffer_bytes(*final(buf)) == buffer_bytes(*old(buf)).subrange(
                        used as int,
                        buffer_bytes(*old(buf)).len() as int,
                    ) && match r {
                        Ok(None) => ms.len() == 0 && buffer_bytes(*final(buf)) == buffer_bytes(*old(buf)),
                        Ok(Some(v)) => ms.len() > 0 && views(v@) == ms,
                        Err(_) => false,
                    },
                }
            }),
    {
        let (msgs, used, fault) = split_frames(buffer_slice(buf), self.verify_crc);
        if let Some(e) = fault {
            return Err(e);
        }
        proof {
            let (ms, u, f) = split(buffer_bytes(*buf), self.verify_crc);
            lemma_split_used_bound(buffer_bytes(*buf), self.verify_crc);
            lemma_split_nothing_taken(buffer_bytes(*buf), self.verify_crc);
            assert(buffer_bytes(*buf).subrange(0, buffer_bytes(*buf).len() as int) =~= buffer_bytes(*buf));
        }
        buffer_advance(buf, used);
        if msgs.len() == 0 {
            Ok(None)
        } else {
            Ok(Some(msgs))
        }
    }

    /// Append the frames of `item` to `buf`, in order, stopping at the first
    /// message that cannot be encoded.
    pub fn encode(&mut self, item: Vec<FastMessage>, buf: &mut BytesMut) -> (r: Result<(), FastEncodeError>)
        ensures
            *final(self) == *old(self),
            ({
                let (bytes, fault) = encode_all(buffer_bytes(*old(buf)), views(item@));
                &&& buffer_bytes(*final(buf)) == bytes
                &&& match fault {
                    Some(e) => r == Err::<(), FastEncodeError>(e),
                    None => r is Ok,
                }
            }),
    {
        let ghost all = views(item@);
        let mut i: usize = 0;
        assert(all.subrange(0, all.len() as int) =~= all);
        while i < item.len()
            invariant
                i <= item@.len(),
                all == views(item@),
                encode_all(buffer_bytes(*old(buf)), all) == encode_all(
                    buffer_bytes(*buf),
                    all.subrange(i as int, all.len() as int),
                ),
            decreases item@.len() - i,
        {
            let ghost rest = all.subrange(i as int, all.len() as int);
            assert(rest.drop_first() =~= all.subrange(i + 1, all.len() as int));
            if let Err(e) = encode_msg(&item[i], buf) {
                return Err(e);
            }
            i = i + 1;
        }
        Ok(())
    }
}

/// What the outcome of a parse says of the bytes: a message comes from a
/// whole frame, and any error but a call for more bytes is already decided
/// by the bytes at hand.
pub proof fn lemma_parse_outcome(b: Seq<u8>, verify_crc: bool)
    ensures
        spec_parse(b, verify_crc) is Ok ==> {
            &&& b.len() >= 15
            &&& spec_header(b) is Ok
            &&& frame_size(b) <= b.len()
            &&& spec_parse(b, verify_crc)->Ok_0.msg_size == Some(frame_size(b) as usize)
        },
        spec_parse(b, verify_crc) is Err && !(spec_parse(b, verify_crc)->Err_0 is NotEnoughBytes) ==> {
            &&& b.len() >= 15
            &&& (spec_header(b) is Err || b.len() >= frame_size(b))
        },
{
    reveal(spec_parse);
}

/// A split that yields no message takes no bytes.
pub proof fn lemma_split_nothing_taken(b: Seq<u8>, verify_crc: bool)
    ensures
        split(b, verify_crc).0.len() == 0 ==> split(b, verify_crc).1 == 0,
{
}

/// A split takes no more bytes than there are.
pub proof fn lemma_split_used_bound(b: Seq<u8>, verify_crc: bool)
    ensures
        split(b, verify_crc).1 <= b.len(),
    decreases b.len(),
{
    lemma_parse_outcome(b, verify_crc);
    if b.len() > 0 {
        if let Ok(m) = spec_parse(b, verify_crc) {
            if frame_size(b) <= b.len() {
                lemma_split_used_bound(b.subrange(frame_size(b) as int, b.len() as int), verify_crc);
            }
        }
    }
}

} // verus!
