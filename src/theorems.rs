//! What holds of the codec and the splitter over all inputs.

use vstd::prelude::*;

use crate::checksum::crc16_arc;
use crate::payload::{decode_payload, payload_of};
use crate::protocol::{
    frame_bytes, frame_payload, frame_size, spec_encode, spec_header, spec_parse, split,
    status_byte, status_of_byte, lemma_split_used_bound, lemma_parse_outcome, type_byte, type_of_byte, FastMessageStatus, FastMessageType,
    FastParseError, Malformation, MessageView,
};
use crate::wire::{be32_bytes, be32_value, lemma_be32_round_trip};

verus! {

/// What parsing a frame made from the given fields gives: a checksum
/// mismatch where checked and wrong, else the decoded payload with the
/// header's fields.
pub open spec fn frame_outcome(
    t: FastMessageType,
    s: FastMessageStatus,
    id: u32,
    crc: u32,
    p: Seq<u8>,
    verify_crc: bool,
) -> Result<MessageView, FastParseError> {
    if verify_crc && crc16_arc(p) as u32 != crc {
        Err(FastParseError::ChecksumMismatch)
    } else {
        match decode_payload(p) {
            None => Err(FastParseError::Malformed(Malformation::Payload)),
            Some(data) => Ok(
                MessageView { msg_type: t, status: s, id, msg_size: Some((15 + p.len()) as usize), data },
            ),
        }
    }
}

/// A frame built from its fields parses back to those fields, whatever
/// bytes follow it.
pub proof fn lemma_parse_frame(
    t: FastMessageType,
    s: FastMessageStatus,
    id: u32,
    crc: u32,
    p: Seq<u8>,
    rest: Seq<u8>,
    verify_crc: bool,
)
    requires
        p.len() <= u32::MAX,
    ensures
        frame_size(frame_bytes(t, s, id, crc, p) + rest) == 15 + p.len(),
        spec_parse(frame_bytes(t, s, id, crc, p) + rest, verify_crc) == frame_outcome(
            t,
            s,
            id,
            crc,
            p,
            verify_crc,
        ),
{
    reveal(spec_parse);
    let b = frame_bytes(t, s, id, crc, p) + rest;
    assert(b.subrange(3, 7) =~= be32_bytes(id));
    assert(b.subrange(7, 11) =~= be32_bytes(crc));
    assert(b.subrange(11, 15) =~= be32_bytes(p.len() as u32));
    lemma_be32_round_trip(id);
    lemma_be32_round_trip(crc);
    lemma_be32_round_trip(p.len() as u32);
    assert(type_of_byte(type_byte(t)) == Some(t));
    assert(status_of_byte(status_byte(s)) == Some(s));
    assert(frame_size(b) == 15 + p.len());
    assert(frame_payload(b) =~= p);
}

/// Parsing the encoding of a message gives back its type, status and id,
/// the payload that was written, and the frame's size; this holds whatever
/// bytes follow the frame and with or without the checksum check.
pub proof fn lemma_parse_encode(m: MessageView, rest: Seq<u8>, verify_crc: bool)
    requires
        spec_encode(m) is Some,
    ensures
        ({
            let p = payload_of(m.data)->Some_0;
            spec_parse(spec_encode(m)->Some_0 + rest, verify_crc) == match decode_payload(p) {
                None => Err(FastParseError::Malformed(Malformation::Payload)),
                Some(data) => Ok(
                    MessageView {
                        msg_type: m.msg_type,
                        status: m.status,
                        id: m.id,
                        msg_size: Some((15 + p.len()) as usize),
                        data,
                    },
                ),
            }
        }),
{
    let p = payload_of(m.data)->Some_0;
    lemma_parse_frame(m.msg_type, m.status, m.id, crc16_arc(p) as u32, p, rest, verify_crc);
}

/// Where the bytes `b` already decide the parse (a whole header that is
/// wrong, or a whole frame), more bytes after them change nothing.
pub proof fn lemma_parse_settled(b: Seq<u8>, x: Seq<u8>, verify_crc: bool)
    requires
        b.len() >= 15,
        spec_header(b) is Err || b.len() >= frame_size(b),
    ensures
        spec_parse(b + x, verify_crc) == spec_parse(b, verify_crc),
        frame_size(b + x) == frame_size(b),
{
    reveal(spec_parse);
    let c = b + x;
    assert(c.subrange(3, 7) =~= b.subrange(3, 7));
    assert(c.subrange(7, 11) =~= b.subrange(7, 11));
    assert(c.subrange(11, 15) =~= b.subrange(11, 15));
    assert(spec_header(c) == spec_header(b));
    if spec_header(b) is Ok {
        assert(frame_payload(c) =~= frame_payload(b));
    }
}

/// A parse that asks for more bytes stays undecided or succeeds as more
/// bytes of a well-formed stream arrive: the bytes so far, with `more`, are
/// a prefix of `w`, which parses.
pub proof fn lemma_need_more(buf: Seq<u8>, more: Seq<u8>, w: Seq<u8>, verify_crc: bool)
    requires
        spec_parse(buf, verify_crc) is Err,
        spec_parse(buf, verify_crc)->Err_0 is NotEnoughBytes,
        buf.len() + more.len() <= w.len(),
        w.subrange(0, (buf.len() + more.len()) as int) == buf + more,
        spec_parse(w, verify_crc) is Ok,
    ensures
        spec_parse(buf + more, verify_crc) is Ok || spec_parse(buf + more, verify_crc)->Err_0 is NotEnoughBytes,
{
    reveal(spec_parse);
    let c = buf + more;
    if c.len() >= 15 {
        let x = w.subrange(c.len() as int, w.len() as int);
        assert(c + x =~= w);
        assert(w.subrange(0, 15) =~= c.subrange(0, 15));
        assert(w.subrange(3, 7) =~= c.subrange(3, 7));
        assert(w.subrange(7, 11) =~= c.subrange(7, 11));
        assert(w.subrange(11, 15) =~= c.subrange(11, 15));
        assert(c[0] == w[0] && c[1] == w[1] && c[2] == w[2]);
        assert(spec_header(c) == spec_header(w));
        if c.len() >= frame_size(c) {
            lemma_parse_settled(c, x, verify_crc);
        }
    }
}

/// A strict parse rejects a well-formed frame whose payload was altered
/// into one with another checksum.
pub proof fn lemma_checksum_rejects(m: MessageView, altered: Seq<u8>)
    requires
        spec_encode(m) is Some,
        altered.len() == payload_of(m.data)->Some_0.len(),
        crc16_arc(altered) != crc16_arc(payload_of(m.data)->Some_0),
    ensures
        spec_parse(
            frame_bytes(m.msg_type, m.status, m.id, crc16_arc(payload_of(m.data)->Some_0) as u32, altered),
            true,
        ) == Err::<MessageView, FastParseError>(FastParseError::ChecksumMismatch),
{
    let p = payload_of(m.data)->Some_0;
    let f = frame_bytes(m.msg_type, m.status, m.id, crc16_arc(p) as u32, altered);
    lemma_parse_frame(m.msg_type, m.status, m.id, crc16_arc(p) as u32, altered, Seq::empty(), true);
    assert(f + Seq::<u8>::empty() =~= f);
}

/// A frame whose checksum field is zero: ignoring checksums, it parses as
/// its payload decodes; checking them, it is rejected where the payload's
/// checksum is not zero.
pub proof fn lemma_zero_checksum(t: FastMessageType, s: FastMessageStatus, id: u32, p: Seq<u8>)
    requires
        p.len() <= u32::MAX,
    ensures
        spec_parse(frame_bytes(t, s, id, 0, p), false) == frame_outcome(t, s, id, 0, p, false),
        decode_payload(p) is Some ==> spec_parse(frame_bytes(t, s, id, 0, p), false) is Ok,
        crc16_arc(p) != 0 ==> spec_parse(frame_bytes(t, s, id, 0, p), true) == Err::<
            MessageView,
            FastParseError,
        >(FastParseError::ChecksumMismatch),
{
    let f = frame_bytes(t, s, id, 0, p);
    assert(f + Seq::<u8>::empty() =~= f);
    lemma_parse_frame(t, s, id, 0, p, Seq::empty(), false);
    lemma_parse_frame(t, s, id, 0, p, Seq::empty(), true);
}

/// The bytes left over after a split.
pub open spec fn leftover(b: Seq<u8>, verify_crc: bool) -> Seq<u8> {
    b.subrange(split(b, verify_crc).1 as int, b.len() as int)
}

/// A split takes whole frames only: what it leaves holds no whole frame.
pub proof fn lemma_leftover_holds_no_frame(b: Seq<u8>, verify_crc: bool)
    requires
        split(b, verify_crc).2 is None,
    ensures
        split(b, verify_crc).1 <= b.len(),
        split(leftover(b, verify_crc), verify_crc) == (Seq::<MessageView>::empty(), 0nat, None::<FastParseError>),
    decreases b.len(),
{
    lemma_parse_outcome(b, verify_crc);
    if b.len() > 0 {
        match spec_parse(b, verify_crc) {
            Ok(m) => {
                if frame_size(b) <= b.len() {
                    let r = b.subrange(frame_size(b) as int, b.len() as int);
                    lemma_leftover_holds_no_frame(r, verify_crc);
                    assert(leftover(b, verify_crc) =~= leftover(r, verify_crc));
                } else {
                    assert(leftover(b, verify_crc) =~= b);
                }
            },
            Err(_) => {
                assert(leftover(b, verify_crc) =~= b);
            },
        }
    }
}

/// Bytes appended after a split that met no error are split as if they
/// followed the leftover alone.
#[verifier::rlimit(40)]
pub proof fn lemma_split_append(b: Seq<u8>, x: Seq<u8>, verify_crc: bool)
    requires
        split(b, verify_crc).2 is None,
    ensures
        ({
            let first = split(b, verify_crc);
            let next = split(leftover(b, verify_crc) + x, verify_crc);
            split(b + x, verify_crc) == (first.0 + next.0, first.1 + next.1, next.2)
        }),
    decreases b.len(),
{
    lemma_parse_outcome(b, verify_crc);
    lemma_leftover_holds_no_frame(b, verify_crc);
    if b.len() == 0 {
        assert(b + x =~= x);
        assert(leftover(b, verify_crc) + x =~= x);
        assert(Seq::<MessageView>::empty() + split(x, verify_crc).0 =~= split(x, verify_crc).0);
    } else {
        match spec_parse(b, verify_crc) {
            Ok(m) => {
                let n = frame_size(b);
                if n <= b.len() {
                    let r = b.subrange(n as int, b.len() as int);
                    lemma_parse_settled(b, x, verify_crc);
                    assert((b + x).subrange(n as int, (b + x).len() as int) =~= r + x);
                    lemma_split_append(r, x, verify_crc);
                    assert(leftover(b, verify_crc) =~= leftover(r, verify_crc));
                    let first = split(r, verify_crc);
                    let next = split(leftover(r, verify_crc) + x, verify_crc);
                    assert(seq![m] + (first.0 + next.0) =~= (seq![m] + first.0) + next.0);
                }
            },
            Err(e) => {
                assert(leftover(b, verify_crc) =~= b);
                assert(Seq::<MessageView>::empty() + split(b + x, verify_crc).0 =~= split(b + x, verify_crc).0);
            },
        }
    }
}

/// `k` copies of the bytes `e`, one after another.
pub open spec fn repeat(e: Seq<u8>, k: nat) -> Seq<u8>
    decreases k,
{
    if k == 0 {
        Seq::empty()
    } else {
        e + repeat(e, (k - 1) as nat)
    }
}

/// The encodings of one message, sent `k` times in a row, split into `k`
/// copies of the parsed message and take every byte.
pub proof fn lemma_bundled(m: MessageView, k: nat, verify_crc: bool)
    requires
        spec_encode(m) is Some,
        spec_parse(spec_encode(m)->Some_0, verify_crc) is Ok,
    ensures
        ({
            let e = spec_encode(m)->Some_0;
            let parsed = spec_parse(e, verify_crc)->Ok_0;
            split(repeat(e, k), verify_crc) == (
                Seq::new(k, |i: int| parsed),
                repeat(e, k).len(),
                None::<FastParseError>,
            )
        }),
    decreases k,
{
    let e = spec_encode(m)->Some_0;
    let parsed = spec_parse(e, verify_crc)->Ok_0;
    let p = payload_of(m.data)->Some_0;
    if k == 0 {
        assert(Seq::new(0, |i: int| parsed) =~= Seq::<MessageView>::empty());
    } else {
        let r = repeat(e, (k - 1) as nat);
        lemma_parse_frame(m.msg_type, m.status, m.id, crc16_arc(p) as u32, p, Seq::empty(), verify_crc);
        assert(e + Seq::<u8>::empty() =~= e);
        lemma_parse_settled(e, r, verify_crc);
        lemma_bundled(m, (k - 1) as nat, verify_crc);
        assert((e + r).subrange(e.len() as int, (e + r).len() as int) =~= r);
        assert(seq![parsed] + Seq::new((k - 1) as nat, |i: int| parsed) =~= Seq::new(k, |i: int| parsed));
    }
}

/// Feeding `chunk` to a splitter that holds `held`: the messages taken, the
/// bytes then held, and the error met, if one was.
pub open spec fn feed(held: Seq<u8>, chunk: Seq<u8>, verify_crc: bool) -> (Seq<MessageView>, Seq<u8>, Option<FastParseError>) {
    let b = held + chunk;
    (split(b, verify_crc).0, leftover(b, verify_crc), split(b, verify_crc).2)
}

/// Feeding the chunks in order, stopping at the first error.
pub open spec fn feed_all(held: Seq<u8>, chunks: Seq<Seq<u8>>, verify_crc: bool) -> (Seq<MessageView>, Seq<u8>, Option<FastParseError>)
    decreases chunks.len(),
{
    if chunks.len() == 0 {
        (Seq::empty(), held, None)
    } else {
        let (ms, rest, fault) = feed(held, chunks[0], verify_crc);
        if fault is Some {
            (ms, rest, fault)
        } else {
            let (more, last, fault2) = feed_all(rest, chunks.drop_first(), verify_crc);
            (ms + more, last, fault2)
        }
    }
}

/// Where the stream `held ++ flatten(chunks)` splits without error, and
/// `held` holds no whole frame, feeding the chunks one by one takes the same
/// messages as splitting the stream at once, and holds the same leftover.
#[verifier::rlimit(40)]
pub proof fn lemma_feed_all(held: Seq<u8>, chunks: Seq<Seq<u8>>, verify_crc: bool)
    requires
        split(held, verify_crc) == (Seq::<MessageView>::empty(), 0nat, None::<FastParseError>),
        split(held + chunks.flatten(), verify_crc).2 is None,
    ensures
        feed_all(held, chunks, verify_crc) == (
            split(held + chunks.flatten(), verify_crc).0,
            leftover(held + chunks.flatten(), verify_crc),
            None::<FastParseError>,
        ),
    decreases chunks.len(),
{
    if chunks.len() == 0 {
        assert(held + chunks.flatten() =~= held);
        assert(leftover(held, verify_crc) =~= held);
    } else {
        let c0 = chunks[0];
        let tail = chunks.drop_first();
        let b = held + c0;
        let t = tail.flatten();
        let whole = held + chunks.flatten();
        assert(whole =~= b + t);
        if split(b, verify_crc).2 is Some {
            lemma_split_stops_at_fault(b, t, verify_crc);
        }
        let rest = leftover(b, verify_crc);
        let used = split(b, verify_crc).1;
        lemma_split_append(b, t, verify_crc);
        lemma_leftover_holds_no_frame(b, verify_crc);
        lemma_feed_all(rest, tail, verify_crc);
        assert(b + t =~= b.subrange(0, used as int) + (rest + t));
        lemma_leftover_after(b.subrange(0, used as int), rest + t, verify_crc);
    }
}

/// Where a split of `pre ++ q` takes all of `pre` and then what a split of
/// `q` takes, both leave the same bytes.
pub proof fn lemma_leftover_after(pre: Seq<u8>, q: Seq<u8>, verify_crc: bool)
    requires
        split(pre + q, verify_crc).1 == pre.len() + split(q, verify_crc).1,
    ensures
        leftover(pre + q, verify_crc) == leftover(q, verify_crc),
{
    lemma_split_used_bound(q, verify_crc);
    assert(leftover(pre + q, verify_crc) =~= leftover(q, verify_crc));
}

/// An error met in a split is met again, after the same messages, when
/// more bytes follow.
pub proof fn lemma_split_stops_at_fault(b: Seq<u8>, x: Seq<u8>, verify_crc: bool)
    requires
        split(b, verify_crc).2 is Some,
    ensures
        split(b + x, verify_crc) == split(b, verify_crc),
    decreases b.len(),
{
    lemma_parse_outcome(b, verify_crc);
    match spec_parse(b, verify_crc) {
        Ok(m) => {
            let n = frame_size(b);
            let r = b.subrange(n as int, b.len() as int);
            lemma_parse_settled(b, x, verify_crc);
            assert((b + x).subrange(n as int, (b + x).len() as int) =~= r + x);
            lemma_split_stops_at_fault(r, x, verify_crc);
        },
        Err(e) => {
            lemma_parse_settled(b, x, verify_crc);
        },
    }
}

} // verus!
