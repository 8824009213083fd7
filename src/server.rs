//! The server's side of an RPC: the frames written back for each request.
//!
//! For every request the handler's `DATA` frames go out in order, followed by
//! one `END`; where the handler fails, a single `ERROR` frame goes out
//! instead. Reading the stream, calling the handler and writing the frames
//! are the caller's.

use vstd::prelude::*;
use vstd::string::*;

use crate::payload::{fast_error_text, fast_error_value, json_quoted};
use crate::protocol::{
    now_micros, views, DataView, FastEncodeError, FastMessage, FastMessageData,
    FastMessageMetaData, FastMessageStatus, FastMessageType, MessageView,
};

verus! {

/// What the handler gave for one request: its frames, or the text of its
/// error.
pub open spec fn outcome_view(r: Result<Vec<FastMessage>, String>) -> Result<Seq<MessageView>, Seq<char>> {
    match r {
        Ok(v) => Ok(views(v@)),
        Err(e) => Err(e@),
    }
}

pub open spec fn outcome_views(rs: Seq<Result<Vec<FastMessage>, String>>) -> Seq<Result<Seq<MessageView>, Seq<char>>> {
    rs.map_values(|r: Result<Vec<FastMessage>, String>| outcome_view(r))
}

/// Whether a status ends an RPC.
pub open spec fn is_terminator(s: FastMessageStatus) -> bool {
    s == FastMessageStatus::End || s == FastMessageStatus::Error
}

/// The handler's frames that go out: its `DATA` frames, in order. A
/// terminator from a handler is dropped.
pub open spec fn data_frames(rs: Seq<MessageView>) -> Seq<MessageView> {
    rs.filter(|m: MessageView| m.status == FastMessageStatus::Data)
}

/// The `END` frame for `req`, stamped `uts`.
pub open spec fn end_frame(req: MessageView, uts: u64) -> MessageView {
    MessageView {
        msg_type: FastMessageType::Json,
        status: FastMessageStatus::End,
        id: req.id,
        msg_size: None,
        data: DataView { name: req.data.name, uts: Some(uts), d: "[]"@ },
    }
}

/// The `ERROR` frame for `req` carrying the error object `d`, stamped `uts`.
pub open spec fn error_frame(req: MessageView, d: Seq<char>, uts: u64) -> MessageView {
    MessageView {
        msg_type: FastMessageType::Json,
        status: FastMessageStatus::Error,
        id: req.id,
        msg_size: None,
        data: DataView { name: req.data.name, uts: Some(uts), d },
    }
}

/// The frames that answer `req` given what the handler gave, or `None`
/// where the error text cannot be written as JSON.
pub open spec fn reply_segment(req: MessageView, outcome: Result<Seq<MessageView>, Seq<char>>, uts: u64) -> Option<Seq<MessageView>> {
    match outcome {
        Ok(rs) => Some(data_frames(rs).push(end_frame(req, uts))),
        Err(e) => match fast_error_text(e) {
            Some(d) => Some(seq![error_frame(req, d, uts)]),
            None => None,
        },
    }
}

/// The frames that answer the requests `reqs`, in order, given the
/// handler's outcome for each.
#[verifier::opaque]
pub open spec fn replies(
    reqs: Seq<MessageView>,
    outcomes: Seq<Result<Seq<MessageView>, Seq<char>>>,
    uts: u64,
) -> Option<Seq<MessageView>>
    decreases reqs.len(),
{
    if reqs.len() == 0 || outcomes.len() != reqs.len() {
        if reqs.len() == 0 && outcomes.len() == 0 {
            Some(Seq::empty())
        } else {
            None
        }
    } else {
        match replies(reqs.drop_last(), outcomes.drop_last(), uts) {
            None => None,
            Some(prev) => match reply_segment(reqs.last(), outcomes.last(), uts) {
                None => None,
                Some(seg) => Some(prev + seg),
            },
        }
    }
}

/// `out` answers the requests `reqs`, given the handler's outcomes: it is
/// their replies, and where the requests' ids are distinct and the handler
/// keeps each request's id on its frames, the frames with a request's id
/// are exactly its answer: its `DATA` frames, then one terminator (an
/// `ERROR` frame alone where the handler failed).
pub open spec fn answered(
    reqs: Seq<MessageView>,
    outs: Seq<Result<Seq<MessageView>, Seq<char>>>,
    uts: u64,
    out: Seq<MessageView>,
) -> bool {
    &&& replies(reqs, outs, uts) == Some(out)
    &&& distinct_ids(reqs) && handler_keeps_ids(reqs, outs) ==> forall|i: int|
        0 <= i < reqs.len() ==> {
            &&& frames_for(out, #[trigger] reqs[i].id) == reply_segment(reqs[i], outs[i], uts)->Some_0
            &&& data_then_terminator(frames_for(out, reqs[i].id), reqs[i].id)
        }
}

/// The frames that answer `msgs`, where `results[i]` is what the handler
/// gave for `msgs[i]`, with every terminator stamped `uts`.
pub fn respond_at(msgs: &Vec<FastMessage>, results: Vec<Result<Vec<FastMessage>, String>>, uts: u64) -> (r: Result<Vec<FastMessage>, FastEncodeError>)
    requires
        msgs@.len() == results@.len(),
    ensures
        r is Ok,
        answered(views(msgs@), outcome_views(results@), uts, views(r->Ok_0@)),
{
    let ghost reqs = views(msgs@);
    let ghost outs = outcome_views(results@);
    let mut remaining = results;
    let mut responses: Vec<FastMessage> = Vec::new();
    let mut i: usize = 0;
    assert(reqs.subrange(0, 0) =~= Seq::<MessageView>::empty());
    assert(outs.subrange(0, 0) =~= Seq::<Result<Seq<MessageView>, Seq<char>>>::empty());
    proof {
        lemma_replies_unfold(reqs.subrange(0, 0), outs.subrange(0, 0), uts);
    }
    assert(views(responses@) =~= Seq::<MessageView>::empty());
    while i < msgs.len()
        invariant
            i <= msgs@.len(),
            reqs == views(msgs@),
            reqs.len() == outs.len(),
            outs == outcome_views(results@),
            outcome_views(remaining@) == outs.subrange(i as int, outs.len() as int),
            remaining@.len() == outs.len() - i,
            replies(reqs.subrange(0, i as int), outs.subrange(0, i as int), uts) == Some(views(responses@)),
        decreases msgs@.len() - i,
    {
        let ghost before = views(responses@);
        let ghost out_i = outs[i as int];
        let ghost pending = remaining@;
        assert(outcome_views(pending)[0] == out_i);
        let outcome = remaining.remove(0);
        assert(outcome_view(outcome) == out_i);
        assert forall|k: int| 0 <= k < remaining@.len() implies #[trigger] outcome_views(remaining@)[k] == outs[i + 1 + k] by {
            assert(remaining@[k] == pending[k + 1]);
            assert(outcome_views(pending)[k + 1] == outs.subrange(i as int, outs.len() as int)[k + 1]);
        }
        assert(outcome_views(remaining@) =~= outs.subrange(i + 1, outs.len() as int));
        let msg = &msgs[i];
        let method = msg.data.m.name.clone();
        match outcome {
            Ok(frames) => {
                let mut frames = frames;
                let ghost fs = views(frames@);
                let ghost mut j: int = 0;
                assert(fs.subrange(0, 0) =~= Seq::<MessageView>::empty());
                assert(before + data_frames(fs.subrange(0, 0)) =~= before);
                while frames.len() > 0
                    invariant
                        0 <= j <= fs.len(),
                        views(frames@) == fs.subrange(j, fs.len() as int),
                        frames@.len() == fs.len() - j,
                        views(responses@) == before + data_frames(fs.subrange(0, j)),
                    decreases frames@.len(),
                {
                    let ghost waiting = frames@;
                    assert(views(waiting)[0] == fs.subrange(j, fs.len() as int)[0]);
                    let f = frames.remove(0);
                    assert(f@ == fs[j]);
                    assert forall|k: int| 0 <= k < frames@.len() implies #[trigger] views(frames@)[k] == fs[j + 1 + k] by {
                        assert(frames@[k] == waiting[k + 1]);
                        assert(views(waiting)[k + 1] == fs.subrange(j, fs.len() as int)[k + 1]);
                    }
                    assert(views(frames@) =~= fs.subrange(j + 1, fs.len() as int));
                    let ghost s1 = fs.subrange(0, j + 1);
                    proof {
                        lemma_data_frames_step(fs, j);
                    }
                    let ghost inner = views(responses@);
                    if f.status == FastMessageStatus::Data {
                        responses.push(f);
                        assert(views(responses@) =~= inner.push(f@));
                        assert(data_frames(s1) == data_frames(fs.subrange(0, j)).push(f@));
                    } else {
                        assert(data_frames(s1) == data_frames(fs.subrange(0, j)));
                    }
                    proof {
                        j = j + 1;
                    }
                    assert(views(responses@) =~= before + data_frames(fs.subrange(0, j)));
                }
                assert(fs.subrange(0, j) =~= fs);
                let end = FastMessage {
                    msg_type: FastMessageType::Json,
                    status: FastMessageStatus::End,
                    id: msg.id,
                    msg_size: None,
                    data: FastMessageData {
                        m: FastMessageMetaData { uts: Some(uts), name: method },
                        d: String::from_str("[]"),
                    },
                };
                let ghost mid = views(responses@);
                responses.push(end);
                assert(views(responses@) =~= mid.push(end_frame(reqs[i as int], uts)));
                assert(views(responses@) =~= before + reply_segment(reqs[i as int], out_i, uts)->Some_0);
            },
            Err(e) => {
                let d = match fast_error_value(e.as_str()) {
                    Some(d) => d,
                    None => {
                        proof {
                            lemma_replies_step(reqs, outs, uts, i as int);
                            lemma_replies_fail_extends(reqs, outs, uts, i as int + 1);
                        }
                        return Err(FastEncodeError::Serialize);
                    },
                };
                let err = FastMessage {
                    msg_type: FastMessageType::Json,
                    status: FastMessageStatus::Error,
                    id: msg.id,
                    msg_size: None,
                    data: FastMessageData { m: FastMessageMetaData { uts: Some(uts), name: method }, d },
                };
                let ghost mid = views(responses@);
                responses.push(err);
                assert(views(responses@) =~= mid.push(error_frame(reqs[i as int], d@, uts)));
                assert(views(responses@) =~= before + reply_segment(reqs[i as int], out_i, uts)->Some_0);
            },
        }
        proof {
            lemma_replies_step(reqs, outs, uts, i as int);
        }
        i = i + 1;
    }
    assert(reqs.subrange(0, i as int) =~= reqs);
    assert(outs.subrange(0, i as int) =~= outs);
    proof {
        if distinct_ids(reqs) && handler_keeps_ids(reqs, outs) {
            lemma_one_terminator_per_request(reqs, outs, uts);
        }
    }
    Ok(responses)
}

/// The replies to no requests are no frames; the replies to requests are
/// the replies to all but the last, followed by the last one's segment.
pub proof fn lemma_replies_unfold(
    reqs: Seq<MessageView>,
    outs: Seq<Result<Seq<MessageView>, Seq<char>>>,
    uts: u64,
)
    requires
        reqs.len() == outs.len(),
    ensures
        reqs.len() == 0 ==> replies(reqs, outs, uts) == Some(Seq::<MessageView>::empty()),
        reqs.len() > 0 ==> replies(reqs, outs, uts) == match replies(reqs.drop_last(), outs.drop_last(), uts) {
            None => None,
            Some(prev) => match reply_segment(reqs.last(), outs.last(), uts) {
                None => None,
                Some(seg) => Some(prev + seg),
            },
        },
{
    reveal(replies);
}

/// Taking one more of the handler's frames adds it to the frames that go out
/// where it is a `DATA` frame.
proof fn lemma_data_frames_step(fs: Seq<MessageView>, j: int)
    requires
        0 <= j < fs.len(),
    ensures
        data_frames(fs.subrange(0, j + 1)) == if fs[j].status == FastMessageStatus::Data {
            data_frames(fs.subrange(0, j)).push(fs[j])
        } else {
            data_frames(fs.subrange(0, j))
        },
{
    reveal(Seq::filter);
    assert(fs.subrange(0, j + 1).drop_last() =~= fs.subrange(0, j));
}

/// The replies to one more request extend the replies so far by its segment.
proof fn lemma_replies_step(
    reqs: Seq<MessageView>,
    outs: Seq<Result<Seq<MessageView>, Seq<char>>>,
    uts: u64,
    i: int,
)
    requires
        reqs.len() == outs.len(),
        0 <= i < reqs.len(),
    ensures
        replies(reqs.subrange(0, i + 1), outs.subrange(0, i + 1), uts) == match replies(
            reqs.subrange(0, i),
            outs.subrange(0, i),
            uts,
        ) {
            None => None,
            Some(prev) => match reply_segment(reqs[i], outs[i], uts) {
                None => None,
                Some(seg) => Some(prev + seg),
            },
        },
{
    assert(reqs.subrange(0, i + 1).drop_last() =~= reqs.subrange(0, i));
    assert(outs.subrange(0, i + 1).drop_last() =~= outs.subrange(0, i));
    lemma_replies_unfold(reqs.subrange(0, i + 1), outs.subrange(0, i + 1), uts);
}

/// Once the replies to a prefix of the requests cannot be written, neither
/// can the replies to a longer prefix.
proof fn lemma_replies_fail_extends(
    reqs: Seq<MessageView>,
    outs: Seq<Result<Seq<MessageView>, Seq<char>>>,
    uts: u64,
    k: int,
)
    requires
        reqs.len() == outs.len(),
        0 < k <= reqs.len(),
        replies(reqs.subrange(0, k), outs.subrange(0, k), uts) is None,
    ensures
        replies(reqs, outs, uts) is None,
    decreases reqs.len() - k,
{
    if k < reqs.len() {
        lemma_replies_step(reqs, outs, uts, k);
        lemma_replies_fail_extends(reqs, outs, uts, k + 1);
    } else {
        assert(reqs.subrange(0, k) =~= reqs);
        assert(outs.subrange(0, k) =~= outs);
    }
}

/// The frames that answer `msgs`, where `results[i]` is what the handler gave
/// for `msgs[i]`, with every terminator stamped with the current time.
pub fn respond(msgs: &Vec<FastMessage>, results: Vec<Result<Vec<FastMessage>, String>>) -> (r: Result<Vec<FastMessage>, FastEncodeError>)
    requires
        msgs@.len() == results@.len(),
    ensures
        r is Ok,
        exists|uts: u64| #[trigger] answered(views(msgs@), outcome_views(results@), uts, views(r->Ok_0@)),
{
    let uts = now_micros();
    respond_at(msgs, results, uts)
}

/// The frames of `v` that carry the id `id`, in order.
pub open spec fn frames_for(v: Seq<MessageView>, id: u32) -> Seq<MessageView> {
    v.filter(|m: MessageView| m.id == id)
}

/// No two requests share an id.
pub open spec fn distinct_ids(reqs: Seq<MessageView>) -> bool {
    forall|i: int, j: int|
        #![trigger reqs[i], reqs[j]]
        0 <= i < reqs.len() && 0 <= j < reqs.len() && i != j ==> reqs[i].id != reqs[j].id
}

/// Every frame that the handler gave for a request carries that request's id.
pub open spec fn handler_keeps_ids(reqs: Seq<MessageView>, outs: Seq<Result<Seq<MessageView>, Seq<char>>>) -> bool {
    forall|i: int, k: int|
        #![trigger outs[i]->Ok_0[k]]
        0 <= i < reqs.len() && outs[i] is Ok && 0 <= k < outs[i]->Ok_0.len() ==> outs[i]->Ok_0[k].id == reqs[i].id
}

/// A request's frames: its `DATA` frames, then one terminator, carrying its id.
pub open spec fn data_then_terminator(seg: Seq<MessageView>, id: u32) -> bool {
    &&& seg.len() >= 1
    &&& is_terminator(seg.last().status)
    &&& seg.last().id == id
    &&& forall|k: int| 0 <= k < seg.len() - 1 ==> (#[trigger] seg[k]).status == FastMessageStatus::Data
}

/// The frames that answer one request are its `DATA` frames followed by
/// exactly one terminator with its id.
pub proof fn lemma_segment_shape(req: MessageView, outcome: Result<Seq<MessageView>, Seq<char>>, uts: u64)
    requires
        reply_segment(req, outcome, uts) is Some,
    ensures
        data_then_terminator(reply_segment(req, outcome, uts)->Some_0, req.id),
{
    if let Ok(rs) = outcome {
        let pred = |m: MessageView| m.status == FastMessageStatus::Data;
        broadcast use vstd::seq_lib::group_filter_ensures;
        let seg = reply_segment(req, outcome, uts)->Some_0;
        assert forall|k: int| 0 <= k < seg.len() - 1 implies (#[trigger] seg[k]).status == FastMessageStatus::Data by {
            assert(seg[k] == data_frames(rs)[k]);
        }
    }
}

/// Keeping the frames that carry one id, of frames that all carry it,
/// keeps them all; of frames that none carry, keeps none.
proof fn lemma_frames_for_uniform(v: Seq<MessageView>, id: u32)
    ensures
        (forall|k: int| 0 <= k < v.len() ==> (#[trigger] v[k]).id == id) ==> frames_for(v, id) == v,
        (forall|k: int| 0 <= k < v.len() ==> (#[trigger] v[k]).id != id) ==> frames_for(v, id) == Seq::<MessageView>::empty(),
    decreases v.len(),
{
    reveal(Seq::filter);
    if v.len() > 0 {
        lemma_frames_for_uniform(v.drop_last(), id);
        assert(v.drop_last().push(v.last()) =~= v);
        if forall|k: int| 0 <= k < v.len() ==> (#[trigger] v[k]).id == id {
            assert forall|k: int| 0 <= k < v.drop_last().len() implies (#[trigger] v.drop_last()[k]).id == id by {
                assert(v.drop_last()[k] == v[k]);
            }
        }
        if forall|k: int| 0 <= k < v.len() ==> (#[trigger] v[k]).id != id {
            assert forall|k: int| 0 <= k < v.drop_last().len() implies (#[trigger] v.drop_last()[k]).id != id by {
                assert(v.drop_last()[k] == v[k]);
            }
        }
    }
}

/// Every frame of a request's answer carries its id.
proof fn lemma_segment_ids(req: MessageView, outcome: Result<Seq<MessageView>, Seq<char>>, uts: u64)
    requires
        reply_segment(req, outcome, uts) is Some,
        outcome is Ok ==> forall|k: int| 0 <= k < outcome->Ok_0.len() ==> (#[trigger] outcome->Ok_0[k]).id == req.id,
    ensures
        forall|k: int|
            0 <= k < reply_segment(req, outcome, uts)->Some_0.len() ==> (#[trigger] reply_segment(req, outcome, uts)->Some_0[k]).id == req.id,
{
    if let Ok(rs) = outcome {
        let pred = |m: MessageView| m.status == FastMessageStatus::Data;
        broadcast use vstd::seq_lib::group_filter_ensures;
        let seg = reply_segment(req, outcome, uts)->Some_0;
        assert forall|k: int| 0 <= k < seg.len() implies (#[trigger] seg[k]).id == req.id by {
            if k < seg.len() - 1 {
                let f = data_frames(rs)[k];
                assert(data_frames(rs).contains(f));
                rs.lemma_filter_contains_rev(pred, f);
                let j = choose|j: int| 0 <= j < rs.len() && rs[j] == f;
                assert(rs[j].id == req.id);
            }
        }
    }
}

/// Each frame that answers the requests carries the id of one of them.
#[verifier::rlimit(40)]
proof fn lemma_reply_ids(reqs: Seq<MessageView>, outs: Seq<Result<Seq<MessageView>, Seq<char>>>, uts: u64)
    requires
        reqs.len() == outs.len(),
        replies(reqs, outs, uts) is Some,
        handler_keeps_ids(reqs, outs),
    ensures
        forall|k: int|
            0 <= k < replies(reqs, outs, uts)->Some_0.len() ==> exists|i: int|
                0 <= i < reqs.len() && reqs[i].id == (#[trigger] replies(reqs, outs, uts)->Some_0[k]).id,
    decreases reqs.len(),
{
    lemma_replies_unfold(reqs, outs, uts);
    if reqs.len() > 0 {
        let n = reqs.len() - 1;
        let (pr, po) = (reqs.drop_last(), outs.drop_last());
        assert(handler_keeps_ids(pr, po)) by {
            assert forall|i: int, k: int| 0 <= i < pr.len() && po[i] is Ok && 0 <= k < po[i]->Ok_0.len()
                implies #[trigger] po[i]->Ok_0[k].id == pr[i].id by {
                assert(outs[i]->Ok_0[k].id == reqs[i].id);
            }
        }
        lemma_reply_ids(pr, po, uts);
        assert(outs.last() is Ok ==> forall|k: int| 0 <= k < outs.last()->Ok_0.len() ==> (#[trigger] outs.last()->Ok_0[k]).id == reqs.last().id) by {
            if outs.last() is Ok {
                assert forall|k: int| 0 <= k < outs.last()->Ok_0.len() implies (#[trigger] outs.last()->Ok_0[k]).id == reqs.last().id by {
                    assert(outs[n]->Ok_0[k].id == reqs[n].id);
                }
            }
        }
        lemma_replies_unfold(reqs, outs, uts);
        lemma_segment_ids(reqs.last(), outs.last(), uts);
        let prev = replies(pr, po, uts)->Some_0;
        let seg = reply_segment(reqs.last(), outs.last(), uts)->Some_0;
        let v = replies(reqs, outs, uts)->Some_0;
        assert forall|k: int| 0 <= k < v.len() implies exists|i: int| 0 <= i < reqs.len() && reqs[i].id == (#[trigger] v[k]).id by {
            if k < prev.len() {
                assert(v[k] == prev[k]);
                let i = choose|i: int| 0 <= i < pr.len() && pr[i].id == prev[k].id;
                assert(reqs[i] == pr[i]);
            } else {
                assert(v[k] == seg[k - prev.len()]);
                assert(reqs[n].id == v[k].id);
            }
        }
    }
}

/// Where requests have distinct ids and the handler keeps each request's
/// id on its frames, the frames that carry a request's id are exactly the
/// frames that answer it: its `DATA` frames, then one terminator, which is
/// the last frame with that id.
#[verifier::rlimit(40)]
pub proof fn lemma_one_terminator_per_request(
    reqs: Seq<MessageView>,
    outs: Seq<Result<Seq<MessageView>, Seq<char>>>,
    uts: u64,
)
    requires
        reqs.len() == outs.len(),
        replies(reqs, outs, uts) is Some,
        distinct_ids(reqs),
        handler_keeps_ids(reqs, outs),
    ensures
        forall|i: int|
            0 <= i < reqs.len() ==> {
                &&& frames_for(replies(reqs, outs, uts)->Some_0, #[trigger] reqs[i].id) == reply_segment(reqs[i], outs[i], uts)->Some_0
                &&& data_then_terminator(frames_for(replies(reqs, outs, uts)->Some_0, reqs[i].id), reqs[i].id)
            },
    decreases reqs.len(),
{
    lemma_replies_unfold(reqs, outs, uts);
    if reqs.len() > 0 {
        let n = reqs.len() - 1;
        let (pr, po) = (reqs.drop_last(), outs.drop_last());
        assert(handler_keeps_ids(pr, po)) by {
            assert forall|i: int, k: int| 0 <= i < pr.len() && po[i] is Ok && 0 <= k < po[i]->Ok_0.len()
                implies #[trigger] po[i]->Ok_0[k].id == pr[i].id by {
                assert(outs[i]->Ok_0[k].id == reqs[i].id);
            }
        }
        assert(distinct_ids(pr));
        lemma_one_terminator_per_request(pr, po, uts);
        lemma_reply_ids(pr, po, uts);
        if outs[n] is Ok {
            assert forall|k: int| 0 <= k < outs.last()->Ok_0.len() implies (#[trigger] outs.last()->Ok_0[k]).id == reqs.last().id by {
                assert(outs[n]->Ok_0[k].id == reqs[n].id);
            }
        }
        lemma_replies_unfold(reqs, outs, uts);
        lemma_segment_ids(reqs.last(), outs.last(), uts);
        let v = replies(reqs, outs, uts)->Some_0;
        assert forall|i: int| 0 <= i < reqs.len() implies {
            &&& frames_for(v, #[trigger] reqs[i].id) == reply_segment(reqs[i], outs[i], uts)->Some_0
            &&& data_then_terminator(frames_for(v, reqs[i].id), reqs[i].id)
        } by {
            lemma_frames_for_request(reqs, outs, uts, i);
        }
    }
}

/// One step of the induction above: the request at `i`, given the claim for
/// all requests but the last.
#[verifier::rlimit(40)]
proof fn lemma_frames_for_request(
    reqs: Seq<MessageView>,
    outs: Seq<Result<Seq<MessageView>, Seq<char>>>,
    uts: u64,
    i: int,
)
    requires
        reqs.len() == outs.len(),
        0 <= i < reqs.len(),
        replies(reqs, outs, uts) is Some,
        distinct_ids(reqs),
        replies(reqs.drop_last(), outs.drop_last(), uts) is Some,
        forall|j: int|
            0 <= j < reqs.len() - 1 ==> frames_for(replies(reqs.drop_last(), outs.drop_last(), uts)->Some_0, #[trigger] reqs.drop_last()[j].id)
                == reply_segment(reqs.drop_last()[j], outs.drop_last()[j], uts)->Some_0,
        handler_keeps_ids(reqs.drop_last(), outs.drop_last()),
        forall|k: int|
            0 <= k < reply_segment(reqs.last(), outs.last(), uts)->Some_0.len() ==> (#[trigger] reply_segment(reqs.last(), outs.last(), uts)->Some_0[k]).id == reqs.last().id,
    ensures
        frames_for(replies(reqs, outs, uts)->Some_0, reqs[i].id) == reply_segment(reqs[i], outs[i], uts)->Some_0,
        data_then_terminator(frames_for(replies(reqs, outs, uts)->Some_0, reqs[i].id), reqs[i].id),
{
    let n = reqs.len() - 1;
    let (pr, po) = (reqs.drop_last(), outs.drop_last());
    let prev = replies(pr, po, uts)->Some_0;
    let seg = reply_segment(reqs.last(), outs.last(), uts)->Some_0;
    let v = replies(reqs, outs, uts)->Some_0;
    lemma_replies_unfold(reqs, outs, uts);
    assert(v == prev + seg);
    lemma_reply_ids(pr, po, uts);
    let x = reqs[i].id;
    let pred = |m: MessageView| m.id == x;
    Seq::filter_distributes_over_add(prev, seg, pred);
    lemma_frames_for_uniform(prev, x);
    lemma_frames_for_uniform(seg, x);
    if i == n {
        assert forall|k: int| 0 <= k < prev.len() implies (#[trigger] prev[k]).id != x by {
            let j = choose|j: int| 0 <= j < n && pr[j].id == prev[k].id;
            assert(reqs[j] == pr[j]);
        }
        assert(frames_for(v, x) =~= seg);
    } else {
        assert(reqs[i] == pr[i] && outs[i] == po[i]);
        assert forall|k: int| 0 <= k < seg.len() implies (#[trigger] seg[k]).id != x by {
            assert(reqs[n].id != reqs[i].id);
        }
        assert(frames_for(v, x) =~= frames_for(prev, x));
    }
    lemma_segments_written(reqs, outs, uts);
    lemma_segment_shape(reqs[i], outs[i], uts);
}

/// Where the replies can be written, so can each request's segment.
proof fn lemma_segments_written(
    reqs: Seq<MessageView>,
    outs: Seq<Result<Seq<MessageView>, Seq<char>>>,
    uts: u64,
)
    requires
        reqs.len() == outs.len(),
        replies(reqs, outs, uts) is Some,
    ensures
        forall|i: int| 0 <= i < reqs.len() ==> (#[trigger] reply_segment(reqs[i], outs[i], uts)) is Some,
    decreases reqs.len(),
{
    lemma_replies_unfold(reqs, outs, uts);
    if reqs.len() > 0 {
        let (pr, po) = (reqs.drop_last(), outs.drop_last());
        lemma_segments_written(pr, po, uts);
        assert forall|i: int| 0 <= i < reqs.len() implies (#[trigger] reply_segment(reqs[i], outs[i], uts)) is Some by {
            if i < reqs.len() - 1 {
                assert(reqs[i] == pr[i] && outs[i] == po[i]);
            }
        }
    }
}

/// A request whose handler fails is answered by a single `ERROR` frame with
/// its id and method name, whose value is the `FastError` object holding
/// the error's text; no `END` frame answers it.
pub proof fn lemma_handler_error_reply(req: MessageView, e: Seq<char>, uts: u64)
    requires
        json_quoted(e) is Some,
    ensures
        reply_segment(req, Err(e), uts) == Some(seq![error_frame(req, fast_error_text(e)->Some_0, uts)]),
        error_frame(req, fast_error_text(e)->Some_0, uts).status == FastMessageStatus::Error,
        error_frame(req, fast_error_text(e)->Some_0, uts).id == req.id,
        error_frame(req, fast_error_text(e)->Some_0, uts).data.name == req.data.name,
        fast_error_text(e)->Some_0 == "{\"name\":\"FastError\",\"message\":"@ + json_quoted(e)->Some_0 + "}"@,
{
}

} // verus!
