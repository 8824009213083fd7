//! The life of one RPC, as the frames with its id go by: the client's
//! request opens it, the server's `DATA` frames leave it open, and one `END`
//! or `ERROR` frame ends it. Any other frame breaks the protocol.

use vstd::prelude::*;

use crate::protocol::{FastMessageStatus, MessageView};
use crate::server::data_then_terminator;

verus! {

/// Where an RPC stands.
#[derive(Debug, Clone, Copy, PartialEq, Eq, Structural)]
pub enum RpcState {
    /// No request with this id is in flight.
    Idle,
    /// The request was sent; its terminator has not come.
    Open,
    /// The terminator came; the id may be used again.
    Terminated,
}

/// A frame with the RPC's id.
#[derive(Debug, Clone, Copy, PartialEq, Eq, Structural)]
pub enum RpcEvent {
    /// The client's `DATA` frame: the request.
    Request,
    /// A server `DATA` frame.
    Data,
    /// The server's `END` frame.
    End,
    /// The server's `ERROR` frame.
    Error,
}

/// A frame that the protocol does not allow where it came.
#[derive(Debug, Clone, Copy, PartialEq, Eq, Structural)]
pub struct ProtocolViolation {
    pub state: RpcState,
    pub event: RpcEvent,
}

/// The state after `e` in state `s`, or `None` where `e` breaks the protocol.
pub open spec fn rpc_step(s: RpcState, e: RpcEvent) -> Option<RpcState> {
    match (s, e) {
        (RpcState::Idle, RpcEvent::Request) => Some(RpcState::Open),
        (RpcState::Open, RpcEvent::Data) => Some(RpcState::Open),
        (RpcState::Open, RpcEvent::End) => Some(RpcState::Terminated),
        (RpcState::Open, RpcEvent::Error) => Some(RpcState::Terminated),
        _ => None,
    }
}

/// The state after the events `es`, from `s`, or `None` where one breaks the
/// protocol.
pub open spec fn rpc_run(s: RpcState, es: Seq<RpcEvent>) -> Option<RpcState>
    decreases es.len(),
{
    if es.len() == 0 {
        Some(s)
    } else {
        match rpc_step(s, es[0]) {
            Some(t) => rpc_run(t, es.drop_first()),
            None => None,
        }
    }
}

/// The event that a server frame with status `st` is.
pub open spec fn server_event(st: FastMessageStatus) -> RpcEvent {
    match st {
        FastMessageStatus::Data => RpcEvent::Data,
        FastMessageStatus::End => RpcEvent::End,
        FastMessageStatus::Error => RpcEvent::Error,
    }
}

impl RpcEvent {
    /// The event that a server frame with status `st` is.
    pub fn of_server_status(st: FastMessageStatus) -> (r: RpcEvent)
        ensures
            r == server_event(st),
    {
        match st {
            FastMessageStatus::Data => RpcEvent::Data,
            FastMessageStatus::End => RpcEvent::End,
            FastMessageStatus::Error => RpcEvent::Error,
        }
    }
}

impl RpcState {
    /// The state after the frame `e`, or the violation it is.
    pub fn advance(self, e: RpcEvent) -> (r: Result<RpcState, ProtocolViolation>)
        ensures
            match rpc_step(self, e) {
                Some(t) => r == Ok::<RpcState, ProtocolViolation>(t),
                None => r == Err::<RpcState, ProtocolViolation>(ProtocolViolation { state: self, event: e }),
            },
    {
        match (self, e) {
            (RpcState::Idle, RpcEvent::Request) => Ok(RpcState::Open),
            (RpcState::Open, RpcEvent::Data) => Ok(RpcState::Open),
            (RpcState::Open, RpcEvent::End) => Ok(RpcState::Terminated),
            (RpcState::Open, RpcEvent::Error) => Ok(RpcState::Terminated),
            _ => Err(ProtocolViolation { state: self, event: e }),
        }
    }
}

/// A request followed by server frames that are `DATA` frames and then one
/// terminator takes an RPC from idle to terminated, with no violation.
pub proof fn lemma_answer_terminates(seg: Seq<MessageView>, id: u32)
    requires
        data_then_terminator(seg, id),
    ensures
        rpc_run(
            RpcState::Idle,
            seq![RpcEvent::Request] + seg.map_values(|m: MessageView| server_event(m.status)),
        ) == Some(RpcState::Terminated),
{
    let es = seg.map_values(|m: MessageView| server_event(m.status));
    let all = seq![RpcEvent::Request] + es;
    assert(all[0] == RpcEvent::Request);
    assert(all.drop_first() =~= es);
    assert(es[es.len() - 1] == server_event(seg.last().status));
    assert forall|j: int| 0 <= j < es.len() - 1 implies es[j] == RpcEvent::Data by {
        assert(seg[j].status == FastMessageStatus::Data);
    }
    lemma_open_run(es, 0);
    assert(es.subrange(0, es.len() as int) =~= es);
}

proof fn lemma_open_run(es: Seq<RpcEvent>, k: int)
    requires
        0 <= k < es.len(),
        es[es.len() - 1] == RpcEvent::End || es[es.len() - 1] == RpcEvent::Error,
        forall|j: int| k <= j < es.len() - 1 ==> es[j] == RpcEvent::Data,
    ensures
        rpc_run(RpcState::Open, es.subrange(k, es.len() as int)) == Some(RpcState::Terminated),
    decreases es.len() - k,
{
    let rest = es.subrange(k, es.len() as int);
    assert(rest.drop_first() =~= es.subrange(k + 1, es.len() as int));
    assert(rest[0] == es[k]);
    if k == es.len() - 1 {
        assert(rpc_run(RpcState::Terminated, rest.drop_first()) == Some(RpcState::Terminated));
    } else {
        lemma_open_run(es, k + 1);
    }
}

} // verus!
