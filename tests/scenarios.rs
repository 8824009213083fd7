use bytes::BytesMut;
use serde_json::Value;

use fast_rpc::client::{
    parse_and_handle_messages, prepare_request, unspecified_error, BufferAction, ClientError,
    ReadOutcome, ReplyReader,
};
use fast_rpc::protocol::{
    encode_msg, FastMessage, FastMessageData, FastMessageId, FastMessageMetaData,
    FastMessageServerError, FastMessageStatus, FastMessageType, FastParseError, FastRpc,
};
use fast_rpc::rpc::{ProtocolViolation, RpcEvent, RpcState};
use fast_rpc::server::{respond, respond_at};

fn handler(msg: &FastMessage) -> Result<Vec<FastMessage>, String> {
    match msg.data.m.name.as_str() {
        "echo" => Ok(vec![FastMessage::data(msg.id, msg.data.clone())]),
        "yes" => {
            let args: Value = serde_json::from_str(&msg.data.d).map_err(|e| e.to_string())?;
            let value = args[0]["value"].clone();
            let count = args[0]["count"].as_u64().unwrap_or(0);
            let d = serde_json::to_string(&vec![value]).unwrap();
            Ok((0..count)
                .map(|_| FastMessage::data(msg.id, FastMessageData::new(msg.data.m.name.clone(), d.clone())))
                .collect())
        }
        _ => Err(format!("Unsupported function: {}", msg.data.m.name)),
    }
}

/// Reads every request frame in `requests` and returns the reply bytes.
fn serve(requests: &mut BytesMut) -> BytesMut {
    let mut rpc = FastRpc::new();
    let reqs = rpc.decode(requests).unwrap().unwrap();
    let results: Vec<_> = reqs.iter().map(handler).collect();
    let replies = respond(&reqs, results).unwrap();
    let mut wire = BytesMut::new();
    rpc.encode(replies, &mut wire).unwrap();
    wire
}

fn request(method: &str, args: &str, ids: &mut FastMessageId) -> BytesMut {
    let mut buf = BytesMut::new();
    let n = prepare_request(method.to_string(), args.to_string(), ids, &mut buf).unwrap();
    assert_eq!(n, buf.len());
    buf
}

/// Feeds the reply to a reader in chunks of the given sizes (the last one
/// repeating) and returns the frames handed over and the final outcome.
fn read_reply(wire: &[u8], sizes: &[usize]) -> (Vec<FastMessage>, ReadOutcome) {
    let mut reader = ReplyReader::new();
    let mut frames = Vec::new();
    let mut pos = 0;
    let mut i = 0;
    while pos < wire.len() {
        let n = sizes[i.min(sizes.len() - 1)].min(wire.len() - pos);
        let step = reader.on_read(&wire[pos..pos + n]);
        pos += n;
        i += 1;
        frames.extend(step.frames);
        match step.outcome {
            ReadOutcome::Continue => {}
            other => return (frames, other),
        }
    }
    (frames, ReadOutcome::Continue)
}

fn json(text: &str) -> Value {
    serde_json::from_str(text).unwrap()
}

#[test]
fn echo_call() {
    let mut ids = FastMessageId::new();
    let mut req = request("echo", "[\"abc\"]", &mut ids);
    let sent = FastMessage::parse(&req).unwrap();
    assert_eq!((sent.id, sent.status), (0, FastMessageStatus::Data));
    let wire = serve(&mut req);
    let on_wire = FastRpc::new().decode(&mut wire.clone()).unwrap().unwrap();
    assert_eq!(on_wire.len(), 2);
    assert_eq!((on_wire[0].status, on_wire[0].id), (FastMessageStatus::Data, 0));
    assert_eq!(json(&on_wire[0].data.d), json("[\"abc\"]"));
    assert_eq!((on_wire[1].status, on_wire[1].id), (FastMessageStatus::End, 0));
    assert_eq!(on_wire[1].data.m.name, "echo");
    assert_eq!(json(&on_wire[1].data.d), json("[]"));
    let (frames, outcome) = read_reply(&wire, &[wire.len()]);
    assert_eq!(frames.iter().filter(|f| json(&f.data.d) == json("[\"abc\"]")).count(), 1);
    assert!(matches!(outcome, ReadOutcome::Done(n) if n == wire.len()));
}

#[test]
fn yes_repeat_call() {
    let mut ids = FastMessageId::new();
    let mut req = request("yes", "[{\"value\":\"x\",\"count\":3}]", &mut ids);
    let wire = serve(&mut req);
    let on_wire = FastRpc::new().decode(&mut wire.clone()).unwrap().unwrap();
    let statuses: Vec<_> = on_wire.iter().map(|f| f.status).collect();
    assert_eq!(
        statuses,
        vec![FastMessageStatus::Data, FastMessageStatus::Data, FastMessageStatus::Data, FastMessageStatus::End]
    );
    let (frames, outcome) = read_reply(&wire, &[wire.len()]);
    assert_eq!(frames.len(), 4);
    for f in &frames[..3] {
        assert_eq!(json(&f.data.d), json("[\"x\"]"));
    }
    assert_eq!(json(&frames[3].data.d), json("[]"));
    assert!(matches!(outcome, ReadOutcome::Done(_)));
}

#[test]
fn unknown_method_call() {
    let mut ids = FastMessageId::new();
    let mut req = request("no_such", "[]", &mut ids);
    let wire = serve(&mut req);
    let on_wire = FastRpc::new().decode(&mut wire.clone()).unwrap().unwrap();
    assert_eq!(on_wire.len(), 1);
    assert_eq!((on_wire[0].status, on_wire[0].id), (FastMessageStatus::Error, 0));
    assert_eq!(on_wire[0].data.m.name, "no_such");
    assert_eq!(
        json(&on_wire[0].data.d),
        json("{\"name\":\"FastError\",\"message\":\"Unsupported function: no_such\"}")
    );
    let (frames, outcome) = read_reply(&wire, &[wire.len()]);
    assert!(frames.is_empty());
    match outcome {
        ReadOutcome::Failed(ClientError::Remote(e)) => {
            assert_eq!(e.to_message(), "FastError: Unsupported function: no_such")
        }
        _ => panic!("expected a remote error"),
    }
}

#[test]
fn partial_reads() {
    let mut ids = FastMessageId::new();
    let base = serve(&mut request("echo", "[\"\"]", &mut FastMessageId::new())).len();
    let fill = "p".repeat(600 - base);
    let mut req = request("echo", &format!("[\"{}\"]", fill), &mut ids);
    let wire = serve(&mut req);
    assert_eq!(wire.len(), 600);
    let (whole, whole_outcome) = read_reply(&wire, &[wire.len()]);
    let (parts, parts_outcome) = read_reply(&wire, &[1, 7, 128, wire.len()]);
    assert_eq!(whole.len(), 2);
    assert_eq!(parts.len(), whole.len());
    for (a, b) in parts.iter().zip(whole.iter()) {
        assert!(a == b);
    }
    assert!(matches!(whole_outcome, ReadOutcome::Done(600)));
    assert!(matches!(parts_outcome, ReadOutcome::Done(600)));
}

#[test]
fn client_server_comms() {
    for i in 1..100usize {
        let size = i * 1000;
        let args = serde_json::to_string(&vec!["a".repeat(size)]).unwrap();
        let mut ids = FastMessageId::new();
        let mut req = request("echo", &args, &mut ids);
        let wire = serve(&mut req);
        let (frames, outcome) = read_reply(&wire, &[128]);
        assert!(matches!(outcome, ReadOutcome::Done(_)));
        let data: Vec<String> = serde_json::from_str(&frames[0].data.d).unwrap();
        assert_eq!(data.len(), 1);
        assert_eq!(data[0].len(), size);
        assert_eq!(frames[0].id, 0);
    }
}

fn request_msg(id: u32, name: &str) -> FastMessage {
    FastMessage::data(id, FastMessageData::new(name.to_string(), "[]".to_string()))
}

#[test]
fn one_terminator_per_request() {
    let reqs = vec![request_msg(1, "a"), request_msg(2, "b"), request_msg(3, "c")];
    let results = vec![
        Ok(vec![request_msg(1, "a"), request_msg(1, "a"), FastMessage::end(1, "a".to_string())]),
        Err("nope".to_string()),
        Ok(vec![]),
    ];
    let out = respond_at(&reqs, results, 5).unwrap();
    let shape: Vec<_> = out.iter().map(|f| (f.id, f.status)).collect();
    assert_eq!(
        shape,
        vec![
            (1, FastMessageStatus::Data),
            (1, FastMessageStatus::Data),
            (1, FastMessageStatus::End),
            (2, FastMessageStatus::Error),
            (3, FastMessageStatus::End),
        ]
    );
    for f in &out[2..] {
        assert_eq!(f.data.m.uts, Some(5));
    }
    assert_eq!(out[2].data.m.name, "a");
    assert_eq!(out[4].data.d, "[]");
}

#[test]
fn handler_error_becomes_error_frame() {
    let reqs = vec![request_msg(9, "thing")];
    let out = respond(&reqs, vec![Err("it \"broke\"".to_string())]).unwrap();
    assert_eq!(out.len(), 1);
    assert_eq!((out[0].id, out[0].status), (9, FastMessageStatus::Error));
    assert_eq!(out[0].data.m.name, "thing");
    assert_eq!(out[0].data.d, "{\"name\":\"FastError\",\"message\":\"it \\\"broke\\\"\"}");
    let v = json(&out[0].data.d);
    assert_eq!(v["message"], "it \"broke\"");
}

fn error_frame_bytes(d: &str) -> BytesMut {
    let m = FastMessage {
        msg_type: FastMessageType::Json,
        status: FastMessageStatus::Error,
        id: 0,
        msg_size: None,
        data: FastMessageData { m: FastMessageMetaData { uts: None, name: "x".to_string() }, d: d.to_string() },
    };
    let mut buf = BytesMut::new();
    encode_msg(&m, &mut buf).unwrap();
    buf
}

#[test]
fn malformed_error_object_is_unspecified() {
    for d in ["[]", "{\"name\":1,\"message\":\"m\"}", "{\"name\":\"n\"}"] {
        let wire = error_frame_bytes(d);
        let (frames, action) = parse_and_handle_messages(&wire, true, None);
        assert!(frames.is_empty());
        match action {
            BufferAction::Remote(e) => {
                assert_eq!(e.name, "UnspecifiedServerError");
                assert_eq!(e.message, "Server reported unspecified error.");
            }
            _ => panic!("expected a remote error"),
        }
    }
    let u = unspecified_error();
    assert_eq!(u.to_message(), "UnspecifiedServerError: Server reported unspecified error.");
    let wire = error_frame_bytes("{\"name\":\"E\",\"message\":\"m\",\"extra\":true}");
    match parse_and_handle_messages(&wire, true, None).1 {
        BufferAction::Remote(e) => assert_eq!(e.to_message(), "E: m"),
        _ => panic!("expected a remote error"),
    }
}

#[test]
fn reader_reports_parse_failure_and_waits() {
    let mut reader = ReplyReader::new();
    let step = reader.on_read(&[1, 1, 1]);
    assert!(step.frames.is_empty());
    assert!(matches!(step.outcome, ReadOutcome::Continue));
    let step = reader.on_read(&[0, 0, 0, 0, 0, 0, 0, 0, 0, 0, 0, 5]);
    assert!(matches!(step.outcome, ReadOutcome::Continue));
    let mut reader = ReplyReader::new();
    let step = reader.on_read(&[9u8; 20]);
    assert!(matches!(
        step.outcome,
        ReadOutcome::Failed(ClientError::Parse(FastParseError::Malformed(_)))
    ));
    let (frames, action) = parse_and_handle_messages(&[], true, None);
    assert!(frames.is_empty());
    assert!(matches!(action, BufferAction::Trim(0)));
}

#[test]
fn reader_stops_at_end() {
    let mut wire = BytesMut::new();
    let mut rpc = FastRpc::new();
    rpc.encode(
        vec![request_msg(0, "a"), FastMessage::end(0, "a".to_string()), request_msg(0, "late")],
        &mut wire,
    )
    .unwrap();
    wire.extend_from_slice(&[7u8; 30]);
    let (frames, action) = parse_and_handle_messages(&wire, true, None);
    assert_eq!(frames.len(), 2);
    assert!(matches!(action, BufferAction::Done));
}

#[test]
fn server_error_new() {
    let e = FastMessageServerError::new("Name", "message text");
    assert_eq!(e.to_message(), "Name: message text");
}

#[test]
fn rpc_state_machine() {
    let s = RpcState::Idle.advance(RpcEvent::Request).unwrap();
    assert_eq!(s, RpcState::Open);
    let s = s.advance(RpcEvent::Data).unwrap();
    assert_eq!(s, RpcState::Open);
    let t = s.advance(RpcEvent::End).unwrap();
    assert_eq!(t, RpcState::Terminated);
    assert_eq!(s.advance(RpcEvent::Error).unwrap(), RpcState::Terminated);
    assert!(t.advance(RpcEvent::Data).is_err());
    assert!(RpcState::Idle.advance(RpcEvent::Data).is_err());
    assert!(RpcState::Open.advance(RpcEvent::Request).is_err());
    let v = RpcState::Terminated.advance(RpcEvent::End).unwrap_err();
    assert_eq!((v.state, v.event), (RpcState::Terminated, RpcEvent::End));
}

#[test]
fn reader_for_id_rejects_other_ids() {
    let mut wire = BytesMut::new();
    let mut rpc = FastRpc::new();
    rpc.encode(
        vec![request_msg(4, "a"), request_msg(5, "b"), FastMessage::end(4, "a".to_string())],
        &mut wire,
    )
    .unwrap();
    let mut reader = ReplyReader::for_id(4);
    let step = reader.on_read(&wire);
    assert_eq!(step.frames.len(), 1);
    assert_eq!(step.frames[0].id, 4);
    match step.outcome {
        ReadOutcome::Failed(ClientError::Protocol(v)) => {
            assert_eq!(v, ProtocolViolation { state: RpcState::Idle, event: RpcEvent::Data })
        }
        _ => panic!("expected a protocol violation"),
    }
    let (frames, action) = parse_and_handle_messages(&wire, true, Some(4));
    assert_eq!(frames.len(), 1);
    assert!(matches!(action, BufferAction::Violation(_)));
    let (frames, action) = parse_and_handle_messages(&wire, true, None);
    assert_eq!(frames.len(), 3);
    assert!(matches!(action, BufferAction::Done));
    let mut wire = BytesMut::new();
    rpc.encode(vec![request_msg(4, "a"), FastMessage::end(4, "a".to_string())], &mut wire).unwrap();
    let step = ReplyReader::for_id(4).on_read(&wire);
    assert_eq!(step.frames.len(), 2);
    assert!(matches!(step.outcome, ReadOutcome::Done(_)));
}
