use bytes::BytesMut;

use fast_rpc::payload::encode_payload;
use fast_rpc::protocol::{
    encode_msg, FastMessage, FastMessageData, FastMessageId,
    FastMessageMetaData, FastMessageStatus, FastMessageType, FastParseError, FastRpc,
    Malformation, FP_HEADER_SZ,
};

fn crc16_of(b: &[u8]) -> u16 {
    crc16::State::<crc16::ARC>::calculate(b)
}

fn read_be_u32(b: &[u8]) -> u32 {
    u32::from_be_bytes([b[0], b[1], b[2], b[3]])
}

fn message(status: FastMessageStatus, id: u32, name: &str, d: &str) -> FastMessage {
    FastMessage {
        msg_type: FastMessageType::Json,
        status,
        id,
        msg_size: None,
        data: FastMessageData {
            m: FastMessageMetaData { uts: Some(1_588_000_000_123_456), name: name.to_string() },
            d: d.to_string(),
        },
    }
}

fn encoded(m: &FastMessage) -> Vec<u8> {
    let mut buf = BytesMut::new();
    encode_msg(m, &mut buf).unwrap();
    buf.to_vec()
}

fn same_fields(a: &FastMessage, b: &FastMessage) -> bool {
    a.msg_type == b.msg_type
        && a.status == b.status
        && a.id == b.id
        && a.data.m.name == b.data.m.name
        && a.data.m.uts == b.data.m.uts
        && a.data.d == b.data.d
}

fn samples() -> Vec<FastMessage> {
    vec![
        message(FastMessageStatus::Data, 0, "echo", "[\"abc\"]"),
        message(FastMessageStatus::End, 7, "date", "[]"),
        message(FastMessageStatus::Error, 0xffff_ffff, "yes", "{\"name\":\"FastError\",\"message\":\"boom\"}"),
        message(FastMessageStatus::Data, 42, "quo\"ted\\name\n", "{}"),
        message(FastMessageStatus::Data, 3, "", "[{\"value\":{\"k\":\"v\"},\"count\":12345678901234}]"),
    ]
}

#[test]
fn round_trip_keeps_fields() {
    for m in samples() {
        let bytes = encoded(&m);
        let parsed = FastMessage::parse(&bytes).unwrap();
        assert!(same_fields(&parsed, &m));
        assert_eq!(parsed.msg_size, Some(bytes.len()));
        assert_eq!(bytes.len(), FP_HEADER_SZ + encode_payload(&m.data).unwrap().len());
    }
}

#[test]
fn round_trip_without_timestamp() {
    let mut m = message(FastMessageStatus::Data, 5, "echo", "[1,2,3]");
    m.data.m.uts = None;
    let parsed = FastMessage::parse(&encoded(&m)).unwrap();
    assert!(same_fields(&parsed, &m));
    assert_eq!(parsed.data.m.uts, None);
}

#[test]
fn header_layout() {
    let m = message(FastMessageStatus::End, 0x0102_0304, "echo", "[]");
    let bytes = encoded(&m);
    let payload = encode_payload(&m.data).unwrap();
    assert_eq!(bytes[0], 1);
    assert_eq!(bytes[1], 1);
    assert_eq!(bytes[2], 2);
    assert_eq!(&bytes[3..7], &[1, 2, 3, 4]);
    assert_eq!(read_be_u32(&bytes[7..11]), crc16_of(&payload) as u32);
    assert_eq!(&bytes[7..9], &[0, 0]);
    assert_eq!(read_be_u32(&bytes[11..15]) as usize, payload.len());
    assert_eq!(&bytes[15..], payload.as_slice());
}

#[test]
fn payload_text() {
    let m = message(FastMessageStatus::Data, 1, "a\"b", "[\"x\"]");
    let payload = encode_payload(&m.data).unwrap();
    assert_eq!(
        String::from_utf8(payload).unwrap(),
        "{\"m\":{\"name\":\"a\\\"b\",\"uts\":1588000000123456},\"d\":[\"x\"]}"
    );
    let v: serde_json::Value = serde_json::from_slice(&encode_payload(&m.data).unwrap()).unwrap();
    assert_eq!(v["m"]["name"], "a\"b");
    assert_eq!(v["d"][0], "x");
}

#[test]
fn parses_foreign_member_order_and_spacing() {
    let payload = b"{ \"d\" : [ 1 ], \"m\" : { \"uts\" : 12 , \"name\" : \"n\\u0041\" } }";
    let mut frame = vec![1u8, 1, 1, 0, 0, 0, 9];
    frame.extend_from_slice(&(crc16_of(payload) as u32).to_be_bytes());
    frame.extend_from_slice(&(payload.len() as u32).to_be_bytes());
    frame.extend_from_slice(payload);
    let parsed = FastMessage::parse(&frame).unwrap();
    assert_eq!(parsed.id, 9);
    assert_eq!(parsed.data.m.name, "nA");
    assert_eq!(parsed.data.m.uts, Some(12));
    assert_eq!(parsed.data.d, "[ 1 ]");
}

#[test]
fn checksum_in_header() {
    let m = message(FastMessageStatus::Data, 1, "123456789", "[]");
    let mut bytes = encoded(&m);
    let payload = b"123456789";
    let len = payload.len() as u32;
    bytes.truncate(FP_HEADER_SZ);
    bytes[7..11].copy_from_slice(&0xBB3Du32.to_be_bytes());
    bytes[11..15].copy_from_slice(&len.to_be_bytes());
    bytes.extend_from_slice(payload);
    assert_eq!(FastMessage::parse(&bytes).unwrap_err(), FastParseError::Malformed(Malformation::Payload));
    bytes[8] = 0x3C;
    assert_eq!(FastMessage::parse(&bytes).unwrap_err(), FastParseError::ChecksumMismatch);
}

#[test]
fn bundled_copies_split_into_copies() {
    for k in [1usize, 2, 5, 64] {
        let m = message(FastMessageStatus::Data, 11, "echo", "[\"bundle\"]");
        let mut buf = BytesMut::new();
        let mut rpc = FastRpc::new();
        rpc.encode(vec![m.clone(); k], &mut buf).unwrap();
        let decoded = rpc.decode(&mut buf).unwrap().unwrap();
        assert_eq!(decoded.len(), k);
        for d in &decoded {
            assert!(same_fields(d, &m));
        }
        assert!(buf.is_empty());
    }
}

#[test]
fn chunked_feeding_matches_whole() {
    let msgs = samples();
    let mut whole = BytesMut::new();
    let mut rpc = FastRpc::new();
    rpc.encode(msgs.clone(), &mut whole).unwrap();
    let stream = whole.to_vec();
    let at_once = rpc.decode(&mut whole).unwrap().unwrap();
    assert_eq!(at_once.len(), msgs.len());
    for sizes in [vec![1usize], vec![3, 14, 1], vec![15], vec![7, 128], vec![100000]] {
        let mut held = BytesMut::new();
        let mut got: Vec<FastMessage> = Vec::new();
        let mut pos = 0;
        let mut i = 0;
        while pos < stream.len() {
            let n = sizes[i % sizes.len()].min(stream.len() - pos);
            held.extend_from_slice(&stream[pos..pos + n]);
            pos += n;
            i += 1;
            if let Some(mut ms) = rpc.decode(&mut held).unwrap() {
                got.append(&mut ms);
            }
        }
        assert!(held.is_empty());
        assert_eq!(got.len(), at_once.len());
        for (a, b) in got.iter().zip(at_once.iter()) {
            assert!(same_fields(a, b));
            assert_eq!(a.msg_size, b.msg_size);
        }
    }
}

#[test]
fn need_more_consumes_nothing() {
    let bytes = encoded(&message(FastMessageStatus::Data, 1, "echo", "[\"abc\"]"));
    let mut rpc = FastRpc::new();
    for cut in [0usize, 1, 14, 15, 16, bytes.len() - 1] {
        let part = &bytes[..cut];
        assert_eq!(FastMessage::parse(part).unwrap_err(), FastParseError::NotEnoughBytes(cut));
        let mut buf = BytesMut::from(part);
        assert!(rpc.decode(&mut buf).unwrap().is_none());
        assert_eq!(&buf[..], part);
        let mut more = part.to_vec();
        more.extend_from_slice(&bytes[cut..]);
        assert!(FastMessage::parse(&more).is_ok());
    }
}

#[test]
fn flipped_payload_bit_is_rejected() {
    let bytes = encoded(&message(FastMessageStatus::Data, 77, "echo", "[\"flip me\"]"));
    for i in FP_HEADER_SZ..bytes.len() {
        for bit in 0..8 {
            let mut bad = bytes.clone();
            bad[i] ^= 1 << bit;
            assert_eq!(FastMessage::parse(&bad).unwrap_err(), FastParseError::ChecksumMismatch);
        }
    }
}

#[test]
fn zero_checksum_in_legacy_mode() {
    let mut bytes = encoded(&message(FastMessageStatus::Data, 3, "echo", "[\"legacy\"]"));
    assert_ne!(crc16_of(&bytes[FP_HEADER_SZ..]), 0);
    for b in &mut bytes[7..11] {
        *b = 0;
    }
    assert!(FastMessage::parse_with(&bytes, false).is_ok());
    assert_eq!(FastMessage::parse(&bytes).unwrap_err(), FastParseError::ChecksumMismatch);
    let mut buf = BytesMut::from(&bytes[..]);
    assert_eq!(FastRpc::legacy().decode(&mut buf).unwrap().unwrap().len(), 1);
    let mut buf = BytesMut::from(&bytes[..]);
    assert_eq!(FastRpc::new().decode(&mut buf).unwrap_err(), FastParseError::ChecksumMismatch);
    assert_eq!(buf.len(), bytes.len());
}

#[test]
fn malformed_headers() {
    let good = encoded(&message(FastMessageStatus::Data, 3, "echo", "[]"));
    let mut bad = good.clone();
    bad[0] = 2;
    assert_eq!(FastMessage::parse(&bad).unwrap_err(), FastParseError::Malformed(Malformation::Version));
    let mut bad = good.clone();
    bad[1] = 2;
    assert_eq!(FastMessage::parse(&bad).unwrap_err(), FastParseError::Malformed(Malformation::MessageType));
    let mut bad = good.clone();
    bad[2] = 4;
    assert_eq!(FastMessage::parse(&bad).unwrap_err(), FastParseError::Malformed(Malformation::Status));
    let mut bad = good.clone();
    bad[2] = 0;
    assert_eq!(FastMessage::parse(&bad[..15]).unwrap_err(), FastParseError::Malformed(Malformation::Status));
}

fn frame_with_payload(payload: &[u8]) -> Vec<u8> {
    let mut frame = vec![1u8, 1, 1, 0, 0, 0, 1];
    frame.extend_from_slice(&(crc16_of(payload) as u32).to_be_bytes());
    frame.extend_from_slice(&(payload.len() as u32).to_be_bytes());
    frame.extend_from_slice(payload);
    frame
}

#[test]
fn malformed_payloads() {
    let cases: Vec<&[u8]> = vec![
        b"not json",
        b"[1,2]",
        b"{\"d\":[]}",
        b"{\"m\":{\"name\":\"x\"}}",
        b"{\"m\":{\"uts\":1},\"d\":[]}",
        b"{\"m\":{\"name\":5},\"d\":[]}",
        b"{\"m\":{\"name\":\"x\",\"uts\":-1},\"d\":[]}",
        b"{\"m\":{\"name\":\"x\"},\"d\":[]",
        b"{\"m\":{\"name\":\"\xff\"},\"d\":[]}",
    ];
    for p in cases {
        let frame = frame_with_payload(p);
        assert_eq!(FastMessage::parse(&frame).unwrap_err(), FastParseError::Malformed(Malformation::Payload));
        let mut buf = BytesMut::from(&frame[..]);
        assert!(FastRpc::new().decode(&mut buf).is_err());
    }
    let ok = frame_with_payload(b"{\"m\":{\"name\":\"x\"},\"d\":[]}");
    assert!(FastMessage::parse(&ok).is_ok());
}

#[test]
fn check_buffer_size_and_header() {
    assert_eq!(FastMessage::check_buffer_size(&[0u8; 14]).unwrap_err(), FastParseError::NotEnoughBytes(14));
    assert!(FastMessage::check_buffer_size(&[0u8; 15]).is_ok());
    let bytes = encoded(&message(FastMessageStatus::Error, 99, "echo", "[]"));
    let h = FastMessage::parse_header(&bytes).unwrap();
    assert_eq!(h.status, FastMessageStatus::Error);
    assert_eq!(h.msg_type, FastMessageType::Json);
    assert_eq!(h.id, 99);
    assert_eq!(h.data_len, bytes.len() - FP_HEADER_SZ);
}

#[test]
fn constructors() {
    let d = FastMessageData::new("echo".to_string(), "[\"abc\"]".to_string());
    assert_eq!(d.m.name, "echo");
    assert!(d.m.uts.unwrap() > 1_500_000_000_000_000);
    let m = FastMessage::data(4, d.clone());
    assert_eq!((m.status, m.id, m.msg_size), (FastMessageStatus::Data, 4, None));
    let e = FastMessage::error(5, d);
    assert_eq!((e.status, e.id), (FastMessageStatus::Error, 5));
    let end = FastMessage::end(6, "echo".to_string());
    assert_eq!((end.status, end.id), (FastMessageStatus::End, 6));
    assert_eq!(end.data.d, "[]");
    assert_eq!(end.data.m.name, "echo");
    assert!(m == m.clone());
    assert!(m != end);
}

#[test]
fn message_ids_count_up() {
    let mut ids = FastMessageId::new();
    assert_eq!(ids.next(), 0);
    assert_eq!(ids.next(), 1);
    assert_eq!(ids.next(), 2);
}

#[test]
fn value_must_be_array_or_object() {
    for d in ["5", "\"s\"", "null", "true", "-1.5"] {
        let payload = format!("{{\"m\":{{\"name\":\"x\"}},\"d\":{}}}", d);
        let frame = frame_with_payload(payload.as_bytes());
        assert_eq!(FastMessage::parse(&frame).unwrap_err(), FastParseError::Malformed(Malformation::Payload));
    }
    for d in ["[]", "{}", "[5]", "{\"name\":\"E\"}"] {
        let payload = format!("{{\"m\":{{\"name\":\"x\"}},\"d\":{}}}", d);
        let frame = frame_with_payload(payload.as_bytes());
        assert_eq!(FastMessage::parse(&frame).unwrap().data.d, d);
    }
}
