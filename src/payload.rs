//! The JSON payload of a frame.
//!
//! The envelope `{"m":{"name":..,"uts":..},"d":..}` is written here; JSON
//! text is read, and strings are quoted, by serde_json.

use std::collections::BTreeMap;

use serde_json::value::RawValue;
use vstd::prelude::*;
use vstd::string::*;
use vstd::utf8::encode_utf8;

use crate::protocol::{DataView, FastMessageData, FastMessageMetaData};

verus! {

/// The JSON string literal that serde_json writes for `s`, if it writes one.
pub uninterp spec fn json_quoted(s: Seq<char>) -> Option<Seq<char>>;

/// The members of the JSON object in `text`, each key with the raw JSON text
/// of its value; `None` where `text` is not such an object.
pub uninterp spec fn json_members(text: Seq<u8>) -> Option<Seq<(Seq<char>, Seq<char>)>>;

/// The string that the JSON text `text` denotes, if it is a JSON string.
pub uninterp spec fn json_string_of(text: Seq<char>) -> Option<Seq<char>>;

/// The number that the JSON text `text` denotes, if it is an unsigned
/// 64-bit integer.
pub uninterp spec fn json_u64_of(text: Seq<char>) -> Option<u64>;

pub open spec fn string_opt_view(r: Option<String>) -> Option<Seq<char>> {
    match r {
        Some(s) => Some(s@),
        None => None,
    }
}

pub open spec fn pairs_view(v: Seq<(String, String)>) -> Seq<(Seq<char>, Seq<char>)> {
    v.map_values(|p: (String, String)| (p.0@, p.1@))
}

pub open spec fn members_opt_view(r: Option<Vec<(String, String)>>) -> Option<Seq<(Seq<char>, Seq<char>)>> {
    match r {
        Some(v) => Some(pairs_view(v@)),
        None => None,
    }
}

/// Relies on `serde_json::to_string` on a `str`: the quoted and escaped JSON
/// string for `s`, a function of `s` alone. On a `str` it only writes into a
/// `Vec`, which cannot fail.
#[verifier::external_body]
pub(crate) fn quote(s: &str) -> (r: Option<String>)
    ensures
        r is Some,
        string_opt_view(r) == json_quoted(s@),
{
    serde_json::to_string(s).ok()
}

/// Relies on `serde_json::from_slice` into a map from keys to `RawValue`: the
/// members of a JSON object with the raw text of each value.
#[verifier::external_body]
pub(crate) fn object_members(text: &[u8]) -> (r: Option<Vec<(String, String)>>)
    ensures
        members_opt_view(r) == json_members(text@),
{
    serde_json::from_slice::<BTreeMap<String, Box<RawValue>>>(text).ok().map(
        |m| m.into_iter().map(|(k, v)| (k, v.get().to_string())).collect(),
    )
}

/// Relies on `serde_json::from_str` into a `String`: the string that a JSON
/// string literal denotes.
#[verifier::external_body]
pub(crate) fn unquote(text: &str) -> (r: Option<String>)
    ensures
        string_opt_view(r) == json_string_of(text@),
{
    serde_json::from_str::<String>(text).ok()
}

/// Relies on `serde_json::from_str` into a `u64`: the number that a JSON
/// number denotes, where it is an unsigned 64-bit integer.
#[verifier::external_body]
pub(crate) fn read_u64(text: &str) -> (r: Option<u64>)
    ensures
        r == json_u64_of(text@),
{
    serde_json::from_str::<u64>(text).ok()
}

/// The value of the first member named `k`, looking from index `i` on.
pub open spec fn lookup_from(ms: Seq<(Seq<char>, Seq<char>)>, k: Seq<char>, i: int) -> Option<Seq<char>>
    decreases ms.len() - i,
{
    if i < 0 || i >= ms.len() {
        None
    } else if ms[i].0 == k {
        Some(ms[i].1)
    } else {
        lookup_from(ms, k, i + 1)
    }
}

/// The value of the first member named `k`.
pub open spec fn lookup(ms: Seq<(Seq<char>, Seq<char>)>, k: Seq<char>) -> Option<Seq<char>> {
    lookup_from(ms, k, 0)
}

/// The raw text of the first member of `ms` named `key`.
pub fn find_member(ms: &Vec<(String, String)>, key: &str) -> (r: Option<String>)
    ensures
        string_opt_view(r) == lookup(pairs_view(ms@), key@),
{
    let k = String::from_str(key);
    let ghost pv = pairs_view(ms@);
    let mut i: usize = 0;
    while i < ms.len()
        invariant
            i <= ms.len(),
            k@ == key@,
            pv == pairs_view(ms@),
            lookup_from(pv, key@, 0) == lookup_from(pv, key@, i as int),
        decreases ms.len() - i,
    {
        if ms[i].0 == k {
            return Some(ms[i].1.clone());
        }
        i = i + 1;
    }
    None
}

/// The decimal digits of `n`, as ASCII bytes.
pub open spec fn decimal(n: nat) -> Seq<u8>
    decreases n,
{
    if n < 10 {
        seq![(48 + n) as u8]
    } else {
        decimal(n / 10).push((48 + n % 10) as u8)
    }
}

fn push_decimal(out: &mut Vec<u8>, n: u64)
    ensures
        final(out)@ == old(out)@ + decimal(n as nat),
    decreases n,
{
    if n >= 10 {
        push_decimal(out, n / 10);
    }
    out.push(48 + (n % 10) as u8);
    assert(final(out)@ =~= old(out)@ + decimal(n as nat));
}

pub(crate) fn push_all(out: &mut Vec<u8>, s: &[u8])
    ensures
        final(out)@ == old(out)@ + s@,
{
    let mut i: usize = 0;
    while i < s.len()
        invariant
            i <= s@.len(),
            out@ == old(out)@ + s@.subrange(0, i as int),
        decreases s@.len() - i,
    {
        out.push(s[i]);
        i = i + 1;
        assert(out@ =~= old(out)@ + s@.subrange(0, i as int));
    }
    assert(s@.subrange(0, s@.len() as int) =~= s@);
}

/// The `uts` member, when there is a time to write.
pub open spec fn uts_member(uts: Option<u64>) -> Seq<u8> {
    match uts {
        Some(u) => encode_utf8(",\"uts\":"@) + decimal(u as nat),
        None => Seq::empty(),
    }
}

/// The payload bytes for a method whose name is quoted as `q`.
pub open spec fn envelope(q: Seq<char>, uts: Option<u64>, d: Seq<char>) -> Seq<u8> {
    encode_utf8("{\"m\":{\"name\":"@) + encode_utf8(q) + uts_member(uts) + encode_utf8("},\"d\":"@)
        + encode_utf8(d) + encode_utf8("}"@)
}

/// The payload bytes of `data`, or `None` where its name cannot be quoted.
pub open spec fn payload_of(data: DataView) -> Option<Seq<u8>> {
    match json_quoted(data.name) {
        Some(q) => Some(envelope(q, data.uts, data.d)),
        None => None,
    }
}

pub open spec fn bytes_opt_view(r: Option<Vec<u8>>) -> Option<Seq<u8>> {
    match r {
        Some(v) => Some(v@),
        None => None,
    }
}

/// The payload bytes of `data`.
pub fn encode_payload(data: &FastMessageData) -> (r: Option<Vec<u8>>)
    ensures
        r is Some,
        bytes_opt_view(r) == payload_of(data@),
{
    let q = match quote(data.m.name.as_str()) {
        Some(q) => q,
        None => return None,
    };
    let mut out: Vec<u8> = Vec::new();
    push_all(&mut out, "{\"m\":{\"name\":".as_bytes());
    push_all(&mut out, q.as_str().as_bytes());
    match data.m.uts {
        Some(u) => {
            push_all(&mut out, ",\"uts\":".as_bytes());
            push_decimal(&mut out, u);
        },
        None => {},
    }
    push_all(&mut out, "},\"d\":".as_bytes());
    push_all(&mut out, data.d.as_str().as_bytes());
    push_all(&mut out, "}".as_bytes());
    assert(out@ =~= envelope(q@, data.m.uts, data.d@));
    Some(out)
}

/// The `uts` of a metadata object: absent, or an unsigned integer.
pub open spec fn decode_uts(ms: Seq<(Seq<char>, Seq<char>)>) -> Option<Option<u64>> {
    match lookup(ms, "uts"@) {
        None => Some(None),
        Some(t) => match json_u64_of(t) {
            Some(u) => Some(Some(u)),
            None => None,
        },
    }
}

/// Whether the raw JSON text `t` is an array or an object: raw text starts
/// at the value, so its first byte tells.
pub open spec fn is_container_text(t: Seq<char>) -> bool {
    let b = encode_utf8(t);
    b.len() > 0 && (b[0] == 0x5b || b[0] == 0x7b)
}

/// Whether the raw JSON text `t` is an array or an object.
pub fn is_container(t: &str) -> (r: bool)
    ensures
        r == is_container_text(t@),
{
    let b = t.as_bytes();
    b.len() > 0 && (b[0] == 0x5b || b[0] == 0x7b)
}

/// The payload that the bytes `p` hold, or `None` where they are not a JSON
/// object with a metadata object `m` (holding a string `name`) and a value
/// `d` that is an array or an object.
pub open spec fn decode_payload(p: Seq<u8>) -> Option<DataView> {
    match json_members(p) {
        None => None,
        Some(top) => match (lookup(top, "m"@), lookup(top, "d"@)) {
            (Some(mt), Some(dt)) => if is_container_text(dt) {
                decode_meta(mt, dt)
            } else {
                None
            },
            _ => None,
        },
    }
}

/// The payload with metadata text `mt` and value text `dt`, where `mt` is an
/// object holding a string `name` and, if any, an unsigned integer `uts`.
pub open spec fn decode_meta(mt: Seq<char>, dt: Seq<char>) -> Option<DataView> {
    match json_members(encode_utf8(mt)) {
        None => None,
        Some(ms) => match lookup(ms, "name"@) {
            None => None,
            Some(nt) => match (json_string_of(nt), decode_uts(ms)) {
                (Some(name), Some(uts)) => Some(DataView { name, uts, d: dt }),
                _ => None,
            },
        },
    }
}

pub open spec fn data_opt_view(r: Option<FastMessageData>) -> Option<DataView> {
    match r {
        Some(d) => Some(d@),
        None => None,
    }
}

/// The payload that the bytes `p` hold.
pub fn parse_payload(p: &[u8]) -> (r: Option<FastMessageData>)
    ensures
        data_opt_view(r) == decode_payload(p@),
{
    let top = match object_members(p) {
        Some(top) => top,
        None => return None,
    };
    let mt = match find_member(&top, "m") {
        Some(t) => t,
        None => return None,
    };
    let dt = match find_member(&top, "d") {
        Some(t) => t,
        None => return None,
    };
    if !is_container(dt.as_str()) {
        return None;
    }
    let ms = match object_members(mt.as_str().as_bytes()) {
        Some(ms) => ms,
        None => return None,
    };
    let nt = match find_member(&ms, "name") {
        Some(t) => t,
        None => return None,
    };
    let name = match unquote(nt.as_str()) {
        Some(n) => n,
        None => return None,
    };
    let uts = match find_member(&ms, "uts") {
        None => None,
        Some(t) => match read_u64(t.as_str()) {
            Some(u) => Some(u),
            None => return None,
        },
    };
    Some(FastMessageData { m: FastMessageMetaData { uts, name }, d: dt })
}

/// The error object that a server sends for a failed call whose error reads
/// `e`: `{"name":"FastError","message":<e quoted>}`.
pub open spec fn fast_error_text(e: Seq<char>) -> Option<Seq<char>> {
    match json_quoted(e) {
        Some(q) => Some("{\"name\":\"FastError\",\"message\":"@ + q + "}"@),
        None => None,
    }
}

/// The error object for a failed call whose error reads `e`.
pub fn fast_error_value(e: &str) -> (r: Option<String>)
    ensures
        r is Some,
        string_opt_view(r) == fast_error_text(e@),
{
    let q = match quote(e) {
        Some(q) => q,
        None => return None,
    };
    let head = String::from_str("{\"name\":\"FastError\",\"message\":");
    Some(head.concat(q.as_str()).concat("}"))
}

/// The name and message of the error object whose JSON text is `d`, where
/// it is an object with string members `name` and `message`.
pub open spec fn error_fields(d: Seq<char>) -> Option<(Seq<char>, Seq<char>)> {
    match json_members(encode_utf8(d)) {
        None => None,
        Some(ms) => match (lookup(ms, "name"@), lookup(ms, "message"@)) {
            (Some(nt), Some(mt)) => match (json_string_of(nt), json_string_of(mt)) {
                (Some(n), Some(m)) => Some((n, m)),
                _ => None,
            },
            _ => None,
        },
    }
}

/// The name and message of the error object whose JSON text is `d`.
pub fn parse_error_fields(d: &str) -> (r: Option<(String, String)>)
    ensures
        match r {
            Some((n, m)) => error_fields(d@) == Some((n@, m@)),
            None => error_fields(d@) is None,
        },
{
    let ms = match object_members(d.as_bytes()) {
        Some(ms) => ms,
        None => return None,
    };
    let nt = match find_member(&ms, "name") {
        Some(t) => t,
        None => return None,
    };
    let mt = match find_member(&ms, "message") {
        Some(t) => t,
        None => return None,
    };
    match (unquote(nt.as_str()), unquote(mt.as_str())) {
        (Some(n), Some(m)) => Some((n, m)),
        _ => None,
    }
}

} // verus!
