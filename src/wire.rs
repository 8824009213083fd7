//! Big-endian integers as they appear in a frame header.

use byteorder::{BigEndian, ByteOrder};
use vstd::prelude::*;

verus! {

/// The four bytes of `n`, most significant first.
pub open spec fn be32_bytes(n: u32) -> Seq<u8> {
    seq![(n >> 24u32) as u8, (n >> 16u32) as u8, (n >> 8u32) as u8, n as u8]
}

/// The integer whose big-endian form is the first four bytes of `b`.
pub open spec fn be32_value(b: Seq<u8>) -> u32
    recommends
        b.len() >= 4,
{
    ((b[0] as u32) << 24u32) | ((b[1] as u32) << 16u32) | ((b[2] as u32) << 8u32) | (b[3] as u32)
}

/// Reading back the big-endian form of a number gives the number.
pub proof fn lemma_be32_round_trip(n: u32)
    ensures
        be32_value(be32_bytes(n)) == n,
{
    let b = be32_bytes(n);
    assert(((((n >> 24u32) as u8) as u32) << 24u32) | ((((n >> 16u32) as u8) as u32) << 16u32)
        | ((((n >> 8u32) as u8) as u32) << 8u32) | ((n as u8) as u32) == n) by (bit_vector);
}

/// Relies on byteorder's `BigEndian::read_u32`: the first four bytes of `b`,
/// most significant first. It panics on fewer than four bytes.
#[verifier::external_body]
pub(crate) fn read_be_u32(b: &[u8]) -> (r: u32)
    requires
        b@.len() >= 4,
    ensures
        r == be32_value(b@),
{
    BigEndian::read_u32(b)
}

} // verus!
