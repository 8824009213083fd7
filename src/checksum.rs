//! The payload checksum: CRC-16/ARC.

use crc16::{State, ARC};
use vstd::prelude::*;

verus! {

/// The CRC-16/ARC check value of `b` (polynomial 0x8005, reflected, initial
/// value and final XOR zero).
pub uninterp spec fn crc16_arc(b: Seq<u8>) -> u16;

/// Relies on crc16's `State::<ARC>::calculate`: the ARC check value of `b`,
/// which depends on the bytes alone.
#[verifier::external_body]
pub(crate) fn crc16_of(b: &[u8]) -> (r: u16)
    ensures
        r == crc16_arc(b@),
{
    State::<ARC>::calculate(b)
}

} // verus!
