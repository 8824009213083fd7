//! The growable byte buffer that frames are written into and read from.

use bytes::{Buf, BufMut, BytesMut};
use vstd::prelude::*;

use crate::wire::be32_bytes;

verus! {

#[verifier::external_type_specification]
#[verifier::external_body]
pub struct ExBytesMut(BytesMut);

/// The bytes that a buffer holds, in order.
pub uninterp spec fn buffer_bytes(b: BytesMut) -> Seq<u8>;

/// Relies on `BytesMut::len`: the number of bytes held.
#[verifier::external_body]
pub(crate) fn buffer_len(b: &BytesMut) -> (r: usize)
    ensures
        r == buffer_bytes(*b).len(),
{
    b.len()
}

/// Relies on `BytesMut`'s `AsRef<[u8]>`: the held bytes as a slice.
#[verifier::external_body]
pub(crate) fn buffer_slice(b: &BytesMut) -> (r: &[u8])
    ensures
        r@ == buffer_bytes(*b),
{
    b.as_ref()
}

/// Relies on `Buf::advance` for `BytesMut`: drops the first `n` bytes. It
/// panics when fewer than `n` are held.
#[verifier::external_body]
pub(crate) fn buffer_advance(b: &mut BytesMut, n: usize)
    requires
        n <= buffer_bytes(*old(b)).len(),
    ensures
        buffer_bytes(*final(b)) == buffer_bytes(*old(b)).subrange(n as int, buffer_bytes(*old(b)).len() as int),
{
    b.advance(n)
}

/// Relies on `BytesMut::reserve`: room for `n` more bytes, the contents
/// unchanged. It panics when the new capacity overflows `usize`.
#[verifier::external_body]
pub(crate) fn buffer_reserve(b: &mut BytesMut, n: usize)
    requires
        buffer_bytes(*old(b)).len() + n <= usize::MAX,
    ensures
        buffer_bytes(*final(b)) == buffer_bytes(*old(b)),
{
    b.reserve(n)
}

/// Relies on `BufMut::put_u8` for `BytesMut`: appends one byte.
#[verifier::external_body]
pub(crate) fn buffer_put_u8(b: &mut BytesMut, v: u8)
    requires
        buffer_bytes(*old(b)).len() + 1 <= usize::MAX,
    ensures
        buffer_bytes(*final(b)) == buffer_bytes(*old(b)).push(v),
{
    b.put_u8(v)
}

/// Relies on `BufMut::put_u32` for `BytesMut`: appends the four bytes of
/// `v`, most significant first.
#[verifier::external_body]
pub(crate) fn buffer_put_u32(b: &mut BytesMut, v: u32)
    requires
        buffer_bytes(*old(b)).len() + 4 <= usize::MAX,
    ensures
        buffer_bytes(*final(b)) == buffer_bytes(*old(b)) + be32_bytes(v),
{
    b.put_u32(v)
}

/// Relies on `BytesMut::extend_from_slice`: appends the bytes of `s`.
#[verifier::external_body]
pub(crate) fn buffer_extend(b: &mut BytesMut, s: &[u8])
    requires
        buffer_bytes(*old(b)).len() + s@.len() <= usize::MAX,
    ensures
        buffer_bytes(*final(b)) == buffer_bytes(*old(b)) + s@,
{
    b.extend_from_slice(s)
}

} // verus!
