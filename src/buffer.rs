//! Byte buffers of the `bytes` crate: the growable `BytesMut` that frames
//! are written into, and the frozen `Bytes` that holds a finished frame or a
//! payload.

use vstd::prelude::*;
use crate::bytes_util::be32;

verus! {

#[verifier::external_type_specification]
#[verifier::external_body]
pub struct ExBytesMut(bytes::BytesMut);

#[verifier::external_type_specification]
#[verifier::external_body]
pub struct ExBytes(bytes::Bytes);

/// The bytes written into a `BytesMut` so far.
pub uninterp spec fn buf_contents(b: bytes::BytesMut) -> Seq<u8>;

/// The bytes a `Bytes` holds.
pub uninterp spec fn bytes_contents(b: bytes::Bytes) -> Seq<u8>;

/// Relies on `bytes::BytesMut::with_capacity`: a new, empty buffer.
#[verifier::external_body]
pub(crate) fn buf_with_capacity(capacity: usize) -> (r: bytes::BytesMut)
    ensures
        buf_contents(r) == Seq::<u8>::empty(),
{
    bytes::BytesMut::with_capacity(capacity)
}

/// Relies on `BufMut::put_u8` for `BytesMut`: appends one byte.
#[verifier::external_body]
pub(crate) fn buf_put_u8(b: &mut bytes::BytesMut, n: u8)
    requires
        buf_contents(*old(b)).len() + 1 <= isize::MAX,
    ensures
        buf_contents(*final(b)) == buf_contents(*old(b)).push(n),
{
    bytes::BufMut::put_u8(b, n)
}

/// Relies on `BufMut::put_u32` for `BytesMut`: appends `n` in big-endian
/// byte order.
#[verifier::external_body]
pub(crate) fn buf_put_u32(b: &mut bytes::BytesMut, n: u32)
    requires
        buf_contents(*old(b)).len() + 4 <= isize::MAX,
    ensures
        buf_contents(*final(b)) == buf_contents(*old(b)) + be32(n),
{
    bytes::BufMut::put_u32(b, n)
}

/// Relies on `BufMut::put_slice` for `BytesMut`: appends `src`.
#[verifier::external_body]
pub(crate) fn buf_put_slice(b: &mut bytes::BytesMut, src: &[u8])
    requires
        buf_contents(*old(b)).len() + src@.len() <= isize::MAX,
    ensures
        buf_contents(*final(b)) == buf_contents(*old(b)) + src@,
{
    bytes::BufMut::put_slice(b, src)
}

/// Relies on `BufMut::put_bytes` for `BytesMut`: appends `count` copies of
/// `value`.
#[verifier::external_body]
pub(crate) fn buf_put_bytes(b: &mut bytes::BytesMut, value: u8, count: usize)
    requires
        buf_contents(*old(b)).len() + count <= isize::MAX,
    ensures
        buf_contents(*final(b)) == buf_contents(*old(b)) + Seq::new(count as nat, |i: int| value),
{
    bytes::BufMut::put_bytes(b, value, count)
}

/// Relies on `bytes::BytesMut::freeze`: the same bytes, now immutable.
#[verifier::external_body]
pub(crate) fn buf_freeze(b: bytes::BytesMut) -> (r: bytes::Bytes)
    ensures
        bytes_contents(r) == buf_contents(b),
{
    b.freeze()
}

/// Relies on `bytes::Bytes::copy_from_slice`: a `Bytes` holding a copy of
/// `data`.
#[verifier::external_body]
pub(crate) fn bytes_from_slice(data: &[u8]) -> (r: bytes::Bytes)
    ensures
        bytes_contents(r) == data@,
{
    bytes::Bytes::copy_from_slice(data)
}

/// Relies on `Bytes`'s `AsRef<[u8]>`: the held bytes as a slice.
#[verifier::external_body]
pub(crate) fn bytes_slice(b: &bytes::Bytes) -> (r: &[u8])
    ensures
        r@ == bytes_contents(*b),
{
    b.as_ref()
}

} // verus!
