//! The byte buffer that the protocol writes into: `bytes::BytesMut`, seen by
//! the proofs as the sequence of bytes that it holds.

use vstd::prelude::*;
use bytes::BufMut;
use bytes::BytesMut;

verus! {

#[verifier::external_type_specification]
#[verifier::external_body]
pub struct ExBytesMut(BytesMut);

/// The bytes that a `BytesMut` holds, in order.
pub uninterp spec fn bytes_of(b: BytesMut) -> Seq<u8>;

/// `BytesMut::new`: an empty buffer.
#[verifier::external_body]
pub(crate) fn new_buffer() -> (b: BytesMut)
    ensures
        bytes_of(b) == Seq::<u8>::empty(),
{
    BytesMut::new()
}

/// `BytesMut::put_u8` (from `BufMut`): appends one byte. It grows the
/// allocation, which panics past `isize::MAX` bytes.
#[verifier::external_body]
pub(crate) fn put_u8(b: &mut BytesMut, v: u8)
    requires
        bytes_of(*old(b)).len() + 1 <= isize::MAX,
    ensures
        bytes_of(*final(b)) == bytes_of(*old(b)).push(v),
{
    b.put_u8(v)
}

/// `BytesMut::put_slice` (from `BufMut`): appends the bytes of `src`.
#[verifier::external_body]
pub(crate) fn put_slice(b: &mut BytesMut, src: &[u8])
    requires
        bytes_of(*old(b)).len() + src@.len() <= isize::MAX,
    ensures
        bytes_of(*final(b)) == bytes_of(*old(b)) + src@,
{
    b.put_slice(src)
}

/// `BytesMut` dereferenced to a byte slice.
#[verifier::external_body]
pub(crate) fn buffer_bytes(b: &BytesMut) -> (s: &[u8])
    ensures
        s@ == bytes_of(*b),
{
    &b[..]
}

/// The eight bytes of `v` in big-endian (network) order.
pub open spec fn i64_be_bytes(v: i64) -> Seq<u8> {
    let x = v as u64;
    seq![
        (x >> 56u64) as u8,
        (x >> 48u64) as u8,
        (x >> 40u64) as u8,
        (x >> 32u64) as u8,
        (x >> 24u64) as u8,
        (x >> 16u64) as u8,
        (x >> 8u64) as u8,
        x as u8,
    ]
}

/// The two bytes of `v` in big-endian (network) order.
pub open spec fn u16_be_bytes(v: u16) -> Seq<u8> {
    seq![(v >> 8u16) as u8, v as u8]
}

/// `BufMut::put_i64` on a `BytesMut`: appends `v` in big-endian order.
#[verifier::external_body]
pub(crate) fn put_i64(b: &mut BytesMut, v: i64)
    requires
        bytes_of(*old(b)).len() + 8 <= isize::MAX,
    ensures
        bytes_of(*final(b)) == bytes_of(*old(b)) + i64_be_bytes(v),
{
    b.put_i64(v)
}

/// `BufMut::put_u16` on a `BytesMut`: appends `v` in big-endian order.
#[verifier::external_body]
pub(crate) fn put_u16(b: &mut BytesMut, v: u16)
    requires
        bytes_of(*old(b)).len() + 2 <= isize::MAX,
    ensures
        bytes_of(*final(b)) == bytes_of(*old(b)) + u16_be_bytes(v),
{
    b.put_u16(v)
}

} // verus!
