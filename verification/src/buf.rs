//! The byte buffer that every encoder writes into and every decoder reads
//! from: `bytes::BytesMut`, seen by the proofs as the sequence of bytes it
//! holds.
use bytes::BytesMut;
use vstd::prelude::*;

verus! {

#[verifier::external_type_specification]
#[verifier::external_body]
pub struct ExBytesMut(BytesMut);

/// The bytes that a `BytesMut` currently holds, first byte first.
pub uninterp spec fn buf_bytes(b: BytesMut) -> Seq<u8>;

/// Big-endian bytes of a 16-bit value.
pub open spec fn be_u16(v: u16) -> Seq<u8> {
    seq![(v >> 8u16) as u8, v as u8]
}

/// Big-endian bytes of a 32-bit value.
pub open spec fn be_u32(v: u32) -> Seq<u8> {
    seq![(v >> 24u32) as u8, (v >> 16u32) as u8, (v >> 8u32) as u8, v as u8]
}

/// Big-endian bytes of a 64-bit value.
pub open spec fn be_u64(v: u64) -> Seq<u8> {
    seq![
        (v >> 56u64) as u8,
        (v >> 48u64) as u8,
        (v >> 40u64) as u8,
        (v >> 32u64) as u8,
        (v >> 24u64) as u8,
        (v >> 16u64) as u8,
        (v >> 8u64) as u8,
        v as u8,
    ]
}

/// `BytesMut::new`: an empty buffer.
pub assume_specification[ BytesMut::new ]() -> (b: BytesMut)
    ensures
        buf_bytes(b) == Seq::<u8>::empty(),
;

/// `BytesMut::len`: the number of bytes held.
pub assume_specification[ BytesMut::len ](b: &BytesMut) -> (n: usize)
    ensures
        n == buf_bytes(*b).len(),
;

/// `BytesMut::split_to`: the buffer keeps the bytes from `at` on and the
/// first `at` bytes are returned; it panics when `at` exceeds the length.
pub assume_specification[ BytesMut::split_to ](b: &mut BytesMut, at: usize) -> (head: BytesMut)
    requires
        at <= buf_bytes(*old(b)).len(),
    ensures
        buf_bytes(head) == buf_bytes(*old(b)).take(at as int),
        buf_bytes(*final(b)) == buf_bytes(*old(b)).skip(at as int),
;

/// `BytesMut::extend_from_slice`: appends the slice. A buffer cannot grow
/// past `isize::MAX` bytes (the allocation would panic), hence the bound.
pub assume_specification[ BytesMut::extend_from_slice ](b: &mut BytesMut, extend: &[u8])
    requires
        buf_bytes(*old(b)).len() + extend@.len() <= isize::MAX,
    ensures
        buf_bytes(*final(b)) == buf_bytes(*old(b)) + extend@,
;

/// `BytesMut::clone`: a new buffer with the same bytes.
pub assume_specification[ <BytesMut as Clone>::clone ](b: &BytesMut) -> (c: BytesMut)
    ensures
        buf_bytes(c) == buf_bytes(*b),
;

/// `AsRef<[u8]>::as_ref` of a `BytesMut`: its bytes as a slice.
#[verifier::external_body]
pub(crate) fn buf_as_slice(b: &BytesMut) -> (s: &[u8])
    ensures
        s@ == buf_bytes(*b),
{
    b.as_ref()
}

/// `BufMut::put_u8`: appends one byte.
#[verifier::external_body]
pub(crate) fn put_u8(buf: &mut BytesMut, n: u8)
    requires
        buf_bytes(*old(buf)).len() + 1 <= isize::MAX,
    ensures
        buf_bytes(*final(buf)) == buf_bytes(*old(buf)).push(n),
{
    bytes::BufMut::put_u8(buf, n)
}

/// `BufMut::put_i8`: appends the byte that holds the value's bits.
#[verifier::external_body]
pub(crate) fn put_i8(buf: &mut BytesMut, n: i8)
    requires
        buf_bytes(*old(buf)).len() + 1 <= isize::MAX,
    ensures
        buf_bytes(*final(buf)) == buf_bytes(*old(buf)).push(n as u8),
{
    bytes::BufMut::put_i8(buf, n)
}

/// `BufMut::put_i16`: appends the value in big-endian byte order.
#[verifier::external_body]
pub(crate) fn put_i16(buf: &mut BytesMut, n: i16)
    requires
        buf_bytes(*old(buf)).len() + 2 <= isize::MAX,
    ensures
        buf_bytes(*final(buf)) == buf_bytes(*old(buf)) + be_u16(n as u16),
{
    bytes::BufMut::put_i16(buf, n)
}

/// `BufMut::put_i32`: appends the value in big-endian byte order.
#[verifier::external_body]
pub(crate) fn put_i32(buf: &mut BytesMut, n: i32)
    requires
        buf_bytes(*old(buf)).len() + 4 <= isize::MAX,
    ensures
        buf_bytes(*final(buf)) == buf_bytes(*old(buf)) + be_u32(n as u32),
{
    bytes::BufMut::put_i32(buf, n)
}

/// `BufMut::put_u64`: appends the value in big-endian byte order.
#[verifier::external_body]
pub(crate) fn put_u64(buf: &mut BytesMut, n: u64)
    requires
        buf_bytes(*old(buf)).len() + 8 <= isize::MAX,
    ensures
        buf_bytes(*final(buf)) == buf_bytes(*old(buf)) + be_u64(n),
{
    bytes::BufMut::put_u64(buf, n)
}

/// `BufMut::put_i64`: appends the value in big-endian byte order.
#[verifier::external_body]
pub(crate) fn put_i64(buf: &mut BytesMut, n: i64)
    requires
        buf_bytes(*old(buf)).len() + 8 <= isize::MAX,
    ensures
        buf_bytes(*final(buf)) == buf_bytes(*old(buf)) + be_u64(n as u64),
{
    bytes::BufMut::put_i64(buf, n)
}

/// `BufMut::put_slice`: appends the slice.
#[verifier::external_body]
pub(crate) fn put_slice(buf: &mut BytesMut, src: &[u8])
    requires
        buf_bytes(*old(buf)).len() + src@.len() <= isize::MAX,
    ensures
        buf_bytes(*final(buf)) == buf_bytes(*old(buf)) + src@,
{
    bytes::BufMut::put_slice(buf, src)
}

/// `Buf::has_remaining`: whether any byte is left.
#[verifier::external_body]
pub(crate) fn has_remaining(buf: &BytesMut) -> (r: bool)
    ensures
        r == (buf_bytes(*buf).len() > 0),
{
    bytes::Buf::has_remaining(buf)
}

/// `Buf::get_u8`: removes and returns the first byte; it panics on an empty
/// buffer.
#[verifier::external_body]
pub(crate) fn get_u8(buf: &mut BytesMut) -> (b: u8)
    requires
        buf_bytes(*old(buf)).len() > 0,
    ensures
        b == buf_bytes(*old(buf))[0],
        buf_bytes(*final(buf)) == buf_bytes(*old(buf)).drop_first(),
{
    bytes::Buf::get_u8(buf)
}

} // verus!
