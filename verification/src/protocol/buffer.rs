//! Writing and reading values through a common pair of traits.
use crate::buf::{be_u32, buf_bytes, put_i32, put_slice};
use crate::protocol::types::mc_string_bytes;
use crate::protocol::varint::VarIntExt;
use bytes::BytesMut;
use vstd::prelude::*;

verus! {

/// A value that can append itself to a buffer.
pub trait McBufWritable {
    /// The bytes that the value appends, where they do not depend on the
    /// machine.
    spec fn written(&self) -> Seq<u8>;

    /// Whether `bytes` is what the value may append on some machine.
    spec fn may_write(&self, bytes: Seq<u8>) -> bool;

    /// Appends the value.
    fn write_into(&self, buf: &mut BytesMut)
        requires
            buf_bytes(*old(buf)).len() + self.written().len() <= isize::MAX,
        ensures
            buf_bytes(*final(buf)).len() >= buf_bytes(*old(buf)).len(),
            buf_bytes(*final(buf)).take(buf_bytes(*old(buf)).len() as int) == buf_bytes(*old(buf)),
            self.may_write(buf_bytes(*final(buf)).skip(buf_bytes(*old(buf)).len() as int)),
    ;
}

/// A value that can be read from a buffer.
pub trait McBufReadable: Sized {
    /// Reads a value from the front of the buffer.
    fn read_from(buf: &mut BytesMut) -> Self;
}

impl McBufWritable for String {
    open spec fn written(&self) -> Seq<u8> {
        mc_string_bytes(self@)
    }

    open spec fn may_write(&self, bytes: Seq<u8>) -> bool {
        bytes == self.written()
    }

    fn write_into(&self, buf: &mut BytesMut) {
        let ghost start = buf_bytes(*buf);
        let s = self.as_str();
        buf.put_var_int(s.len() as i32);
        put_slice(buf, s.as_bytes());
        assert(buf_bytes(*buf) == start + mc_string_bytes(self@));
        assert(buf_bytes(*buf).take(start.len() as int) == start);
        assert(buf_bytes(*buf).skip(start.len() as int) == mc_string_bytes(self@));
    }
}

/// `i32::to_be`: the value itself on a big-endian target and the value with
/// its bytes reversed on a little-endian one; which of the two depends on
/// the machine, so only that it is one of them is stated.
#[verifier::external_body]
fn i32_to_be(x: i32) -> (r: i32)
    ensures
        be_u32(r as u32) == be_u32(x as u32) || be_u32(r as u32) == be_u32(x as u32).reverse(),
{
    x.to_be()
}

impl McBufWritable for i32 {
    open spec fn written(&self) -> Seq<u8> {
        be_u32(*self as u32)
    }

    /// The value is swapped to big-endian order and then written big-endian,
    /// so on a little-endian machine its bytes come out reversed.
    open spec fn may_write(&self, bytes: Seq<u8>) -> bool {
        bytes == be_u32(*self as u32) || bytes == be_u32(*self as u32).reverse()
    }

    fn write_into(&self, buf: &mut BytesMut) {
        let ghost start = buf_bytes(*buf);
        let swapped = i32_to_be(*self);
        put_i32(buf, swapped);
        assert(buf_bytes(*buf).take(start.len() as int) == start);
        assert(buf_bytes(*buf).skip(start.len() as int) == be_u32(swapped as u32));
    }
}

impl McBufWritable for [u8; 16] {
    open spec fn written(&self) -> Seq<u8> {
        self@
    }

    open spec fn may_write(&self, bytes: Seq<u8>) -> bool {
        bytes == self@
    }

    fn write_into(&self, buf: &mut BytesMut) {
        let ghost start = buf_bytes(*buf);
        put_slice(buf, self.as_slice());
        assert(buf_bytes(*buf).take(start.len() as int) == start);
        assert(buf_bytes(*buf).skip(start.len() as int) == self@);
    }
}

} // verus!
