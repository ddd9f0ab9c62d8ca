//! Values as they are written on the wire: big-endian integers and
//! length-prefixed UTF-8 strings.
use crate::buf::{be_u16, be_u32, be_u64, buf_bytes, put_i16, put_slice};
use crate::buf::buf_as_slice;
use crate::protocol::error::DecodeError;
use crate::protocol::varint::{read_varint, varint_bytes, VarInt, VarIntRead};
use bytes::BytesMut;
use vstd::prelude::*;
use vstd::utf8::{decode_utf8, encode_utf8, valid_utf8};

verus! {

/// The VarInt that announces a byte length: the length as the `i32` it is
/// cast to, taken as its bits.
pub open spec fn wire_len(n: nat) -> u32 {
    ((n as usize) as i32) as u32
}

/// A string on the wire: its UTF-8 byte length as a VarInt, then the bytes.
pub open spec fn mc_string_bytes(s: Seq<char>) -> Seq<u8> {
    varint_bytes(wire_len(encode_utf8(s).len())) + encode_utf8(s)
}

/// The text that `String::from_utf8_lossy` makes of bytes that are not
/// valid UTF-8 (with replacement characters in place of the bad sequences).
pub uninterp spec fn lossy_text(bytes: Seq<u8>) -> Seq<char>;

/// The text of some bytes read as UTF-8, bad sequences replaced.
pub open spec fn utf8_lossy(bytes: Seq<u8>) -> Seq<char> {
    if valid_utf8(bytes) {
        decode_utf8(bytes)
    } else {
        lossy_text(bytes)
    }
}

/// `String::from_utf8_lossy`, made owned. Valid UTF-8 is decoded as it
/// stands; what it makes of invalid input is only named, by `lossy_text`.
#[verifier::external_body]
pub(crate) fn string_from_utf8_lossy(v: &[u8]) -> (s: String)
    ensures
        valid_utf8(v@) ==> s@ == decode_utf8(v@),
        !valid_utf8(v@) ==> s@ == lossy_text(v@),
{
    String::from_utf8_lossy(v).to_string()
}

/// The `u16` of two big-endian bytes.
pub open spec fn u16_from_be(b: Seq<u8>) -> u16 {
    (((b[0] as u16) << 8u16) | (b[1] as u16)) as u16
}

/// The `u32` of four big-endian bytes.
pub open spec fn u32_from_be(b: Seq<u8>) -> u32 {
    (((b[0] as u32) << 24u32) | ((b[1] as u32) << 16u32) | ((b[2] as u32) << 8u32) | (
    b[3] as u32)) as u32
}

/// The `u64` of eight big-endian bytes.
pub open spec fn u64_from_be(b: Seq<u8>) -> u64 {
    (((b[0] as u64) << 56u64) | ((b[1] as u64) << 48u64) | ((b[2] as u64) << 40u64) | ((
    b[3] as u64) << 32u64) | ((b[4] as u64) << 24u64) | ((b[5] as u64) << 16u64) | ((
    b[6] as u64) << 8u64) | (b[7] as u64)) as u64
}

/// Big-endian bytes read back give the value they were written from.
pub proof fn lemma_be_roundtrip(a: u16, b: u32, c: u64)
    ensures
        u16_from_be(be_u16(a)) == a,
        u32_from_be(be_u32(b)) == b,
        u64_from_be(be_u64(c)) == c,
{
    let x0 = (a >> 8u16) as u8;
    let x1 = a as u8;
    assert((((x0 as u16) << 8u16) | (x1 as u16)) as u16 == a) by (bit_vector)
        requires
            x0 == (a >> 8u16) as u8,
            x1 == a as u8,
    ;
    let y0 = (b >> 24u32) as u8;
    let y1 = (b >> 16u32) as u8;
    let y2 = (b >> 8u32) as u8;
    let y3 = b as u8;
    assert((((y0 as u32) << 24u32) | ((y1 as u32) << 16u32) | ((y2 as u32) << 8u32) | (
    y3 as u32)) as u32 == b) by (bit_vector)
        requires
            y0 == (b >> 24u32) as u8,
            y1 == (b >> 16u32) as u8,
            y2 == (b >> 8u32) as u8,
            y3 == b as u8,
    ;
    let z0 = (c >> 56u64) as u8;
    let z1 = (c >> 48u64) as u8;
    let z2 = (c >> 40u64) as u8;
    let z3 = (c >> 32u64) as u8;
    let z4 = (c >> 24u64) as u8;
    let z5 = (c >> 16u64) as u8;
    let z6 = (c >> 8u64) as u8;
    let z7 = c as u8;
    assert((((z0 as u64) << 56u64) | ((z1 as u64) << 48u64) | ((z2 as u64) << 40u64) | ((
    z3 as u64) << 32u64) | ((z4 as u64) << 24u64) | ((z5 as u64) << 16u64) | ((z6 as u64)
        << 8u64) | (z7 as u64)) as u64 == c) by (bit_vector)
        requires
            z0 == (c >> 56u64) as u8,
            z1 == (c >> 48u64) as u8,
            z2 == (c >> 40u64) as u8,
            z3 == (c >> 32u64) as u8,
            z4 == (c >> 24u64) as u8,
            z5 == (c >> 16u64) as u8,
            z6 == (c >> 8u64) as u8,
            z7 == c as u8,
    ;
}

/// Takes two bytes off the front and reads them as a big-endian `u16`.
pub fn read_u16_be(buf: &mut BytesMut) -> (v: u16)
    requires
        buf_bytes(*old(buf)).len() >= 2,
    ensures
        v == u16_from_be(buf_bytes(*old(buf))),
        buf_bytes(*final(buf)) == buf_bytes(*old(buf)).skip(2),
{
    let head = buf.split_to(2);
    let b = buf_as_slice(&head);
    ((b[0] as u16) << 8) | (b[1] as u16)
}

/// Takes four bytes off the front and reads them as a big-endian `u32`.
pub fn read_u32_be(buf: &mut BytesMut) -> (v: u32)
    requires
        buf_bytes(*old(buf)).len() >= 4,
    ensures
        v == u32_from_be(buf_bytes(*old(buf))),
        buf_bytes(*final(buf)) == buf_bytes(*old(buf)).skip(4),
{
    let head = buf.split_to(4);
    let b = buf_as_slice(&head);
    ((b[0] as u32) << 24) | ((b[1] as u32) << 16) | ((b[2] as u32) << 8) | (b[3] as u32)
}

/// Takes eight bytes off the front and reads them as a big-endian `u64`.
pub fn read_u64_be(buf: &mut BytesMut) -> (v: u64)
    requires
        buf_bytes(*old(buf)).len() >= 8,
    ensures
        v == u64_from_be(buf_bytes(*old(buf))),
        buf_bytes(*final(buf)) == buf_bytes(*old(buf)).skip(8),
{
    let head = buf.split_to(8);
    let b = buf_as_slice(&head);
    ((b[0] as u64) << 56) | ((b[1] as u64) << 48) | ((b[2] as u64) << 40) | ((b[3] as u64) << 32)
        | ((b[4] as u64) << 24) | ((b[5] as u64) << 16) | ((b[6] as u64) << 8) | (b[7] as u64)
}

/// Writing a value in its wire form.
pub trait McWrite {
    /// The wire bytes of the value.
    spec fn mc_bytes(&self) -> Seq<u8>;

    /// Appends the wire bytes of the value.
    fn mc_write(&self, buf: &mut BytesMut)
        requires
            buf_bytes(*old(buf)).len() + self.mc_bytes().len() <= isize::MAX,
        ensures
            buf_bytes(*final(buf)) == buf_bytes(*old(buf)) + self.mc_bytes(),
    ;
}

impl McWrite for i16 {
    open spec fn mc_bytes(&self) -> Seq<u8> {
        be_u16(*self as u16)
    }

    fn mc_write(&self, buf: &mut BytesMut) {
        put_i16(buf, *self);
    }
}

/// Appends a length-prefixed string.
pub fn write_str(s: &str, buf: &mut BytesMut)
    requires
        buf_bytes(*old(buf)).len() + mc_string_bytes(s@).len() <= isize::MAX,
    ensures
        buf_bytes(*final(buf)) == buf_bytes(*old(buf)) + mc_string_bytes(s@),
{
    let n = s.len();
    VarInt(n as i32).encode(buf);
    let bytes = s.as_bytes();
    put_slice(buf, bytes);
    assert(buf_bytes(*buf) == buf_bytes(*old(buf)) + mc_string_bytes(s@));
}

impl McWrite for String {
    open spec fn mc_bytes(&self) -> Seq<u8> {
        mc_string_bytes(self@)
    }

    fn mc_write(&self, buf: &mut BytesMut) {
        write_str(self.as_str(), buf);
    }
}

impl<'a> McWrite for &'a str {
    open spec fn mc_bytes(&self) -> Seq<u8> {
        mc_string_bytes((*self)@)
    }

    fn mc_write(&self, buf: &mut BytesMut) {
        write_str(*self, buf);
    }
}

/// Reading a length-prefixed string from the front of `s`: the text and
/// what is left after it, or the error and what is left. None is the
/// outcome where taking the announced number of bytes would panic (a
/// negative length, or one past the end) or the length VarInt is overlong.
pub open spec fn read_mc_string(s: Seq<u8>) -> Option<(Result<Seq<char>, DecodeError>, Seq<u8>)> {
    match read_varint(s) {
        VarIntRead::Overlong => None,
        VarIntRead::Incomplete => Some((Err(DecodeError::IncompleteVarInt), Seq::<u8>::empty())),
        VarIntRead::Value { value: n, len: k } => {
            let r = s.skip(k as int);
            if n < 0 || n > r.len() {
                None
            } else {
                Some((Ok(utf8_lossy(r.take(n as int))), r.skip(n as int)))
            }
        },
    }
}

/// Reads a length-prefixed string as `read_mc_string` says.
pub(crate) fn read_string_core(buf: &mut BytesMut) -> (r: Option<Result<String, DecodeError>>)
    ensures
        match read_mc_string(buf_bytes(*old(buf))) {
            None => r is None,
            Some((res, rest)) => buf_bytes(*final(buf)) == rest && match res {
                Ok(t) => r matches Some(Ok(st)) && st@ == t,
                Err(e) => r matches Some(Err(e2)) && e2 == e,
            },
        },
{
    let ghost start = buf_bytes(*buf);
    let n = match VarInt::decode_core(buf) {
        None => return None,
        Some(Err(e)) => return Some(Err(e)),
        Some(Ok(n)) => n,
    };
    if n < 0 {
        return None;
    }
    let len = n as usize;
    if len > buf.len() {
        return None;
    }
    let head = buf.split_to(len);
    let text = string_from_utf8_lossy(buf_as_slice(&head));
    Some(Ok(text))
}

/// The string that a length-prefixed string is read back as: the text
/// itself, provided its UTF-8 form is at most `i32::MAX` bytes long.
pub proof fn lemma_mc_string_roundtrip(t: Seq<char>, rest: Seq<u8>)
    requires
        encode_utf8(t).len() <= i32::MAX,
    ensures
        read_mc_string(mc_string_bytes(t) + rest) == Some(
            (Ok::<Seq<char>, DecodeError>(t), rest),
        ),
{
    let bytes = encode_utf8(t);
    let n = bytes.len();
    let v: i32 = (n as usize) as i32;
    assert(v == n);
    crate::protocol::varint::lemma_varint_roundtrip(v, bytes + rest);
    let s = mc_string_bytes(t) + rest;
    assert(s == varint_bytes(v as u32) + (bytes + rest));
    let k = varint_bytes(v as u32).len();
    assert(s.skip(k as int) == bytes + rest);
    assert((bytes + rest).take(n as int) == bytes);
    assert((bytes + rest).skip(n as int) == rest);
    vstd::utf8::encode_utf8_valid_utf8(t);
    vstd::utf8::encode_utf8_decode_utf8(t);
    assert(utf8_lossy(bytes) == t);
}

} // verus!
