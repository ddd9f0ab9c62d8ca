//! The protocol's variable-length integer: seven bits per byte, least
//! significant group first, the high bit of a byte set when another byte
//! follows.
use crate::buf::{buf_bytes, get_u8, has_remaining, put_u8};
use crate::protocol::error::DecodeError;
use bytes::BytesMut;
use vstd::prelude::*;

verus! {

/// A 32-bit integer written in the VarInt encoding.
pub struct VarInt(pub i32);

/// The VarInt bytes of the bit pattern `v` (a negative `i32` is written
/// through its two's-complement bits, and takes five bytes).
pub open spec fn varint_bytes(v: u32) -> Seq<u8>
    decreases v,
{
    if v < 0x80 {
        seq![v as u8]
    } else {
        proof {
            assert(v >= 0x80 ==> (v >> 7u32) < v) by (bit_vector);
        }
        seq![((v & 0x7f) | 0x80) as u8].add(varint_bytes(v >> 7u32))
    }
}

/// What reading a VarInt from the front of some bytes gives.
#[derive(Debug, Clone, Copy, PartialEq, Eq, Structural)]
pub enum VarIntRead {
    /// The value and the number of bytes it took.
    Value { value: i32, len: usize },
    /// The bytes ended before a byte without the continuation bit.
    Incomplete,
    /// Five bytes all carried the continuation bit and a sixth is there:
    /// the reader gives up on it (it would shift a group past 32 bits).
    Overlong,
}

/// Reading from `s` when `i` bytes were read before, whose groups gave
/// `acc`.
pub open spec fn varint_read_from(s: Seq<u8>, i: nat, acc: u32) -> VarIntRead
    decreases s.len(),
{
    if s.len() == 0 {
        VarIntRead::Incomplete
    } else if i >= 5 {
        VarIntRead::Overlong
    } else {
        let b = s[0];
        let acc2 = acc | (((b & 0x7f) as u32) << ((7 * i) as u32));
        if b & 0x80 == 0 {
            VarIntRead::Value { value: acc2 as i32, len: (i + 1) as usize }
        } else {
            varint_read_from(s.drop_first(), i + 1, acc2)
        }
    }
}

/// Reading a VarInt from the front of `s`.
pub open spec fn read_varint(s: Seq<u8>) -> VarIntRead {
    varint_read_from(s, 0, 0)
}

proof fn lemma_read_from_len(s: Seq<u8>, i: nat, acc: u32)
    ensures
        varint_read_from(s, i, acc) matches VarIntRead::Value { len, .. } ==> i < len <= i
            + s.len() && len <= 5,
    decreases s.len(),
{
    if s.len() > 0 && i < 5 {
        let b = s[0];
        let acc2 = acc | (((b & 0x7f) as u32) << ((7 * i) as u32));
        lemma_read_from_len(s.drop_first(), i + 1, acc2);
    }
}

/// A VarInt that is read takes between one and five bytes, and no more
/// than there are.
pub proof fn lemma_read_varint_len(s: Seq<u8>)
    ensures
        read_varint(s) matches VarIntRead::Value { len, .. } ==> 1 <= len <= 5 && len <= s.len(),
{
    lemma_read_from_len(s, 0, 0);
}

proof fn lemma_read_from_prefix(s: Seq<u8>, n: int, i: nat, acc: u32)
    requires
        0 <= n <= s.len(),
    ensures
        varint_read_from(s.take(n), i, acc) is Value ==> varint_read_from(s.take(n), i, acc)
            == varint_read_from(s, i, acc),
    decreases s.len(),
{
    if n > 0 && i < 5 {
        assert(s.take(n)[0] == s[0]);
        assert(s.take(n).drop_first() =~= s.drop_first().take(n - 1));
        let b = s[0];
        let acc2 = acc | (((b & 0x7f) as u32) << ((7 * i) as u32));
        lemma_read_from_prefix(s.drop_first(), n - 1, i + 1, acc2);
    }
}

/// A VarInt read whole from a prefix of the bytes is the VarInt at their
/// front.
pub proof fn lemma_read_varint_prefix(s: Seq<u8>, n: int)
    requires
        0 <= n <= s.len(),
    ensures
        read_varint(s.take(n)) is Value ==> read_varint(s.take(n)) == read_varint(s),
{
    lemma_read_from_prefix(s, n, 0, 0);
}

/// The bits of `orig` below bit `7 * i`.
pub open spec fn low_groups(orig: u32, i: u32) -> u32 {
    orig & !(0xffff_ffffu32 << (7 * i))
}

proof fn lemma_step_last(orig: u32, w: u32, i: u32, acc: u32)
    by (bit_vector)
    requires
        i <= 4,
        w == orig >> (7 * i),
        acc == orig & !(0xffff_ffffu32 << (7 * i)),
        w < 0x80,
    ensures
        (w as u8) & 0x80 == 0,
        acc | ((((w as u8) & 0x7f) as u32) << (7 * i)) == orig,
{
}

proof fn lemma_step_more(orig: u32, w: u32, i: u32, acc: u32)
    by (bit_vector)
    requires
        i <= 4,
        w == orig >> (7 * i),
        acc == orig & !(0xffff_ffffu32 << (7 * i)),
        w >= 0x80,
    ensures
        i < 4,
        (((w & 0x7f) | 0x80) as u8) & 0x80 != 0,
        w >> 7 == orig >> (7 * (i + 1)),
        acc | ((((((w & 0x7f) | 0x80) as u8) & 0x7f) as u32) << (7 * i)) == orig & !(
        0xffff_ffffu32 << (7 * (i + 1))),
{
}

proof fn lemma_read_from_bytes(orig: u32, w: u32, i: u32, acc: u32, rest: Seq<u8>)
    requires
        i <= 4,
        w == orig >> (7 * i),
        acc == low_groups(orig, i),
    ensures
        i + varint_bytes(w).len() <= 5,
        varint_read_from(varint_bytes(w) + rest, i as nat, acc) == (VarIntRead::Value {
            value: orig as i32,
            len: (i + varint_bytes(w).len()) as usize,
        }),
    decreases w,
{
    let s = varint_bytes(w) + rest;
    if w < 0x80 {
        lemma_step_last(orig, w, i, acc);
        assert(s[0] == w as u8);
        assert((7 * (i as nat)) as u32 == 7 * i);
    } else {
        lemma_step_more(orig, w, i, acc);
        let b = ((w & 0x7f) | 0x80) as u8;
        assert(s[0] == b);
        assert(s.drop_first() == varint_bytes(w >> 7u32) + rest);
        assert((7 * (i as nat)) as u32 == 7 * i);
        assert(w >= 0x80 ==> (w >> 7u32) < w) by (bit_vector);
        lemma_read_from_bytes(orig, w >> 7u32, (i + 1) as u32, low_groups(orig, (i + 1) as u32), rest);
    }
}

/// Reading back what was written: the VarInt bytes of `v`, whatever
/// follows them, read as the value `v` and exactly their own length, which
/// is between one and five bytes.
pub proof fn lemma_varint_roundtrip(v: i32, rest: Seq<u8>)
    ensures
        1 <= varint_bytes(v as u32).len() <= 5,
        read_varint(varint_bytes(v as u32) + rest) == (VarIntRead::Value {
            value: v,
            len: varint_bytes(v as u32).len() as usize,
        }),
{
    let orig = v as u32;
    assert(orig >> (7 * 0u32) == orig) by (bit_vector);
    assert(low_groups(orig, 0) == 0) by (bit_vector);
    lemma_read_from_bytes(orig, orig, 0, 0, rest);
    assert(((v as u32) as i32) == v) by (bit_vector);
    assert(varint_bytes(orig).len() >= 1);
}

impl VarInt {
    /// Appends the VarInt bytes of the value.
    pub fn encode(&self, buf: &mut BytesMut)
        requires
            buf_bytes(*old(buf)).len() + varint_bytes(self.0 as u32).len() <= isize::MAX,
        ensures
            buf_bytes(*final(buf)) == buf_bytes(*old(buf)) + varint_bytes(self.0 as u32),
    {
        let mut v = self.0 as u32;
        let ghost start = buf_bytes(*buf);
        while v >= 0x80
            invariant
                buf_bytes(*buf) + varint_bytes(v) == start + varint_bytes(self.0 as u32),
                start.len() + varint_bytes(self.0 as u32).len() <= isize::MAX,
            decreases v,
        {
            let b = (v as u8 & 0x7F) | 0x80;
            assert(b == ((v & 0x7f) | 0x80) as u8) by (bit_vector)
                requires
                    b == (v as u8 & 0x7F) | 0x80,
            ;
            let ghost before = buf_bytes(*buf);
            assert(varint_bytes(v) == seq![b] + varint_bytes(v >> 7u32));
            assert(before.push(b) + varint_bytes(v >> 7u32) == before + varint_bytes(v));
            put_u8(buf, b);
            assert(v >= 0x80 ==> (v >> 7u32) < v) by (bit_vector);
            v = v >> 7;
        }
        let ghost before = buf_bytes(*buf);
        assert(before.push(v as u8) == before + varint_bytes(v));
        put_u8(buf, v as u8);
    }

    /// Reads a VarInt from the front of the buffer, taking its bytes; where
    /// the buffer ends first, every byte is taken and the error is
    /// `IncompleteVarInt`. None is the outcome where the reader gives up
    /// (see `VarIntRead::Overlong`), and the buffer is then left anyhow.
    pub(crate) fn decode_core(buf: &mut BytesMut) -> (r: Option<Result<i32, DecodeError>>)
        ensures
            read_varint(buf_bytes(*old(buf))) matches VarIntRead::Value { len, .. } ==> 1 <= len <= 5
                && len <= buf_bytes(*old(buf)).len(),
            match read_varint(buf_bytes(*old(buf))) {
                VarIntRead::Value { value, len } => r == Some(Ok::<i32, DecodeError>(value))
                    && buf_bytes(*final(buf)) == buf_bytes(*old(buf)).skip(len as int),
                VarIntRead::Incomplete => r == Some(Err::<i32, DecodeError>(DecodeError::IncompleteVarInt))
                    && buf_bytes(*final(buf)) == Seq::<u8>::empty(),
                VarIntRead::Overlong => r is None,
            },
    {
        let ghost start = buf_bytes(*buf);
        proof {
            lemma_read_varint_len(start);
        }
        let mut res: u32 = 0;
        let mut shift: u32 = 0;
        let ghost mut i: nat = 0;
        loop
            invariant
                start == buf_bytes(*old(buf)),
                i <= 5,
                shift == 7 * i,
                i <= start.len(),
                buf_bytes(*buf) == start.skip(i as int),
                read_varint(start) == varint_read_from(buf_bytes(*buf), i, res),
            decreases buf_bytes(*buf).len(),
        {
            if !has_remaining(buf) {
                assert(buf_bytes(*buf) =~= Seq::<u8>::empty());
                return Some(Err(DecodeError::IncompleteVarInt));
            }
            let ghost cur = buf_bytes(*buf);
            let b = get_u8(buf);
            if shift >= 35 {
                assert(i == 5);
                assert(varint_read_from(cur, i, res) is Overlong);
                return None;
            }
            assert((7 * i) as u32 == shift);
            res = res | (((b & 0x7F) as u32) << shift);
            assert(cur.drop_first() == start.skip(i + 1 as int));
            if (b & 0x80) == 0 {
                return Some(Ok(res as i32));
            }
            shift = shift + 7;
            proof {
                i = i + 1;
            }
        }
    }

    /// Reads a VarInt from the front of the buffer and takes its bytes.
    /// Where the buffer ends first, every byte is taken and the result is
    /// `IncompleteVarInt`. A sixth byte after five continuation bytes makes
    /// the reader overflow its shift, so such input is not admitted.
    pub fn decode(buf: &mut BytesMut) -> (r: Result<i32, DecodeError>)
        requires
            !(read_varint(buf_bytes(*old(buf))) is Overlong),
        ensures
            match read_varint(buf_bytes(*old(buf))) {
                VarIntRead::Value { value, len } => r == Ok::<i32, DecodeError>(value)
                    && buf_bytes(*final(buf)) == buf_bytes(*old(buf)).skip(len as int),
                _ => r == Err::<i32, DecodeError>(DecodeError::IncompleteVarInt)
                    && buf_bytes(*final(buf)) == Seq::<u8>::empty(),
            },
    {
        match Self::decode_core(buf) {
            Some(r) => r,
            None => {
                proof {
                    assert(false);
                }
                Err(DecodeError::IncompleteVarInt)
            },
        }
    }
}

/// Writing a VarInt straight into a buffer.
pub trait VarIntExt {
    /// The bytes the buffer holds.
    spec fn held(&self) -> Seq<u8>;

    /// Appends the VarInt bytes of `value`.
    fn put_var_int(&mut self, value: i32)
        requires
            old(self).held().len() + varint_bytes(value as u32).len() <= isize::MAX,
        ensures
            final(self).held() == old(self).held() + varint_bytes(value as u32),
    ;
}

impl VarIntExt for BytesMut {
    open spec fn held(&self) -> Seq<u8> {
        buf_bytes(*self)
    }

    fn put_var_int(&mut self, value: i32) {
        VarInt(value).encode(self);
    }
}

} // verus!
