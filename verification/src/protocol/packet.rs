//! Packets, their frames on the wire, and the reading of frames back out of
//! a byte stream.
use crate::buf::{buf_as_slice, buf_bytes};
use crate::protocol::error::DecodeError;
use crate::protocol::types::wire_len;
use crate::protocol::varint::{read_varint, varint_bytes, VarInt, VarIntRead};
use bytes::BytesMut;
use vstd::prelude::*;
use vstd::string::StringExecFns;

verus! {

/// A packet that the server can send.
pub trait Packet: Send + Sync {
    /// The packet id within its protocol state.
    const ID: i32;

    /// The bytes of the packet's body, the part after its id.
    spec fn encoded(&self) -> Seq<u8>;

    /// Appends the packet's body.
    fn encode(&self, buf: &mut BytesMut)
        requires
            buf_bytes(*old(buf)).len() + self.encoded().len() <= isize::MAX,
        ensures
            buf_bytes(*final(buf)) == buf_bytes(*old(buf)) + self.encoded(),
    ;

    /// A name for the packet in logs.
    fn name(&self) -> (n: &'static str)
        default_ensures
            n@ == "Unknown"@,
    {
        "Unknown"
    }
}

/// A packet that can be read from the body of a frame.
pub trait PacketDecode: Sized {
    /// Reads the packet from the front of the buffer.
    fn decode(buf: &mut BytesMut) -> Result<Self, DecodeError>;
}

/// The frame of a packet: the VarInt length of what follows, then the
/// packet id as a VarInt, then the body.
pub open spec fn frame_bytes(id: i32, body: Seq<u8>) -> Seq<u8> {
    let data = varint_bytes(id as u32) + body;
    varint_bytes(wire_len(data.len())) + data
}

/// Builds the frame of a packet.
pub fn frame_packet<P: Packet>(packet: &P) -> (frame: BytesMut)
    requires
        packet.encoded().len() + 10 <= isize::MAX,
    ensures
        buf_bytes(frame) == frame_bytes(P::ID, packet.encoded()),
{
    proof {
        crate::protocol::varint::lemma_varint_roundtrip(P::ID, Seq::<u8>::empty());
    }
    let mut data = BytesMut::new();
    VarInt(P::ID).encode(&mut data);
    packet.encode(&mut data);
    let mut frame = BytesMut::new();
    let n = data.len();
    proof {
        crate::protocol::varint::lemma_varint_roundtrip(n as i32, Seq::<u8>::empty());
    }
    VarInt(n as i32).encode(&mut frame);
    frame.extend_from_slice(buf_as_slice(&data));
    frame
}

/// Frames a packet body that was written elsewhere (for packets with
/// floating-point fields, which are encoded outside this library).
pub fn frame_body(id: i32, body: &[u8]) -> (frame: BytesMut)
    requires
        body@.len() + 10 <= isize::MAX,
    ensures
        buf_bytes(frame) == frame_bytes(id, body@),
{
    proof {
        crate::protocol::varint::lemma_varint_roundtrip(id, Seq::<u8>::empty());
    }
    let mut data = BytesMut::new();
    VarInt(id).encode(&mut data);
    data.extend_from_slice(body);
    let mut frame = BytesMut::new();
    let n = data.len();
    proof {
        crate::protocol::varint::lemma_varint_roundtrip(n as i32, Seq::<u8>::empty());
    }
    VarInt(n as i32).encode(&mut frame);
    frame.extend_from_slice(buf_as_slice(&data));
    frame
}

/// What the front of a receive buffer holds, as far as frames go.
pub enum FrameRead {
    /// No whole frame yet; `length_known` tells whether the length VarInt
    /// at least is complete.
    NeedMore { length_known: bool },
    /// A frame, taken off the buffer: its packet id and body.
    Frame { id: i32, payload: BytesMut },
    /// A frame was taken off the buffer, but its body does not start with a
    /// whole packet id.
    Error(DecodeError),
}

/// `FrameRead` in terms of bytes, with what the buffer keeps.
pub enum FrameOutcome {
    NeedMore { length_known: bool },
    Frame { id: i32, payload: Seq<u8>, rest: Seq<u8> },
    Error { rest: Seq<u8> },
}

/// Reading the next frame from the bytes `s`. None is the outcome where
/// the reader gives up: an overlong VarInt, or a length whose end does not
/// fit in a `usize`.
pub open spec fn spec_next_frame(s: Seq<u8>) -> Option<FrameOutcome> {
    match read_varint(s) {
        VarIntRead::Overlong => None,
        VarIntRead::Incomplete => Some(FrameOutcome::NeedMore { length_known: false }),
        VarIntRead::Value { value: len, len: k } => {
            let data_len = len as usize;
            if k + data_len > usize::MAX {
                None
            } else if s.len() < k + data_len {
                Some(FrameOutcome::NeedMore { length_known: true })
            } else {
                let raw = s.skip(k as int).take(data_len as int);
                let rest = s.skip(k + data_len);
                match read_varint(raw) {
                    VarIntRead::Overlong => None,
                    VarIntRead::Incomplete => Some(FrameOutcome::Error { rest }),
                    VarIntRead::Value { value: id, len: k2 } => Some(
                        FrameOutcome::Frame { id, payload: raw.skip(k2 as int), rest },
                    ),
                }
            }
        },
    }
}

/// Takes the next frame off the front of a receive buffer, as
/// `spec_next_frame` says. The buffer keeps what follows the frame; it is
/// left as it was when no frame is complete, and when the result is None.
pub fn next_frame(buffer: &mut BytesMut) -> (r: Option<FrameRead>)
    ensures
        match spec_next_frame(buf_bytes(*old(buffer))) {
            None => r is None && buf_bytes(*final(buffer)) == buf_bytes(*old(buffer)),
            Some(FrameOutcome::NeedMore { length_known }) => r matches Some(
                FrameRead::NeedMore { length_known: k },
            ) && k == length_known && buf_bytes(*final(buffer)) == buf_bytes(*old(buffer)),
            Some(FrameOutcome::Frame { id, payload, rest }) => r matches Some(
                FrameRead::Frame { id: i, payload: p },
            ) && i == id && buf_bytes(p) == payload && buf_bytes(*final(buffer)) == rest,
            Some(FrameOutcome::Error { rest }) => r matches Some(FrameRead::Error(e))
                && e == DecodeError::IncompleteVarInt && buf_bytes(*final(buffer)) == rest,
        },
{
    let ghost s = buf_bytes(*buffer);
    let mut probe = buffer.clone();
    let len = match VarInt::decode_core(&mut probe) {
        None => return None,
        Some(Err(_)) => return Some(FrameRead::NeedMore { length_known: false }),
        Some(Ok(len)) => len,
    };
    let data_len = len as usize;
    let varint_len = buffer.len() - probe.len();
    if data_len > usize::MAX - varint_len {
        return None;
    }
    let total_frame_len = varint_len + data_len;
    if buffer.len() < total_frame_len {
        return Some(FrameRead::NeedMore { length_known: true });
    }
    let mut work = buffer.clone();
    let _ = VarInt::decode(&mut work);
    let mut packet_raw = work.split_to(data_len);
    assert(buf_bytes(packet_raw) == s.skip(varint_len as int).take(data_len as int));
    assert(buf_bytes(work) == s.skip(total_frame_len as int));
    match VarInt::decode_core(&mut packet_raw) {
        None => None,
        Some(Err(e)) => {
            *buffer = work;
            Some(FrameRead::Error(e))
        },
        Some(Ok(id)) => {
            *buffer = work;
            Some(FrameRead::Frame { id, payload: packet_raw })
        },
    }
}

/// A frame is taken only once it is whole. Where the length VarInt at the
/// front of the bytes reads as `len` in `k` bytes and fewer than `k + len`
/// bytes are there, the reader waits for more, with the length known (and
/// `next_frame` leaves the buffer as it was). Where it does give a frame,
/// the whole announced body (`len` taken as a `usize`) was there: the id is
/// the VarInt that starts the body, the payload is the rest of the body,
/// exactly the announced length less the id's, and what follows the body
/// is left.
pub proof fn lemma_next_frame_takes_whole_frames(s: Seq<u8>)
    ensures
        (read_varint(s) matches VarIntRead::Value { value: len, len: k } && 0 <= len && s.len() < k
            + len) ==> spec_next_frame(s) == Some(FrameOutcome::NeedMore { length_known: true }),
        match spec_next_frame(s) {
            Some(FrameOutcome::Frame { id, payload, rest }) => match read_varint(s) {
                VarIntRead::Value { value: len, len: k } => k + (len as usize) <= s.len() && rest
                    == s.skip(k + (len as usize)) && match read_varint(s.skip(k as int)) {
                    VarIntRead::Value { value: id2, len: k2 } => id2 == id && k2 <= (len as usize)
                        && payload == s.subrange(k + k2, k + (len as usize)) && payload.len() == (
                    len as usize) - k2,
                    _ => false,
                },
                _ => false,
            },
            _ => true,
        },
{
    match read_varint(s) {
        VarIntRead::Value { value: len, len: k } => {
            crate::protocol::varint::lemma_read_varint_len(s);
            let data_len = len as usize;
            if 0 <= len {
                assert(data_len as int == len);
            }
            if s.len() >= k + data_len && k + data_len <= usize::MAX {
                let raw = s.skip(k as int).take(data_len as int);
                crate::protocol::varint::lemma_read_varint_len(raw);
                match read_varint(raw) {
                    VarIntRead::Value { value: id2, len: k2 } => {
                        crate::protocol::varint::lemma_read_varint_prefix(s.skip(k as int), data_len as int);
                        assert(raw.skip(k2 as int) =~= s.subrange(k + k2, k + data_len));
                    },
                    _ => {},
                }
            }
        },
        _ => {},
    }
}

/// A frame that a packet is sent in is read back as that packet: its id,
/// its body, and the buffer keeps whatever followed the frame. This holds
/// where the id and body together are at most `i32::MAX` bytes.
pub proof fn lemma_frame_roundtrip(id: i32, body: Seq<u8>, rest: Seq<u8>)
    requires
        varint_bytes(id as u32).len() + body.len() <= i32::MAX,
    ensures
        spec_next_frame(frame_bytes(id, body) + rest) == Some(
            FrameOutcome::Frame { id, payload: body, rest },
        ),
{
    let data = varint_bytes(id as u32) + body;
    let n = data.len();
    let v: i32 = (n as usize) as i32;
    assert(v == n);
    crate::protocol::varint::lemma_varint_roundtrip(v, data + rest);
    crate::protocol::varint::lemma_varint_roundtrip(id, body);
    let s = frame_bytes(id, body) + rest;
    assert(s == varint_bytes(v as u32) + (data + rest));
    let k = varint_bytes(v as u32).len();
    assert(s.skip(k as int) == data + rest);
    let data_len = v as usize;
    assert(data_len == n);
    assert(s.skip(k as int).take(data_len as int) == data);
    assert(s.skip(k + data_len) == rest);
    let k2 = varint_bytes(id as u32).len();
    assert(data.skip(k2 as int) == body);
}

/// The upper-case hexadecimal digit of `d` (below sixteen).
pub open spec fn hex_digit(d: nat) -> char {
    if d < 10 {
        ('0' as u32 + d) as char
    } else {
        ('A' as u32 + (d - 10)) as char
    }
}

/// The upper-case hexadecimal digits of `n`, without leading zeros.
pub open spec fn hex_digits(n: nat) -> Seq<char>
    decreases n,
{
    if n < 16 {
        seq![hex_digit(n)]
    } else {
        hex_digits(n / 16).push(hex_digit(n % 16))
    }
}

/// `n` in upper-case hexadecimal, padded with zeros to two digits; a
/// negative value is written through its two's-complement bits.
pub open spec fn hex2(n: i32) -> Seq<char> {
    let u = n as u32;
    if u < 16 {
        seq!['0', hex_digit(u as nat)]
    } else {
        hex_digits(u as nat)
    }
}

fn hex_digit_str(d: u32) -> (s: &'static str)
    requires
        d < 16,
    ensures
        s@ == seq![hex_digit(d as nat)],
{
    proof {
        reveal_strlit("0");
        reveal_strlit("1");
        reveal_strlit("2");
        reveal_strlit("3");
        reveal_strlit("4");
        reveal_strlit("5");
        reveal_strlit("6");
        reveal_strlit("7");
        reveal_strlit("8");
        reveal_strlit("9");
        reveal_strlit("A");
        reveal_strlit("B");
        reveal_strlit("C");
        reveal_strlit("D");
        reveal_strlit("E");
        reveal_strlit("F");
    }
    let s = match d {
        0 => "0",
        1 => "1",
        2 => "2",
        3 => "3",
        4 => "4",
        5 => "5",
        6 => "6",
        7 => "7",
        8 => "8",
        9 => "9",
        10 => "A",
        11 => "B",
        12 => "C",
        13 => "D",
        14 => "E",
        _ => "F",
    };
    assert(s@ =~= seq![hex_digit(d as nat)]);
    s
}

fn push_hex_digits(out: &mut String, n: u32)
    ensures
        final(out)@ == old(out)@ + hex_digits(n as nat),
    decreases n,
{
    if n >= 16 {
        push_hex_digits(out, n / 16);
    }
    out.append(hex_digit_str(n % 16));
    if n >= 16 {
        assert(hex_digits(n as nat) == hex_digits((n / 16) as nat).push(hex_digit((n % 16) as nat)));
    }
}

/// The name of a protocol state, as used in `debug_packet_id`.
pub open spec fn state_label(state: i32) -> Seq<char> {
    if state == 0 {
        "HANDSHAKE"@
    } else if state == 2 {
        "LOGIN"@
    } else if state == 3 {
        "CONFIG"@
    } else if state == 4 {
        "PLAY"@
    } else {
        "UNKNOWN"@
    }
}

/// A packet id with its state for logs, such as `PLAY(0x2B)`.
pub fn debug_packet_id(id: i32, state: i32) -> (s: String)
    ensures
        s@ == state_label(state) + "(0x"@ + hex2(id) + ")"@,
{
    let mut s = match state {
        0 => String::from_str("HANDSHAKE"),
        2 => String::from_str("LOGIN"),
        3 => String::from_str("CONFIG"),
        4 => String::from_str("PLAY"),
        _ => String::from_str("UNKNOWN"),
    };
    s.append("(0x");
    let u = id as u32;
    if u < 16 {
        s.append("0");
        proof {
            reveal_strlit("0");
        }
    }
    push_hex_digits(&mut s, u);
    s.append(")");
    s
}

} // verus!
