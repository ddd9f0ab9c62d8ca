//! The packets of the handshake, login, configuration and play states that
//! carry no floating-point fields.
use crate::buf::{be_u16, be_u32, be_u64, buf_bytes, put_i32, put_i64, put_i8, put_slice, put_u8};
use crate::protocol::error::DecodeError;
use crate::protocol::packet::Packet;
use crate::protocol::types::{
    lemma_be_roundtrip, lemma_mc_string_roundtrip, mc_string_bytes, read_mc_string,
    read_string_core, read_u16_be, read_u32_be, read_u64_be, u16_from_be, u32_from_be,
    u64_from_be, McWrite,
};
use crate::protocol::varint::{lemma_varint_roundtrip, read_varint, varint_bytes, VarInt, VarIntRead};
use bytes::BytesMut;
use vstd::prelude::*;
use vstd::utf8::encode_utf8;

verus! {

// =============================================================================
// HANDSHAKE
// =============================================================================
/// The first packet of a connection.
pub struct HandshakePacket {
    pub protocol: i32,
    pub address: String,
    pub port: u16,
    pub next_state: i32,
}

/// The fields of a handshake: protocol, address, port, next state.
pub type HandshakeFields = (i32, Seq<char>, u16, i32);

/// What reading a handshake from `s` gives, and what is left of `s`. None
/// is the outcome where the reader gives up (an overlong VarInt, or an
/// address length that is negative or past the end).
pub open spec fn spec_decode_handshake(s: Seq<u8>) -> Option<
    (Result<HandshakeFields, DecodeError>, Seq<u8>),
> {
    match read_varint(s) {
        VarIntRead::Overlong => None,
        VarIntRead::Incomplete => Some((Err(DecodeError::IncompleteVarInt), Seq::<u8>::empty())),
        VarIntRead::Value { value: protocol, len: k } => match read_mc_string(s.skip(k as int)) {
            None => None,
            Some((Err(e), r)) => Some((Err(e), r)),
            Some((Ok(address), r)) => {
                if r.len() < 2 {
                    Some((Err(DecodeError::MissingHandshakePort), r))
                } else {
                    let port = u16_from_be(r);
                    let r2 = r.skip(2);
                    match read_varint(r2) {
                        VarIntRead::Overlong => None,
                        VarIntRead::Incomplete => Some(
                            (Err(DecodeError::IncompleteVarInt), Seq::<u8>::empty()),
                        ),
                        VarIntRead::Value { value: next_state, len: k3 } => Some(
                            (Ok((protocol, address, port, next_state)), r2.skip(k3 as int)),
                        ),
                    }
                }
            },
        },
    }
}

impl HandshakePacket {
    pub open spec fn fields(&self) -> HandshakeFields {
        (self.protocol, self.address@, self.port, self.next_state)
    }

    /// Whether `r` is the result that the outcome `o` describes.
    pub open spec fn decoded(r: Result<Self, DecodeError>, o: Result<HandshakeFields, DecodeError>) -> bool {
        match o {
            Ok(f) => r matches Ok(p) && p.fields() == f,
            Err(e) => r matches Err(e2) && e2 == e,
        }
    }

    fn decode_core(buf: &mut BytesMut) -> (r: Option<Result<Self, DecodeError>>)
        ensures
            match spec_decode_handshake(buf_bytes(*old(buf))) {
                None => r is None,
                Some((o, rest)) => r matches Some(res) && Self::decoded(res, o)
                    && buf_bytes(*final(buf)) == rest,
            },
    {
        let protocol = match VarInt::decode_core(buf) {
            None => return None,
            Some(Err(e)) => return Some(Err(e)),
            Some(Ok(v)) => v,
        };
        let address = match read_string_core(buf) {
            None => return None,
            Some(Err(e)) => return Some(Err(e)),
            Some(Ok(a)) => a,
        };
        if buf.len() < 2 {
            return Some(Err(DecodeError::MissingHandshakePort));
        }
        let port = read_u16_be(buf);
        let next_state = match VarInt::decode_core(buf) {
            None => return None,
            Some(Err(e)) => return Some(Err(e)),
            Some(Ok(v)) => v,
        };
        Some(Ok(Self { protocol, address, port, next_state }))
    }

    /// Reads a handshake from the front of the buffer as
    /// `spec_decode_handshake` says, or gives None, with the buffer as it
    /// was, where the reader gives up.
    pub fn try_decode(buf: &mut BytesMut) -> (r: Option<Result<Self, DecodeError>>)
        ensures
            match spec_decode_handshake(buf_bytes(*old(buf))) {
                None => r is None && buf_bytes(*final(buf)) == buf_bytes(*old(buf)),
                Some((o, rest)) => r matches Some(res) && Self::decoded(res, o)
                    && buf_bytes(*final(buf)) == rest,
            },
    {
        let mut work = buf.clone();
        let r = Self::decode_core(&mut work);
        if r.is_some() {
            *buf = work;
        }
        r
    }

    /// Reads a handshake from the front of the buffer, as
    /// `spec_decode_handshake` says.
    pub fn decode(buf: &mut BytesMut) -> (r: Result<Self, DecodeError>)
        requires
            spec_decode_handshake(buf_bytes(*old(buf))) is Some,
        ensures
            spec_decode_handshake(buf_bytes(*old(buf))) matches Some((o, rest)) && Self::decoded(r, o)
                && buf_bytes(*final(buf)) == rest,
    {
        match Self::decode_core(buf) {
            Some(r) => r,
            None => {
                proof {
                    assert(false);
                }
                Err(DecodeError::IncompleteVarInt)
            },
        }
    }
}

impl Packet for HandshakePacket {
    const ID: i32 = 0x00;

    open spec fn encoded(&self) -> Seq<u8> {
        varint_bytes(self.protocol as u32) + mc_string_bytes(self.address@) + be_u16(self.port)
            + varint_bytes(self.next_state as u32)
    }

    fn encode(&self, buf: &mut BytesMut) {
        let ghost start = buf_bytes(*buf);
        VarInt(self.protocol).encode(buf);
        self.address.mc_write(buf);
        let port_bytes = [(self.port >> 8) as u8, self.port as u8];
        assert(port_bytes@ == be_u16(self.port));
        buf.extend_from_slice(port_bytes.as_slice());
        VarInt(self.next_state).encode(buf);
        assert(buf_bytes(*buf) == start + self.encoded());
    }
}

/// A handshake that is written is read back as itself, and whatever
/// follows it is left: this holds whenever the address is at most
/// `i32::MAX` bytes long in UTF-8.
pub proof fn lemma_handshake_roundtrip(p: HandshakePacket, rest: Seq<u8>)
    requires
        encode_utf8(p.address@).len() <= i32::MAX,
    ensures
        spec_decode_handshake(p.encoded() + rest) == Some(
            (Ok::<HandshakeFields, DecodeError>(p.fields()), rest),
        ),
{
    let a = varint_bytes(p.protocol as u32);
    let b = mc_string_bytes(p.address@);
    let c = be_u16(p.port);
    let d = varint_bytes(p.next_state as u32);
    let s = p.encoded() + rest;
    assert(s == a + (b + (c + d + rest)));
    lemma_varint_roundtrip(p.protocol, b + (c + d + rest));
    assert(s.skip(a.len() as int) == b + (c + d + rest));
    lemma_mc_string_roundtrip(p.address@, c + d + rest);
    let r = c + d + rest;
    lemma_be_roundtrip(p.port, 0, 0);
    assert(u16_from_be(r) == u16_from_be(c));
    assert(r.skip(2) == d + rest);
    lemma_varint_roundtrip(p.next_state, rest);
    assert((d + rest).skip(d.len() as int) == rest);
}

// =============================================================================
// LOGIN
// =============================================================================
/// The login request: a player name and, where the client sends one, a
/// UUID.
pub struct LoginStartPacket {
    pub name: String,
    pub uuid: [u8; 16],
}

/// The fields of a login start: name, UUID bytes.
pub type LoginStartFields = (Seq<char>, Seq<u8>);

/// What reading a login start from `s` gives, and what is left of `s`: a
/// name longer than the rest of the buffer is an error, and a UUID is read
/// only where sixteen bytes remain (it is all zeros otherwise). None is the
/// outcome where the name's length VarInt is overlong.
pub open spec fn spec_decode_login_start(s: Seq<u8>) -> Option<
    (Result<LoginStartFields, DecodeError>, Seq<u8>),
> {
    match read_varint(s) {
        VarIntRead::Overlong => None,
        VarIntRead::Incomplete => Some((Err(DecodeError::IncompleteVarInt), Seq::<u8>::empty())),
        VarIntRead::Value { value: n, len: k } => {
            let r = s.skip(k as int);
            let name_len = n as usize;
            if r.len() < name_len {
                Some((Err(DecodeError::LoginNameTruncated), r))
            } else {
                let name = crate::protocol::types::utf8_lossy(r.take(name_len as int));
                let r2 = r.skip(name_len as int);
                if r2.len() >= 16 {
                    Some((Ok((name, r2.take(16))), r2.skip(16)))
                } else {
                    Some((Ok((name, Seq::new(16, |i: int| 0u8))), r2))
                }
            }
        },
    }
}

fn take_uuid(buf: &mut BytesMut) -> (uuid: [u8; 16])
    requires
        buf_bytes(*old(buf)).len() >= 16,
    ensures
        uuid@ == buf_bytes(*old(buf)).take(16),
        buf_bytes(*final(buf)) == buf_bytes(*old(buf)).skip(16),
{
    let head = buf.split_to(16);
    let b = crate::buf::buf_as_slice(&head);
    let uuid = [
        b[0],
        b[1],
        b[2],
        b[3],
        b[4],
        b[5],
        b[6],
        b[7],
        b[8],
        b[9],
        b[10],
        b[11],
        b[12],
        b[13],
        b[14],
        b[15],
    ];
    assert(uuid@ =~= buf_bytes(*old(buf)).take(16));
    uuid
}

impl LoginStartPacket {
    pub open spec fn fields(&self) -> LoginStartFields {
        (self.name@, self.uuid@)
    }

    /// Whether `r` is the result that the outcome `o` describes.
    pub open spec fn decoded(r: Result<Self, DecodeError>, o: Result<LoginStartFields, DecodeError>) -> bool {
        match o {
            Ok(f) => r matches Ok(p) && p.fields() == f,
            Err(e) => r matches Err(e2) && e2 == e,
        }
    }

    fn decode_core(buf: &mut BytesMut) -> (r: Option<Result<Self, DecodeError>>)
        ensures
            match spec_decode_login_start(buf_bytes(*old(buf))) {
                None => r is None,
                Some((o, rest)) => r matches Some(res) && Self::decoded(res, o)
                    && buf_bytes(*final(buf)) == rest,
            },
    {
        let n = match VarInt::decode_core(buf) {
            None => return None,
            Some(Err(e)) => return Some(Err(e)),
            Some(Ok(v)) => v,
        };
        let name_len = n as usize;
        if buf.len() < name_len {
            return Some(Err(DecodeError::LoginNameTruncated));
        }
        let head = buf.split_to(name_len);
        let name = crate::protocol::types::string_from_utf8_lossy(crate::buf::buf_as_slice(&head));
        let mut uuid = [0u8; 16];
        if buf.len() >= 16 {
            uuid = take_uuid(buf);
        } else {
            assert(uuid@ =~= Seq::new(16, |i: int| 0u8));
        }
        Some(Ok(Self { name, uuid }))
    }

    /// Reads a login start from the front of the buffer as
    /// `spec_decode_login_start` says, or gives None, with the buffer as it
    /// was, where the reader gives up.
    pub fn try_decode(buf: &mut BytesMut) -> (r: Option<Result<Self, DecodeError>>)
        ensures
            match spec_decode_login_start(buf_bytes(*old(buf))) {
                None => r is None && buf_bytes(*final(buf)) == buf_bytes(*old(buf)),
                Some((o, rest)) => r matches Some(res) && Self::decoded(res, o)
                    && buf_bytes(*final(buf)) == rest,
            },
    {
        let mut work = buf.clone();
        let r = Self::decode_core(&mut work);
        if r.is_some() {
            *buf = work;
        }
        r
    }

    /// Reads a login start from the front of the buffer, as
    /// `spec_decode_login_start` says.
    pub fn decode(buf: &mut BytesMut) -> (r: Result<Self, DecodeError>)
        requires
            spec_decode_login_start(buf_bytes(*old(buf))) is Some,
        ensures
            spec_decode_login_start(buf_bytes(*old(buf))) matches Some((o, rest)) && Self::decoded(r, o)
                && buf_bytes(*final(buf)) == rest,
    {
        match Self::decode_core(buf) {
            Some(r) => r,
            None => {
                proof {
                    assert(false);
                }
                Err(DecodeError::IncompleteVarInt)
            },
        }
    }
}

impl Packet for LoginStartPacket {
    const ID: i32 = 0x00;

    open spec fn encoded(&self) -> Seq<u8> {
        mc_string_bytes(self.name@) + self.uuid@
    }

    fn encode(&self, buf: &mut BytesMut) {
        self.name.mc_write(buf);
        buf.extend_from_slice(self.uuid.as_slice());
    }
}

/// A login start that is written is read back as itself, and whatever
/// follows it is left, whenever the name is at most `i32::MAX` bytes long
/// in UTF-8.
pub proof fn lemma_login_start_roundtrip(p: LoginStartPacket, rest: Seq<u8>)
    requires
        encode_utf8(p.name@).len() <= i32::MAX,
    ensures
        spec_decode_login_start(p.encoded() + rest) == Some(
            (Ok::<LoginStartFields, DecodeError>(p.fields()), rest),
        ),
{
    let t = encode_utf8(p.name@);
    let n: i32 = (t.len() as usize) as i32;
    let s = p.encoded() + rest;
    let tail = t + p.uuid@ + rest;
    assert(s == varint_bytes(n as u32) + tail);
    lemma_varint_roundtrip(n, tail);
    let k = varint_bytes(n as u32).len();
    assert(s.skip(k as int) == tail);
    assert(tail.take(t.len() as int) == t);
    assert(tail.skip(t.len() as int) == p.uuid@ + rest);
    assert((p.uuid@ + rest).take(16) == p.uuid@);
    assert((p.uuid@ + rest).skip(16) == rest);
    vstd::utf8::encode_utf8_valid_utf8(p.name@);
    vstd::utf8::encode_utf8_decode_utf8(p.name@);
}

/// The server's answer to a login start.
pub struct LoginSuccessPacket {
    pub uuid: [u8; 16],
    pub username: String,
}

impl Packet for LoginSuccessPacket {
    const ID: i32 = 0x02;

    /// The UUID, the name, and an empty list of properties.
    open spec fn encoded(&self) -> Seq<u8> {
        self.uuid@ + mc_string_bytes(self.username@) + varint_bytes(0)
    }

    fn encode(&self, buf: &mut BytesMut) {
        let ghost start = buf_bytes(*buf);
        put_slice(buf, self.uuid.as_slice());
        self.username.mc_write(buf);
        VarInt(0).encode(buf);
        assert(buf_bytes(*buf) == start + self.encoded());
    }
}

// =============================================================================
// CONFIGURATION
// =============================================================================
/// The end of the configuration phase; it has no body.
pub struct FinishConfigurationPacket;

impl Packet for FinishConfigurationPacket {
    const ID: i32 = 0x03;

    open spec fn encoded(&self) -> Seq<u8> {
        Seq::<u8>::empty()
    }

    fn encode(&self, _buf: &mut BytesMut) {
        assert(buf_bytes(*_buf) == buf_bytes(*_buf) + Seq::<u8>::empty());
    }
}

/// A serverbound ping.
pub struct PingPacket {
    pub id: i32,
}

/// Reading a four-byte big-endian id: the id and what is left, or, where
/// fewer than four bytes remain, the error and the bytes untouched.
pub open spec fn spec_read_id32(s: Seq<u8>, short: DecodeError) -> (Result<i32, DecodeError>, Seq<u8>) {
    if s.len() < 4 {
        (Err(short), s)
    } else {
        (Ok(u32_from_be(s) as i32), s.skip(4))
    }
}

fn read_id32(buf: &mut BytesMut, short: DecodeError) -> (r: Result<i32, DecodeError>)
    ensures
        r == spec_read_id32(buf_bytes(*old(buf)), short).0,
        buf_bytes(*final(buf)) == spec_read_id32(buf_bytes(*old(buf)), short).1,
{
    if buf.len() < 4 {
        return Err(short);
    }
    Ok(read_u32_be(buf) as i32)
}

impl PingPacket {
    /// Reads a ping: four big-endian bytes, or `PingTruncated` where fewer
    /// remain.
    pub fn decode(buf: &mut BytesMut) -> (r: Result<Self, DecodeError>)
        ensures
            match spec_read_id32(buf_bytes(*old(buf)), DecodeError::PingTruncated).0 {
                Ok(id) => r matches Ok(p) && p.id == id,
                Err(e) => r matches Err(e2) && e2 == e,
            },
            buf_bytes(*final(buf)) == spec_read_id32(buf_bytes(*old(buf)), DecodeError::PingTruncated).1,
    {
        match read_id32(buf, DecodeError::PingTruncated) {
            Ok(id) => Ok(Self { id }),
            Err(e) => Err(e),
        }
    }
}

/// A clientbound ping; the client answers with a pong that carries the id.
pub struct ClientboundPingPacket {
    pub id: i32,
}

impl Packet for ClientboundPingPacket {
    const ID: i32 = 0x05;

    open spec fn encoded(&self) -> Seq<u8> {
        be_u32(self.id as u32)
    }

    fn encode(&self, buf: &mut BytesMut) {
        put_i32(buf, self.id);
    }
}

/// A serverbound pong, the answer to a clientbound ping.
pub struct PongPacket {
    pub id: i32,
}

impl PongPacket {
    /// Reads a pong: four big-endian bytes, or `PongTruncated` where fewer
    /// remain.
    pub fn decode(buf: &mut BytesMut) -> (r: Result<Self, DecodeError>)
        ensures
            match spec_read_id32(buf_bytes(*old(buf)), DecodeError::PongTruncated).0 {
                Ok(id) => r matches Ok(p) && p.id == id,
                Err(e) => r matches Err(e2) && e2 == e,
            },
            buf_bytes(*final(buf)) == spec_read_id32(buf_bytes(*old(buf)), DecodeError::PongTruncated).1,
    {
        match read_id32(buf, DecodeError::PongTruncated) {
            Ok(id) => Ok(Self { id }),
            Err(e) => Err(e),
        }
    }
}

/// The id of a clientbound ping comes back in a pong that echoes its bytes.
pub proof fn lemma_ping_pong(id: i32, rest: Seq<u8>)
    ensures
        spec_read_id32(ClientboundPingPacket { id }.encoded() + rest, DecodeError::PongTruncated)
            == (Ok::<i32, DecodeError>(id), rest),
{
    let s = be_u32(id as u32) + rest;
    lemma_be_roundtrip(0, id as u32, 0);
    assert(u32_from_be(s) == u32_from_be(be_u32(id as u32)));
    assert(((id as u32) as i32) == id) by (bit_vector);
    assert(s.skip(4) == rest);
}

// =============================================================================
// PLAY
// =============================================================================
/// A clientbound keep-alive.
pub struct KeepAliveClientboundPacket {
    pub id: i64,
}

impl Packet for KeepAliveClientboundPacket {
    const ID: i32 = 0x2B;

    open spec fn encoded(&self) -> Seq<u8> {
        be_u64(self.id as u64)
    }

    fn encode(&self, buf: &mut BytesMut) {
        put_i64(buf, self.id);
    }
}

/// The client's answer to a keep-alive.
pub struct KeepAliveServerboundPacket {
    pub id: i64,
}

impl KeepAliveServerboundPacket {
    /// Reads a keep-alive answer: eight big-endian bytes, or
    /// `KeepAliveTruncated` (the buffer untouched) where fewer remain.
    pub fn decode(buf: &mut BytesMut) -> (r: Result<Self, DecodeError>)
        ensures
            buf_bytes(*old(buf)).len() < 8 ==> r == Err::<Self, DecodeError>(
                DecodeError::KeepAliveTruncated,
            ) && buf_bytes(*final(buf)) == buf_bytes(*old(buf)),
            buf_bytes(*old(buf)).len() >= 8 ==> (r matches Ok(p) && p.id == u64_from_be(
                buf_bytes(*old(buf)),
            ) as i64 && buf_bytes(*final(buf)) == buf_bytes(*old(buf)).skip(8)),
    {
        if buf.len() < 8 {
            return Err(DecodeError::KeepAliveTruncated);
        }
        let id = read_u64_be(buf) as i64;
        Ok(Self { id })
    }
}

/// The id of a keep-alive comes back in an answer that echoes its bytes.
pub proof fn lemma_keep_alive_echo(id: i64, rest: Seq<u8>)
    ensures
        u64_from_be(KeepAliveClientboundPacket { id }.encoded() + rest) as i64 == id,
        (KeepAliveClientboundPacket { id }.encoded() + rest).skip(8) == rest,
{
    let s = be_u64(id as u64) + rest;
    lemma_be_roundtrip(0, 0, id as u64);
    assert(u64_from_be(s) == u64_from_be(be_u64(id as u64)));
    assert(((id as u64) as i64) == id) by (bit_vector);
}

/// Reads the four big-endian bytes of a chunk-batch-received packet (the
/// bits of its `f32` chunks per tick), or `ChunkBatchReceivedTruncated`
/// (the buffer untouched) where fewer remain.
pub fn decode_chunk_batch_received_bits(buf: &mut BytesMut) -> (r: Result<u32, DecodeError>)
    ensures
        buf_bytes(*old(buf)).len() < 4 ==> r == Err::<u32, DecodeError>(
            DecodeError::ChunkBatchReceivedTruncated,
        ) && buf_bytes(*final(buf)) == buf_bytes(*old(buf)),
        buf_bytes(*old(buf)).len() >= 4 ==> r == Ok::<u32, DecodeError>(
            u32_from_be(buf_bytes(*old(buf))),
        ) && buf_bytes(*final(buf)) == buf_bytes(*old(buf)).skip(4),
{
    if buf.len() < 4 {
        return Err(DecodeError::ChunkBatchReceivedTruncated);
    }
    Ok(read_u32_be(buf))
}

/// The client's confirmation of a teleport.
pub struct ConfirmTeleportPacket {
    pub teleport_id: i32,
}

impl ConfirmTeleportPacket {
    /// Reads the teleport id VarInt; an overlong VarInt is not admitted.
    pub fn decode(buf: &mut BytesMut) -> (r: Result<Self, DecodeError>)
        requires
            !(read_varint(buf_bytes(*old(buf))) is Overlong),
        ensures
            match read_varint(buf_bytes(*old(buf))) {
                VarIntRead::Value { value, len } => r matches Ok(p) && p.teleport_id == value
                    && buf_bytes(*final(buf)) == buf_bytes(*old(buf)).skip(len as int),
                _ => r == Err::<Self, DecodeError>(DecodeError::IncompleteVarInt)
                    && buf_bytes(*final(buf)) == Seq::<u8>::empty(),
            },
    {
        let teleport_id = VarInt::decode(buf)?;
        Ok(Self { teleport_id })
    }

    /// Reads the teleport id as `decode` does, or gives None, with the
    /// buffer as it was, where the VarInt is overlong.
    pub fn try_decode(buf: &mut BytesMut) -> (r: Option<Result<Self, DecodeError>>)
        ensures
            match read_varint(buf_bytes(*old(buf))) {
                VarIntRead::Value { value, len } => r matches Some(Ok(p)) && p.teleport_id
                    == value && buf_bytes(*final(buf)) == buf_bytes(*old(buf)).skip(len as int),
                VarIntRead::Incomplete => r matches Some(Err(e)) && e
                    == DecodeError::IncompleteVarInt && buf_bytes(*final(buf))
                    == Seq::<u8>::empty(),
                VarIntRead::Overlong => r is None && buf_bytes(*final(buf)) == buf_bytes(
                    *old(buf),
                ),
            },
    {
        let mut work = buf.clone();
        match VarInt::decode_core(&mut work) {
            None => None,
            Some(Ok(teleport_id)) => {
                *buf = work;
                Some(Ok(Self { teleport_id }))
            },
            Some(Err(e)) => {
                *buf = work;
                Some(Err(e))
            },
        }
    }
}

/// The 26 low bits of `x`, then the 26 low bits of `z`, then the 12 low
/// bits of `y`, from the most significant end of the 64 bits.
pub open spec fn spec_pack_block_pos(x: i32, y: i32, z: i32) -> i64 {
    ((((x as i64) & 0x3ffffff) << 38u64) | (((z as i64) & 0x3ffffff) << 12u64) | ((y as i64)
        & 0xfff)) as i64
}

/// Packs a block position into the protocol's 64-bit form.
pub fn pack_block_pos(x: i32, y: i32, z: i32) -> (p: i64)
    ensures
        p == spec_pack_block_pos(x, y, z),
{
    let xx = ((x as i64) & 0x3ffffff) << 38;
    let zz = ((z as i64) & 0x3ffffff) << 12;
    let yy = (y as i64) & 0xfff;
    xx | zz | yy
}

/// A packed position gives back its coordinates: x and z where they lie in
/// the 26-bit range, y where it lies in the 12-bit range.
pub proof fn lemma_pack_block_pos_fields(x: i32, y: i32, z: i32)
    requires
        -0x200_0000 <= x < 0x200_0000,
        -0x200_0000 <= z < 0x200_0000,
        -0x800 <= y < 0x800,
    ensures
        (spec_pack_block_pos(x, y, z) >> 38u64) == x,
        ((spec_pack_block_pos(x, y, z) << 26u64) >> 38u64) == z,
        ((spec_pack_block_pos(x, y, z) << 52u64) >> 52u64) == y,
{
    let p = spec_pack_block_pos(x, y, z);
    let xl = x as i64;
    let yl = y as i64;
    let zl = z as i64;
    assert(p == ((((xl & 0x3ffffff) << 38u64) | ((zl & 0x3ffffff) << 12u64) | (yl & 0xfff)) as i64));
    assert((((((xl & 0x3ffffff) << 38u64) | ((zl & 0x3ffffff) << 12u64) | (yl & 0xfff)) as i64)
        >> 38u64) == xl && ((((((xl & 0x3ffffff) << 38u64) | ((zl & 0x3ffffff) << 12u64) | (yl
        & 0xfff)) as i64) << 26u64) >> 38u64) == zl && ((((((xl & 0x3ffffff) << 38u64) | ((zl
        & 0x3ffffff) << 12u64) | (yl & 0xfff)) as i64) << 52u64) >> 52u64) == yl) by (bit_vector)
        requires
            -0x200_0000 <= xl < 0x200_0000,
            -0x200_0000 <= zl < 0x200_0000,
            -0x800 <= yl < 0x800,
    ;
}

/// Chunk data with light data, its payload already encoded.
pub struct ChunkDataPacket {
    pub chunk_x: i32,
    pub chunk_z: i32,
    pub data: Vec<u8>,
}

impl Packet for ChunkDataPacket {
    const ID: i32 = 0x23;

    open spec fn encoded(&self) -> Seq<u8> {
        be_u32(self.chunk_x as u32) + be_u32(self.chunk_z as u32) + self.data@
    }

    fn encode(&self, buf: &mut BytesMut) {
        let ghost start = buf_bytes(*buf);
        put_i32(buf, self.chunk_x);
        put_i32(buf, self.chunk_z);
        put_slice(buf, self.data.as_slice());
        assert(buf_bytes(*buf) == start + self.encoded());
    }
}

/// The chunk the client's view is centred on.
pub struct UpdateViewPositionPacket {
    pub chunk_x: VarInt,
    pub chunk_z: VarInt,
}

impl Packet for UpdateViewPositionPacket {
    const ID: i32 = 0x5C;

    open spec fn encoded(&self) -> Seq<u8> {
        varint_bytes(self.chunk_x.0 as u32) + varint_bytes(self.chunk_z.0 as u32)
    }

    fn encode(&self, buf: &mut BytesMut) {
        let ghost start = buf_bytes(*buf);
        self.chunk_x.encode(buf);
        self.chunk_z.encode(buf);
        assert(buf_bytes(*buf) == start + self.encoded());
    }
}

/// The server's view distance.
pub struct UpdateViewDistancePacket {
    pub view_distance: VarInt,
}

impl Packet for UpdateViewDistancePacket {
    const ID: i32 = 0x5D;

    open spec fn encoded(&self) -> Seq<u8> {
        varint_bytes(self.view_distance.0 as u32)
    }

    fn encode(&self, buf: &mut BytesMut) {
        self.view_distance.encode(buf);
    }
}

/// The server's simulation distance.
pub struct SimulationDistancePacket {
    pub simulation_distance: VarInt,
}

impl Packet for SimulationDistancePacket {
    const ID: i32 = 0x6D;

    open spec fn encoded(&self) -> Seq<u8> {
        varint_bytes(self.simulation_distance.0 as u32)
    }

    fn encode(&self, buf: &mut BytesMut) {
        self.simulation_distance.encode(buf);
    }
}

/// The start of a batch of chunks; it has no body.
pub struct ChunkBatchStartPacket;

impl Packet for ChunkBatchStartPacket {
    const ID: i32 = 0x0C;

    open spec fn encoded(&self) -> Seq<u8> {
        Seq::<u8>::empty()
    }

    fn encode(&self, _buf: &mut BytesMut) {
        assert(buf_bytes(*_buf) == buf_bytes(*_buf) + Seq::<u8>::empty());
    }
}

/// The end of a batch of chunks, with the number of chunks sent.
pub struct ChunkBatchFinishedPacket {
    pub batch_size: VarInt,
}

impl Packet for ChunkBatchFinishedPacket {
    const ID: i32 = 0x0B;

    open spec fn encoded(&self) -> Seq<u8> {
        varint_bytes(self.batch_size.0 as u32)
    }

    fn encode(&self, buf: &mut BytesMut) {
        self.batch_size.encode(buf);
    }
}

/// The login (join game) packet of the play state.
pub struct JoinGamePacket {
    pub entity_id: i32,
    pub is_hardcore: bool,
    pub dimensions: Vec<String>,
    pub max_players: VarInt,
    pub view_distance: VarInt,
    pub simulation_distance: VarInt,
    pub reduced_debug_info: bool,
    pub enable_respawn_screen: bool,
    pub do_limited_crafting: bool,
    pub dimension_type: VarInt,
    pub dimension_name: String,
    pub hashed_seed: i64,
    pub gamemode: u8,
    pub previous_gamemode: i8,
    pub is_debug: bool,
    pub is_flat: bool,
    pub portal_cooldown: VarInt,
    pub sea_level: VarInt,
}

/// One byte for a flag: 1 for true, 0 for false.
pub open spec fn flag_byte(b: bool) -> u8 {
    if b {
        1
    } else {
        0
    }
}

/// The wire bytes of a list of strings, one after another.
pub open spec fn strings_bytes(v: Seq<String>) -> Seq<u8> {
    crate::protocol::wire::concat_map(v, string_enc())
}

pub open spec fn string_enc() -> spec_fn(String) -> Seq<u8> {
    |s: String| mc_string_bytes(s@)
}

/// Appends each string of the list in wire form.
pub(crate) fn write_strings(v: &Vec<String>, buf: &mut BytesMut)
    requires
        buf_bytes(*old(buf)).len() + strings_bytes(v@).len() <= isize::MAX,
    ensures
        buf_bytes(*final(buf)) == buf_bytes(*old(buf)) + strings_bytes(v@),
{
    let ghost start = buf_bytes(*buf);
    let mut i: usize = 0;
    while i < v.len()
        invariant
            i <= v.len(),
            start == buf_bytes(*old(buf)),
            start.len() + strings_bytes(v@).len() <= isize::MAX,
            buf_bytes(*buf) == start + crate::protocol::wire::concat_map(v@.take(i as int), string_enc()),
        decreases v.len() - i,
    {
        proof {
            crate::protocol::wire::lemma_concat_map_push(v@, string_enc(), i as int);
            crate::protocol::wire::lemma_concat_map_take_len(v@, string_enc(), i + 1);
        }
        v[i].mc_write(buf);
        i = i + 1;
    }
    assert(v@.take(v.len() as int) == v@);
}

impl JoinGamePacket {
    /// Entity id, hardcore flag and the counted dimension names.
    pub open spec fn head_bytes(&self) -> Seq<u8> {
        be_u32(self.entity_id as u32) + seq![flag_byte(self.is_hardcore)] + varint_bytes(
            crate::protocol::types::wire_len(self.dimensions@.len()),
        ) + strings_bytes(self.dimensions@)
    }

    /// Player limit, distances and the three gameplay flags.
    pub open spec fn settings_bytes(&self) -> Seq<u8> {
        varint_bytes(self.max_players.0 as u32) + varint_bytes(self.view_distance.0 as u32)
            + varint_bytes(self.simulation_distance.0 as u32) + seq![
            flag_byte(self.reduced_debug_info),
            flag_byte(self.enable_respawn_screen),
            flag_byte(self.do_limited_crafting),
        ]
    }

    /// Dimension type and name, seed, game modes, debug and flat flags, and
    /// an absent death location.
    pub open spec fn world_bytes(&self) -> Seq<u8> {
        varint_bytes(self.dimension_type.0 as u32) + mc_string_bytes(self.dimension_name@)
            + be_u64(self.hashed_seed as u64) + seq![
            self.gamemode,
            self.previous_gamemode as u8,
            flag_byte(self.is_debug),
            flag_byte(self.is_flat),
            0u8,
        ]
    }

    /// Portal cooldown, sea level, and secure chat not enforced.
    pub open spec fn tail_bytes(&self) -> Seq<u8> {
        varint_bytes(self.portal_cooldown.0 as u32) + varint_bytes(self.sea_level.0 as u32)
            + seq![0u8]
    }

    fn encode_head(&self, buf: &mut BytesMut)
        requires
            buf_bytes(*old(buf)).len() + self.head_bytes().len() <= isize::MAX,
        ensures
            buf_bytes(*final(buf)) == buf_bytes(*old(buf)) + self.head_bytes(),
    {
        let ghost start = buf_bytes(*buf);
        put_i32(buf, self.entity_id);
        put_u8(buf, if self.is_hardcore { 1 } else { 0 });
        VarInt(self.dimensions.len() as i32).encode(buf);
        write_strings(&self.dimensions, buf);
        assert(buf_bytes(*buf) =~= start + self.head_bytes());
    }

    fn encode_settings(&self, buf: &mut BytesMut)
        requires
            buf_bytes(*old(buf)).len() + self.settings_bytes().len() <= isize::MAX,
        ensures
            buf_bytes(*final(buf)) == buf_bytes(*old(buf)) + self.settings_bytes(),
    {
        let ghost start = buf_bytes(*buf);
        self.max_players.encode(buf);
        self.view_distance.encode(buf);
        self.simulation_distance.encode(buf);
        put_u8(buf, if self.reduced_debug_info { 1 } else { 0 });
        put_u8(buf, if self.enable_respawn_screen { 1 } else { 0 });
        put_u8(buf, if self.do_limited_crafting { 1 } else { 0 });
        assert(buf_bytes(*buf) =~= start + self.settings_bytes());
    }

    fn encode_world(&self, buf: &mut BytesMut)
        requires
            buf_bytes(*old(buf)).len() + self.world_bytes().len() <= isize::MAX,
        ensures
            buf_bytes(*final(buf)) == buf_bytes(*old(buf)) + self.world_bytes(),
    {
        let ghost start = buf_bytes(*buf);
        self.dimension_type.encode(buf);
        self.dimension_name.mc_write(buf);
        put_i64(buf, self.hashed_seed);
        put_u8(buf, self.gamemode);
        put_i8(buf, self.previous_gamemode);
        put_u8(buf, if self.is_debug { 1 } else { 0 });
        put_u8(buf, if self.is_flat { 1 } else { 0 });
        put_u8(buf, 0);
        assert(buf_bytes(*buf) =~= start + self.world_bytes());
    }

    fn encode_tail(&self, buf: &mut BytesMut)
        requires
            buf_bytes(*old(buf)).len() + self.tail_bytes().len() <= isize::MAX,
        ensures
            buf_bytes(*final(buf)) == buf_bytes(*old(buf)) + self.tail_bytes(),
    {
        let ghost start = buf_bytes(*buf);
        self.portal_cooldown.encode(buf);
        self.sea_level.encode(buf);
        put_u8(buf, 0);
        assert(buf_bytes(*buf) =~= start + self.tail_bytes());
    }
}

impl Packet for JoinGamePacket {
    const ID: i32 = 0x30;

    /// The fields in order, the dimension names as a counted list of
    /// strings, then an absent death location, and secure chat not
    /// enforced.
    open spec fn encoded(&self) -> Seq<u8> {
        self.head_bytes() + self.settings_bytes() + self.world_bytes() + self.tail_bytes()
    }

    fn encode(&self, buf: &mut BytesMut) {
        let ghost start = buf_bytes(*buf);
        self.encode_head(buf);
        self.encode_settings(buf);
        self.encode_world(buf);
        self.encode_tail(buf);
        assert(buf_bytes(*buf) =~= start + self.encoded());
    }
}

// =============================================================================
// CONFIGURATION: registries, features, tags and known packs
// =============================================================================
/// A registry's contents, sent in the configuration phase.
pub struct RegistryDataPacket {
    pub registry_id: String,
    pub entries: Vec<RegistryEntry>,
}

/// A registry entry: its key, and its data (NBT) where the client is not to
/// take it from a known pack.
pub struct RegistryEntry {
    pub key: String,
    pub data: Option<Vec<u8>>,
}

/// The wire bytes of a registry entry: key, a presence flag, the data.
pub open spec fn entry_bytes(e: RegistryEntry) -> Seq<u8> {
    mc_string_bytes(e.key@) + seq![flag_byte(e.data is Some)] + match e.data {
        Some(d) => d@,
        None => Seq::<u8>::empty(),
    }
}

pub open spec fn entry_enc() -> spec_fn(RegistryEntry) -> Seq<u8> {
    |e: RegistryEntry| entry_bytes(e)
}

fn write_entry(e: &RegistryEntry, buf: &mut BytesMut)
    requires
        buf_bytes(*old(buf)).len() + entry_bytes(*e).len() <= isize::MAX,
    ensures
        buf_bytes(*final(buf)) == buf_bytes(*old(buf)) + entry_bytes(*e),
{
    let ghost start = buf_bytes(*buf);
    e.key.mc_write(buf);
    let has_data = e.data.is_some();
    put_u8(buf, if has_data { 1 } else { 0 });
    if let Some(data) = &e.data {
        put_slice(buf, data.as_slice());
    }
    assert(buf_bytes(*buf) =~= start + entry_bytes(*e));
}

impl Packet for RegistryDataPacket {
    const ID: i32 = 0x07;

    /// The registry id, then the counted entries.
    open spec fn encoded(&self) -> Seq<u8> {
        mc_string_bytes(self.registry_id@) + varint_bytes(
            crate::protocol::types::wire_len(self.entries@.len()),
        ) + crate::protocol::wire::concat_map(self.entries@, entry_enc())
    }

    fn encode(&self, buf: &mut BytesMut) {
        let ghost start = buf_bytes(*buf);
        self.registry_id.mc_write(buf);
        VarInt(self.entries.len() as i32).encode(buf);
        let ghost mid = buf_bytes(*buf);
        let mut i: usize = 0;
        while i < self.entries.len()
            invariant
                i <= self.entries.len(),
                mid.len() + crate::protocol::wire::concat_map(self.entries@, entry_enc()).len()
                    <= isize::MAX,
                buf_bytes(*buf) == mid + crate::protocol::wire::concat_map(
                    self.entries@.take(i as int),
                    entry_enc(),
                ),
            decreases self.entries.len() - i,
        {
            proof {
                crate::protocol::wire::lemma_concat_map_push(self.entries@, entry_enc(), i as int);
                crate::protocol::wire::lemma_concat_map_take_len(self.entries@, entry_enc(), i + 1);
            }
            write_entry(&self.entries[i], buf);
            i = i + 1;
        }
        assert(self.entries@.take(self.entries.len() as int) == self.entries@);
        assert(buf_bytes(*buf) =~= start + self.encoded());
    }
}

/// Builds a registry whose entries have the given keys and no data.
fn registry(id: &str, keys: &[&str]) -> (r: RegistryDataPacket)
    ensures
        r.registry_id@ == id@,
        r.entries@.len() == keys@.len(),
        forall|j: int|
            0 <= j < keys@.len() ==> (#[trigger] r.entries@[j]).key@ == keys@[j]@
                && r.entries@[j].data is None,
{
    let mut entries: Vec<RegistryEntry> = Vec::new();
    let mut i: usize = 0;
    while i < keys.len()
        invariant
            i <= keys@.len(),
            entries@.len() == i,
            forall|j: int|
                0 <= j < i ==> (#[trigger] entries@[j]).key@ == keys@[j]@ && entries@[j].data is None,
        decreases keys@.len() - i,
    {
        entries.push(RegistryEntry { key: keys[i].to_owned(), data: None });
        i = i + 1;
    }
    RegistryDataPacket { registry_id: id.to_owned(), entries }
}

/// The registries that `create_empty_registries` sends: each id with the
/// keys of its entries.
pub open spec fn empty_registry_plan() -> Seq<(Seq<char>, Seq<Seq<char>>)> {
    seq![
        ("minecraft:dimension_type"@, seq!["minecraft:overworld"@]),
        ("minecraft:worldgen/biome"@, seq!["minecraft:plains"@]),
        ("minecraft:dimension"@, seq!["minecraft:overworld"@]),
        ("minecraft:timeline"@, seq!["minecraft:day"@]),
        ("minecraft:damage_type"@, damage_type_keys()),
        ("minecraft:cat_variant"@, seq!["minecraft:tabby"@]),
        ("minecraft:chicken_variant"@, seq!["minecraft:temperate"@]),
        ("minecraft:cow_variant"@, seq!["minecraft:temperate"@]),
        ("minecraft:frog_variant"@, seq!["minecraft:temperate"@]),
        ("minecraft:painting_variant"@, seq!["minecraft:kebab"@]),
        ("minecraft:pig_variant"@, seq!["minecraft:temperate"@]),
        ("minecraft:wolf_sound_variant"@, seq!["minecraft:classic"@]),
        ("minecraft:wolf_variant"@, seq!["minecraft:pale"@]),
        ("minecraft:zombie_nautilus_variant"@, seq!["minecraft:temperate"@]),
    ]
}

/// The damage types that the damage-type registry lists.
pub open spec fn damage_type_keys() -> Seq<Seq<char>> {
    seq![
        "minecraft:arrow"@,
        "minecraft:bad_respawn_point"@,
        "minecraft:cactus"@,
        "minecraft:campfire"@,
        "minecraft:cramming"@,
        "minecraft:dragon_breath"@,
        "minecraft:drown"@,
        "minecraft:dry_out"@,
        "minecraft:ender_pearl"@,
        "minecraft:explosion"@,
        "minecraft:fall"@,
        "minecraft:falling_anvil"@,
        "minecraft:falling_block"@,
        "minecraft:falling_stalactite"@,
        "minecraft:fireball"@,
        "minecraft:fireworks"@,
        "minecraft:fly_into_wall"@,
        "minecraft:freeze"@,
        "minecraft:generic"@,
        "minecraft:generic_kill"@,
        "minecraft:hot_floor"@,
        "minecraft:in_fire"@,
        "minecraft:in_wall"@,
        "minecraft:indirect_magic"@,
        "minecraft:lava"@,
        "minecraft:lightning_bolt"@,
        "minecraft:mace_smash"@,
        "minecraft:magic"@,
        "minecraft:mob_attack"@,
        "minecraft:mob_attack_no_aggro"@,
        "minecraft:mob_projectile"@,
        "minecraft:on_fire"@,
        "minecraft:out_of_world"@,
        "minecraft:outside_border"@,
        "minecraft:player_attack"@,
        "minecraft:player_explosion"@,
        "minecraft:sonic_boom"@,
        "minecraft:spear"@,
        "minecraft:spit"@,
        "minecraft:stalagmite"@,
        "minecraft:starve"@,
        "minecraft:sting"@,
        "minecraft:sweet_berry_bush"@,
        "minecraft:thorns"@,
        "minecraft:thrown"@,
        "minecraft:trident"@,
        "minecraft:unattributed_fireball"@,
        "minecraft:wind_charge"@,
        "minecraft:wither"@,
        "minecraft:wither_skull"@,
    ]
}

/// Whether `r` is the registry that `plan` describes, with no entry data.
pub open spec fn registry_follows(r: RegistryDataPacket, plan: (Seq<char>, Seq<Seq<char>>)) -> bool {
    &&& r.registry_id@ == plan.0
    &&& r.entries@.len() == plan.1.len()
    &&& forall|j: int|
        0 <= j < plan.1.len() ==> (#[trigger] r.entries@[j]).key@ == plan.1[j]
            && r.entries@[j].data is None
}

/// The smallest set of non-empty registries the client accepts; no entry
/// carries data, so the client takes it from the known core pack.
pub fn create_empty_registries() -> (v: Vec<RegistryDataPacket>)
    ensures
        v@.len() == empty_registry_plan().len(),
        forall|i: int| 0 <= i < v@.len() ==> registry_follows(#[trigger] v@[i], empty_registry_plan()[i]),
{
    let mut v: Vec<RegistryDataPacket> = Vec::new();
    v.push(registry("minecraft:dimension_type", ["minecraft:overworld"].as_slice()));
    v.push(registry("minecraft:worldgen/biome", ["minecraft:plains"].as_slice()));
    v.push(registry("minecraft:dimension", ["minecraft:overworld"].as_slice()));
    v.push(registry("minecraft:timeline", ["minecraft:day"].as_slice()));
    let damage = [
        "minecraft:arrow",
        "minecraft:bad_respawn_point",
        "minecraft:cactus",
        "minecraft:campfire",
        "minecraft:cramming",
        "minecraft:dragon_breath",
        "minecraft:drown",
        "minecraft:dry_out",
        "minecraft:ender_pearl",
        "minecraft:explosion",
        "minecraft:fall",
        "minecraft:falling_anvil",
        "minecraft:falling_block",
        "minecraft:falling_stalactite",
        "minecraft:fireball",
        "minecraft:fireworks",
        "minecraft:fly_into_wall",
        "minecraft:freeze",
        "minecraft:generic",
        "minecraft:generic_kill",
        "minecraft:hot_floor",
        "minecraft:in_fire",
        "minecraft:in_wall",
        "minecraft:indirect_magic",
        "minecraft:lava",
        "minecraft:lightning_bolt",
        "minecraft:mace_smash",
        "minecraft:magic",
        "minecraft:mob_attack",
        "minecraft:mob_attack_no_aggro",
        "minecraft:mob_projectile",
        "minecraft:on_fire",
        "minecraft:out_of_world",
        "minecraft:outside_border",
        "minecraft:player_attack",
        "minecraft:player_explosion",
        "minecraft:sonic_boom",
        "minecraft:spear",
        "minecraft:spit",
        "minecraft:stalagmite",
        "minecraft:starve",
        "minecraft:sting",
        "minecraft:sweet_berry_bush",
        "minecraft:thorns",
        "minecraft:thrown",
        "minecraft:trident",
        "minecraft:unattributed_fireball",
        "minecraft:wind_charge",
        "minecraft:wither",
        "minecraft:wither_skull",
    ];
    v.push(registry("minecraft:damage_type", damage.as_slice()));
    v.push(registry("minecraft:cat_variant", ["minecraft:tabby"].as_slice()));
    v.push(registry("minecraft:chicken_variant", ["minecraft:temperate"].as_slice()));
    v.push(registry("minecraft:cow_variant", ["minecraft:temperate"].as_slice()));
    v.push(registry("minecraft:frog_variant", ["minecraft:temperate"].as_slice()));
    v.push(registry("minecraft:painting_variant", ["minecraft:kebab"].as_slice()));
    v.push(registry("minecraft:pig_variant", ["minecraft:temperate"].as_slice()));
    v.push(registry("minecraft:wolf_sound_variant", ["minecraft:classic"].as_slice()));
    v.push(registry("minecraft:wolf_variant", ["minecraft:pale"].as_slice()));
    v.push(registry("minecraft:zombie_nautilus_variant", ["minecraft:temperate"].as_slice()));
    assert(damage@.map_values(|k: &str| k@) =~= damage_type_keys());
    assert forall|i: int| 0 <= i < v@.len() implies registry_follows(#[trigger] v@[i], empty_registry_plan()[i]) by {
        if i == 4 {
            assert forall|j: int| 0 <= j < 50 implies (#[trigger] v@[4].entries@[j]).key@ == damage_type_keys()[j] by {
                assert(damage@.map_values(|k: &str| k@)[j] == damage@[j]@);
            }
        }
    }
    v
}

/// The feature flags the server enables.
pub struct FeatureFlagsPacket {
    pub features: Vec<String>,
}

impl Packet for FeatureFlagsPacket {
    const ID: i32 = 0x0C;

    /// The counted list of feature names.
    open spec fn encoded(&self) -> Seq<u8> {
        varint_bytes(crate::protocol::types::wire_len(self.features@.len())) + strings_bytes(
            self.features@,
        )
    }

    fn encode(&self, buf: &mut BytesMut) {
        let ghost start = buf_bytes(*buf);
        VarInt(self.features.len() as i32).encode(buf);
        write_strings(&self.features, buf);
        assert(buf_bytes(*buf) =~= start + self.encoded());
    }
}

/// The wire bytes of a list of VarInt ids.
pub open spec fn ids_bytes(ids: Seq<i32>) -> Seq<u8> {
    crate::protocol::wire::concat_map(ids, id_enc())
}

pub open spec fn id_enc() -> spec_fn(i32) -> Seq<u8> {
    |id: i32| varint_bytes(id as u32)
}

/// The wire bytes of a tag: its name, then its counted ids.
pub open spec fn tag_bytes(t: (String, Vec<i32>)) -> Seq<u8> {
    mc_string_bytes(t.0@) + varint_bytes(crate::protocol::types::wire_len(t.1@.len())) + ids_bytes(
        t.1@,
    )
}

pub open spec fn tag_enc() -> spec_fn((String, Vec<i32>)) -> Seq<u8> {
    |t: (String, Vec<i32>)| tag_bytes(t)
}

/// The wire bytes of a counted list of tags.
pub open spec fn tag_list_bytes(v: Seq<(String, Vec<i32>)>) -> Seq<u8> {
    varint_bytes(crate::protocol::types::wire_len(v.len())) + crate::protocol::wire::concat_map(
        v,
        tag_enc(),
    )
}

fn write_ids(ids: &Vec<i32>, buf: &mut BytesMut)
    requires
        buf_bytes(*old(buf)).len() + ids_bytes(ids@).len() <= isize::MAX,
    ensures
        buf_bytes(*final(buf)) == buf_bytes(*old(buf)) + ids_bytes(ids@),
{
    let ghost start = buf_bytes(*buf);
    let mut i: usize = 0;
    while i < ids.len()
        invariant
            i <= ids.len(),
            start == buf_bytes(*old(buf)),
            start.len() + ids_bytes(ids@).len() <= isize::MAX,
            buf_bytes(*buf) == start + crate::protocol::wire::concat_map(ids@.take(i as int), id_enc()),
        decreases ids.len() - i,
    {
        proof {
            crate::protocol::wire::lemma_concat_map_push(ids@, id_enc(), i as int);
            crate::protocol::wire::lemma_concat_map_take_len(ids@, id_enc(), i + 1);
        }
        VarInt(ids[i]).encode(buf);
        i = i + 1;
    }
    assert(ids@.take(ids.len() as int) == ids@);
}

fn write_tag(t: &(String, Vec<i32>), buf: &mut BytesMut)
    requires
        buf_bytes(*old(buf)).len() + tag_bytes(*t).len() <= isize::MAX,
    ensures
        buf_bytes(*final(buf)) == buf_bytes(*old(buf)) + tag_bytes(*t),
{
    let ghost start = buf_bytes(*buf);
    t.0.mc_write(buf);
    VarInt(t.1.len() as i32).encode(buf);
    write_ids(&t.1, buf);
    assert(buf_bytes(*buf) =~= start + tag_bytes(*t));
}

fn write_tag_list(v: &Vec<(String, Vec<i32>)>, buf: &mut BytesMut)
    requires
        buf_bytes(*old(buf)).len() + tag_list_bytes(v@).len() <= isize::MAX,
    ensures
        buf_bytes(*final(buf)) == buf_bytes(*old(buf)) + tag_list_bytes(v@),
{
    let ghost start = buf_bytes(*buf);
    VarInt(v.len() as i32).encode(buf);
    let ghost mid = buf_bytes(*buf);
    let mut i: usize = 0;
    while i < v.len()
        invariant
            i <= v.len(),
            mid.len() + crate::protocol::wire::concat_map(v@, tag_enc()).len() <= isize::MAX,
            buf_bytes(*buf) == mid + crate::protocol::wire::concat_map(v@.take(i as int), tag_enc()),
        decreases v.len() - i,
    {
        proof {
            crate::protocol::wire::lemma_concat_map_push(v@, tag_enc(), i as int);
            crate::protocol::wire::lemma_concat_map_take_len(v@, tag_enc(), i + 1);
        }
        write_tag(&v[i], buf);
        i = i + 1;
    }
    assert(v@.take(v.len() as int) == v@);
    assert(buf_bytes(*buf) =~= start + tag_list_bytes(v@));
}

/// Tags grouped by registry.
pub struct TagsPacket {
    pub tags: Vec<(String, Vec<(String, Vec<i32>)>)>,
}

/// The wire bytes of one registry's tags: the registry id, then its tags.
pub open spec fn registry_tags_bytes(r: (String, Vec<(String, Vec<i32>)>)) -> Seq<u8> {
    mc_string_bytes(r.0@) + tag_list_bytes(r.1@)
}

pub open spec fn registry_tags_enc() -> spec_fn((String, Vec<(String, Vec<i32>)>)) -> Seq<u8> {
    |r: (String, Vec<(String, Vec<i32>)>)| registry_tags_bytes(r)
}

impl Packet for TagsPacket {
    const ID: i32 = 0x0D;

    /// The counted list of registries, each with its counted tags.
    open spec fn encoded(&self) -> Seq<u8> {
        varint_bytes(crate::protocol::types::wire_len(self.tags@.len()))
            + crate::protocol::wire::concat_map(self.tags@, registry_tags_enc())
    }

    fn encode(&self, buf: &mut BytesMut) {
        let ghost start = buf_bytes(*buf);
        VarInt(self.tags.len() as i32).encode(buf);
        let ghost mid = buf_bytes(*buf);
        let mut i: usize = 0;
        while i < self.tags.len()
            invariant
                i <= self.tags.len(),
                mid.len() + crate::protocol::wire::concat_map(self.tags@, registry_tags_enc()).len()
                    <= isize::MAX,
                buf_bytes(*buf) == mid + crate::protocol::wire::concat_map(
                    self.tags@.take(i as int),
                    registry_tags_enc(),
                ),
            decreases self.tags.len() - i,
        {
            proof {
                crate::protocol::wire::lemma_concat_map_push(self.tags@, registry_tags_enc(), i as int);
                crate::protocol::wire::lemma_concat_map_take_len(
                    self.tags@,
                    registry_tags_enc(),
                    i + 1,
                );
            }
            let ghost before = buf_bytes(*buf);
            self.tags[i].0.mc_write(buf);
            write_tag_list(&self.tags[i].1, buf);
            assert(buf_bytes(*buf) =~= before + registry_tags_bytes(self.tags@[i as int]));
            i = i + 1;
        }
        assert(self.tags@.take(self.tags.len() as int) == self.tags@);
        assert(buf_bytes(*buf) =~= start + self.encoded());
    }
}

/// Tags of the play state: a counted list of tags.
pub struct UpdateTagsPacket {
    pub tags: Vec<(String, Vec<i32>)>,
}

impl Packet for UpdateTagsPacket {
    const ID: i32 = 0x84;

    open spec fn encoded(&self) -> Seq<u8> {
        tag_list_bytes(self.tags@)
    }

    fn encode(&self, buf: &mut BytesMut) {
        write_tag_list(&self.tags, buf);
    }
}

/// A data pack: namespace, id, version.
pub type PackFields = (Seq<char>, Seq<char>, Seq<char>);

/// The wire bytes of a pack: its three strings.
pub open spec fn pack_bytes(p: (String, String, String)) -> Seq<u8> {
    mc_string_bytes(p.0@) + mc_string_bytes(p.1@) + mc_string_bytes(p.2@)
}

pub open spec fn pack_enc() -> spec_fn((String, String, String)) -> Seq<u8> {
    |p: (String, String, String)| pack_bytes(p)
}

/// The three texts of each pack.
pub open spec fn packs_view(v: Seq<(String, String, String)>) -> Seq<PackFields> {
    v.map_values(|p: (String, String, String)| (p.0@, p.1@, p.2@))
}

/// The known packs the server offers.
pub struct SelectKnownPacksPacket {
    pub packs: Vec<(String, String, String)>,
}

impl Packet for SelectKnownPacksPacket {
    const ID: i32 = 0x0e;

    /// The counted list of packs.
    open spec fn encoded(&self) -> Seq<u8> {
        varint_bytes(crate::protocol::types::wire_len(self.packs@.len()))
            + crate::protocol::wire::concat_map(self.packs@, pack_enc())
    }

    fn encode(&self, buf: &mut BytesMut) {
        let ghost start = buf_bytes(*buf);
        VarInt(self.packs.len() as i32).encode(buf);
        let ghost mid = buf_bytes(*buf);
        let mut i: usize = 0;
        while i < self.packs.len()
            invariant
                i <= self.packs.len(),
                mid.len() + crate::protocol::wire::concat_map(self.packs@, pack_enc()).len() <= isize::MAX,
                buf_bytes(*buf) == mid + crate::protocol::wire::concat_map(
                    self.packs@.take(i as int),
                    pack_enc(),
                ),
            decreases self.packs.len() - i,
        {
            proof {
                crate::protocol::wire::lemma_concat_map_push(self.packs@, pack_enc(), i as int);
                crate::protocol::wire::lemma_concat_map_take_len(self.packs@, pack_enc(), i + 1);
            }
            let ghost before = buf_bytes(*buf);
            self.packs[i].0.mc_write(buf);
            self.packs[i].1.mc_write(buf);
            self.packs[i].2.mc_write(buf);
            assert(buf_bytes(*buf) =~= before + pack_bytes(self.packs@[i as int]));
            i = i + 1;
        }
        assert(self.packs@.take(self.packs.len() as int) == self.packs@);
        assert(buf_bytes(*buf) =~= start + self.encoded());
    }
}

/// The known packs the client confirms.
pub struct SelectKnownPacksServerboundPacket {
    pub packs: Vec<(String, String, String)>,
}

/// Reading one pack: three strings.
pub open spec fn read_pack(s: Seq<u8>) -> Option<(Result<PackFields, DecodeError>, Seq<u8>)> {
    match read_mc_string(s) {
        None => None,
        Some((Err(e), r)) => Some((Err(e), r)),
        Some((Ok(a), r)) => match read_mc_string(r) {
            None => None,
            Some((Err(e), r2)) => Some((Err(e), r2)),
            Some((Ok(b), r2)) => match read_mc_string(r2) {
                None => None,
                Some((Err(e), r3)) => Some((Err(e), r3)),
                Some((Ok(c), r3)) => Some((Ok((a, b, c)), r3)),
            },
        },
    }
}

/// Reading `count` more packs after the packs `acc`.
pub open spec fn read_packs(s: Seq<u8>, count: nat, acc: Seq<PackFields>) -> Option<
    (Result<Seq<PackFields>, DecodeError>, Seq<u8>),
>
    decreases count,
{
    if count == 0 {
        Some((Ok(acc), s))
    } else {
        match read_pack(s) {
            None => None,
            Some((Err(e), r)) => Some((Err(e), r)),
            Some((Ok(p), r)) => read_packs(r, (count - 1) as nat, acc.push(p)),
        }
    }
}

/// What reading the client's known packs from `s` gives: a VarInt count
/// (taken as a `usize`), then that many packs. None is the outcome where
/// the reader gives up.
pub open spec fn spec_decode_known_packs(s: Seq<u8>) -> Option<
    (Result<Seq<PackFields>, DecodeError>, Seq<u8>),
> {
    match read_varint(s) {
        VarIntRead::Overlong => None,
        VarIntRead::Incomplete => Some((Err(DecodeError::IncompleteVarInt), Seq::<u8>::empty())),
        VarIntRead::Value { value: n, len: k } => read_packs(
            s.skip(k as int),
            (n as usize) as nat,
            Seq::empty(),
        ),
    }
}

fn read_pack_core(buf: &mut BytesMut) -> (r: Option<Result<(String, String, String), DecodeError>>)
    ensures
        match read_pack(buf_bytes(*old(buf))) {
            None => r is None,
            Some((o, rest)) => buf_bytes(*final(buf)) == rest && match o {
                Ok(f) => r matches Some(Ok(p)) && (p.0@, p.1@, p.2@) == f,
                Err(e) => r matches Some(Err(e2)) && e2 == e,
            },
        },
{
    let namespace = match read_string_core(buf) {
        None => return None,
        Some(Err(e)) => return Some(Err(e)),
        Some(Ok(t)) => t,
    };
    let id = match read_string_core(buf) {
        None => return None,
        Some(Err(e)) => return Some(Err(e)),
        Some(Ok(t)) => t,
    };
    let version = match read_string_core(buf) {
        None => return None,
        Some(Err(e)) => return Some(Err(e)),
        Some(Ok(t)) => t,
    };
    Some(Ok((namespace, id, version)))
}

impl SelectKnownPacksServerboundPacket {
    /// Whether `r` is the result that the outcome `o` describes.
    pub open spec fn decoded(r: Result<Self, DecodeError>, o: Result<Seq<PackFields>, DecodeError>) -> bool {
        match o {
            Ok(f) => r matches Ok(p) && packs_view(p.packs@) == f,
            Err(e) => r matches Err(e2) && e2 == e,
        }
    }

    fn decode_core(buf: &mut BytesMut) -> (r: Option<Result<Self, DecodeError>>)
        ensures
            match spec_decode_known_packs(buf_bytes(*old(buf))) {
                None => r is None,
                Some((o, rest)) => r matches Some(res) && Self::decoded(res, o)
                    && buf_bytes(*final(buf)) == rest,
            },
    {
        let n = match VarInt::decode_core(buf) {
            None => return None,
            Some(Err(e)) => return Some(Err(e)),
            Some(Ok(v)) => v,
        };
        let count = n as usize;
        let ghost after = buf_bytes(*buf);
        let mut packs: Vec<(String, String, String)> = Vec::new();
        assert(packs_view(packs@) =~= Seq::<PackFields>::empty());
        assert(spec_decode_known_packs(buf_bytes(*old(buf))) == read_packs(after, count as nat, Seq::empty()));
        let mut i: usize = 0;
        while i < count
            invariant
                i <= count,
                spec_decode_known_packs(buf_bytes(*old(buf))) == read_packs(after, count as nat, Seq::empty()),
                read_packs(after, count as nat, Seq::empty()) == read_packs(
                    buf_bytes(*buf),
                    (count - i) as nat,
                    packs_view(packs@),
                ),
            decreases count - i,
        {
            let ghost before = buf_bytes(*buf);
            let ghost pv = packs_view(packs@);
            match read_pack_core(buf) {
                None => return None,
                Some(Err(e)) => return Some(Err(e)),
                Some(Ok(p)) => {
                    packs.push(p);
                    assert(packs_view(packs@) =~= pv.push((p.0@, p.1@, p.2@)));
                },
            }
            i = i + 1;
        }
        Some(Ok(Self { packs }))
    }

    /// Reads the client's known packs as `spec_decode_known_packs` says, or
    /// gives None, with the buffer as it was, where the reader gives up.
    pub fn try_decode(buf: &mut BytesMut) -> (r: Option<Result<Self, DecodeError>>)
        ensures
            match spec_decode_known_packs(buf_bytes(*old(buf))) {
                None => r is None && buf_bytes(*final(buf)) == buf_bytes(*old(buf)),
                Some((o, rest)) => r matches Some(res) && Self::decoded(res, o)
                    && buf_bytes(*final(buf)) == rest,
            },
    {
        let mut work = buf.clone();
        let r = Self::decode_core(&mut work);
        if r.is_some() {
            *buf = work;
        }
        r
    }

    /// Reads the client's known packs, as `spec_decode_known_packs` says.
    pub fn decode(buf: &mut BytesMut) -> (r: Result<Self, DecodeError>)
        requires
            spec_decode_known_packs(buf_bytes(*old(buf))) is Some,
        ensures
            spec_decode_known_packs(buf_bytes(*old(buf))) matches Some((o, rest)) && Self::decoded(r, o)
                && buf_bytes(*final(buf)) == rest,
    {
        match Self::decode_core(buf) {
            Some(r) => r,
            None => {
                proof {
                    assert(false);
                }
                Err(DecodeError::IncompleteVarInt)
            },
        }
    }
}

/// Every text of every pack is at most `i32::MAX` bytes long in UTF-8.
pub open spec fn packs_fit(v: Seq<(String, String, String)>) -> bool {
    forall|i: int|
        0 <= i < v.len() ==> encode_utf8((#[trigger] v[i]).0@).len() <= i32::MAX && encode_utf8(
            v[i].1@,
        ).len() <= i32::MAX && encode_utf8(v[i].2@).len() <= i32::MAX
}

proof fn lemma_read_pack_roundtrip(p: (String, String, String), rest: Seq<u8>)
    requires
        encode_utf8(p.0@).len() <= i32::MAX,
        encode_utf8(p.1@).len() <= i32::MAX,
        encode_utf8(p.2@).len() <= i32::MAX,
    ensures
        read_pack(pack_bytes(p) + rest) == Some(
            (Ok::<PackFields, DecodeError>((p.0@, p.1@, p.2@)), rest),
        ),
{
    let a = mc_string_bytes(p.0@);
    let b = mc_string_bytes(p.1@);
    let c = mc_string_bytes(p.2@);
    assert(pack_bytes(p) + rest == a + (b + (c + rest)));
    lemma_mc_string_roundtrip(p.0@, b + (c + rest));
    lemma_mc_string_roundtrip(p.1@, c + rest);
    lemma_mc_string_roundtrip(p.2@, rest);
}

proof fn lemma_read_packs_roundtrip(v: Seq<(String, String, String)>, j: int, rest: Seq<u8>)
    requires
        0 <= j <= v.len(),
        packs_fit(v),
    ensures
        read_packs(
            crate::protocol::wire::concat_map(v.skip(j), pack_enc()) + rest,
            (v.len() - j) as nat,
            packs_view(v.take(j)),
        ) == Some((Ok::<Seq<PackFields>, DecodeError>(packs_view(v)), rest)),
    decreases v.len() - j,
{
    if j == v.len() {
        assert(v.skip(j).len() == 0);
        assert(crate::protocol::wire::concat_map(v.skip(j), pack_enc()) + rest == rest);
        assert(v.take(j) == v);
    } else {
        let t = v.skip(j);
        crate::protocol::wire::lemma_concat_map_first(t, pack_enc());
        assert(t.drop_first() == v.skip(j + 1));
        assert(t[0] == v[j]);
        let tail = crate::protocol::wire::concat_map(v.skip(j + 1), pack_enc()) + rest;
        assert(crate::protocol::wire::concat_map(t, pack_enc()) + rest == pack_bytes(v[j]) + tail);
        lemma_read_pack_roundtrip(v[j], tail);
        assert(packs_view(v.take(j)).push((v[j].0@, v[j].1@, v[j].2@)) =~= packs_view(v.take(j + 1)));
        lemma_read_packs_roundtrip(v, j + 1, rest);
    }
}

/// The packs that the server offers, read back as the client's answer, are
/// the same packs, and whatever follows is left: this holds where there
/// are at most `i32::MAX` packs and each text is at most `i32::MAX` bytes
/// long in UTF-8.
pub proof fn lemma_known_packs_roundtrip(p: SelectKnownPacksPacket, rest: Seq<u8>)
    requires
        p.packs@.len() <= i32::MAX,
        packs_fit(p.packs@),
    ensures
        spec_decode_known_packs(p.encoded() + rest) == Some(
            (Ok::<Seq<PackFields>, DecodeError>(packs_view(p.packs@)), rest),
        ),
{
    let v = p.packs@;
    let n: i32 = (v.len() as usize) as i32;
    let body = crate::protocol::wire::concat_map(v, pack_enc());
    assert(p.encoded() + rest == varint_bytes(n as u32) + (body + rest));
    lemma_varint_roundtrip(n, body + rest);
    let k = varint_bytes(n as u32).len();
    assert((p.encoded() + rest).skip(k as int) == body + rest);
    assert(n == v.len());
    assert(((n as usize) as nat) == v.len());
    assert(v.skip(0) == v);
    assert(packs_view(v.take(0)) =~= Seq::<PackFields>::empty());
    lemma_read_packs_roundtrip(v, 0, rest);
}

/// The client's known-packs answer, as it comes on the wire with one pack:
/// the count 1, then the namespace, the id and the version as
/// length-prefixed strings. It is read as that one pack, namespace first,
/// and whatever follows is left (texts of at most `i32::MAX` UTF-8 bytes).
pub proof fn lemma_known_packs_wire_layout(
    namespace: Seq<char>,
    id: Seq<char>,
    version: Seq<char>,
    rest: Seq<u8>,
)
    requires
        encode_utf8(namespace).len() <= i32::MAX,
        encode_utf8(id).len() <= i32::MAX,
        encode_utf8(version).len() <= i32::MAX,
    ensures
        spec_decode_known_packs(
            varint_bytes(1) + mc_string_bytes(namespace) + mc_string_bytes(id) + mc_string_bytes(version)
                + rest,
        ) == Some((Ok::<Seq<PackFields>, DecodeError>(seq![(namespace, id, version)]), rest)),
{
    let c = mc_string_bytes(version) + rest;
    let b = mc_string_bytes(id) + c;
    let a = mc_string_bytes(namespace) + b;
    let s = varint_bytes(1) + mc_string_bytes(namespace) + mc_string_bytes(id) + mc_string_bytes(version)
        + rest;
    assert(s == varint_bytes(1) + a);
    lemma_varint_roundtrip(1, a);
    assert(s.skip(varint_bytes(1).len() as int) == a);
    lemma_mc_string_roundtrip(namespace, b);
    lemma_mc_string_roundtrip(id, c);
    lemma_mc_string_roundtrip(version, rest);
    assert(read_pack(a) == Some((Ok::<PackFields, DecodeError>((namespace, id, version)), rest)));
    let one = seq![(namespace, id, version)];
    assert(Seq::<PackFields>::empty().push((namespace, id, version)) == one);
    assert(read_packs(rest, 0, one) == Some((Ok::<Seq<PackFields>, DecodeError>(one), rest)));
    assert(read_packs(a, 1, Seq::empty()) == read_packs(rest, 0, one));
    assert(((1i32 as usize) as nat) == 1);
}

/// The server's offer of one pack goes on the wire as the count 1, then
/// the namespace, the id and the version as length-prefixed strings.
pub proof fn lemma_known_packs_offer_layout(p: SelectKnownPacksPacket)
    requires
        p.packs@.len() == 1,
    ensures
        p.encoded() == varint_bytes(1) + mc_string_bytes(p.packs@[0].0@) + mc_string_bytes(
            p.packs@[0].1@,
        ) + mc_string_bytes(p.packs@[0].2@),
{
    let v = p.packs@;
    assert(crate::protocol::types::wire_len(1) == 1u32);
    assert(v.drop_last().len() == 0);
    assert(crate::protocol::wire::concat_map(v.drop_last(), pack_enc()) == Seq::<u8>::empty());
    assert(crate::protocol::wire::concat_map(v, pack_enc()) == pack_bytes(v[0]));
    assert(p.encoded() =~= varint_bytes(1) + mc_string_bytes(v[0].0@) + mc_string_bytes(v[0].1@)
        + mc_string_bytes(v[0].2@));
}

// =============================================================================
// PLAY: chunk columns
// =============================================================================
/// A chunk column with its heightmap and section data, no block entities
/// and full-bright light masks.
pub struct MapChunkPacket {
    pub x: i32,
    pub z: i32,
    pub motion_blocking_heightmap: Vec<i64>,
    pub chunk_data: Vec<u8>,
}

/// The wire bytes of a list of longs, one after another.
pub open spec fn longs_bytes(v: Seq<i64>) -> Seq<u8> {
    crate::protocol::wire::concat_map(v, long_enc())
}

pub open spec fn long_enc() -> spec_fn(i64) -> Seq<u8> {
    |l: i64| be_u64(l as u64)
}

impl MapChunkPacket {
    /// Position, then one heightmap (type 4, motion blocking) of counted
    /// longs.
    pub open spec fn head_bytes(&self) -> Seq<u8> {
        be_u32(self.x as u32) + be_u32(self.z as u32) + varint_bytes(1) + varint_bytes(4)
            + varint_bytes(crate::protocol::types::wire_len(self.motion_blocking_heightmap@.len()))
            + longs_bytes(self.motion_blocking_heightmap@)
    }

    /// The counted section data.
    pub open spec fn data_bytes(&self) -> Seq<u8> {
        varint_bytes(crate::protocol::types::wire_len(self.chunk_data@.len())) + self.chunk_data@
    }

    /// No block entities, empty sky and block light masks, one long of
    /// empty-sky and empty-block mask bits each, and no light arrays.
    pub open spec fn light_bytes() -> Seq<u8> {
        varint_bytes(0) + varint_bytes(0) + varint_bytes(0) + varint_bytes(1) + be_u64(
            0x3FFFFFF,
        ) + varint_bytes(1) + be_u64(0x3FFFFFF) + varint_bytes(0) + varint_bytes(0)
    }

    fn encode_head(&self, buf: &mut BytesMut)
        requires
            buf_bytes(*old(buf)).len() + self.head_bytes().len() <= isize::MAX,
        ensures
            buf_bytes(*final(buf)) == buf_bytes(*old(buf)) + self.head_bytes(),
    {
        let ghost start = buf_bytes(*buf);
        put_i32(buf, self.x);
        put_i32(buf, self.z);
        VarInt(1).encode(buf);
        VarInt(4).encode(buf);
        VarInt(self.motion_blocking_heightmap.len() as i32).encode(buf);
        let ghost mid = buf_bytes(*buf);
        let v = &self.motion_blocking_heightmap;
        let mut i: usize = 0;
        while i < v.len()
            invariant
                i <= v.len(),
                mid.len() + longs_bytes(v@).len() <= isize::MAX,
                buf_bytes(*buf) == mid + crate::protocol::wire::concat_map(v@.take(i as int), long_enc()),
            decreases v.len() - i,
        {
            proof {
                crate::protocol::wire::lemma_concat_map_push(v@, long_enc(), i as int);
                crate::protocol::wire::lemma_concat_map_take_len(v@, long_enc(), i + 1);
            }
            put_i64(buf, v[i]);
            i = i + 1;
        }
        assert(v@.take(v.len() as int) == v@);
        assert(buf_bytes(*buf) =~= start + self.head_bytes());
    }

    fn encode_light(buf: &mut BytesMut)
        requires
            buf_bytes(*old(buf)).len() + Self::light_bytes().len() <= isize::MAX,
        ensures
            buf_bytes(*final(buf)) == buf_bytes(*old(buf)) + Self::light_bytes(),
    {
        let ghost start = buf_bytes(*buf);
        VarInt(0).encode(buf);
        VarInt(0).encode(buf);
        VarInt(0).encode(buf);
        VarInt(1).encode(buf);
        put_i64(buf, 0x3FFFFFF);
        VarInt(1).encode(buf);
        put_i64(buf, 0x3FFFFFF);
        VarInt(0).encode(buf);
        VarInt(0).encode(buf);
        assert(buf_bytes(*buf) =~= start + Self::light_bytes());
    }
}

impl Packet for MapChunkPacket {
    const ID: i32 = 0x2C;

    open spec fn encoded(&self) -> Seq<u8> {
        self.head_bytes() + self.data_bytes() + Self::light_bytes()
    }

    fn encode(&self, buf: &mut BytesMut) {
        let ghost start = buf_bytes(*buf);
        self.encode_head(buf);
        VarInt(self.chunk_data.len() as i32).encode(buf);
        put_slice(buf, self.chunk_data.as_slice());
        Self::encode_light(buf);
        assert(buf_bytes(*buf) =~= start + self.encoded());
    }
}

} // verus!
