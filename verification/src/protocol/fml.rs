//! A login plugin message that wraps another packet for a Forge channel.
use crate::buf::{buf_bytes, put_slice};
use crate::protocol::packet::Packet;
use crate::protocol::types::{mc_string_bytes, McWrite};
use crate::protocol::varint::{varint_bytes, VarInt};
use bytes::BytesMut;
use vstd::prelude::*;

verus! {

/// A packet for a Forge (FML) login channel: the channel, the id of the
/// wrapped packet, and its bytes.
pub struct FmlLoginWrapper {
    pub channel: String,
    pub inner_packet_id: i32,
    pub data: Vec<u8>,
}

impl Packet for FmlLoginWrapper {
    const ID: i32 = 0x02;

    open spec fn encoded(&self) -> Seq<u8> {
        mc_string_bytes(self.channel@) + varint_bytes(self.inner_packet_id as u32) + self.data@
    }

    fn encode(&self, buf: &mut BytesMut) {
        let ghost start = buf_bytes(*buf);
        self.channel.mc_write(buf);
        VarInt(self.inner_packet_id).encode(buf);
        put_slice(buf, self.data.as_slice());
        assert(buf_bytes(*buf) =~= start + self.encoded());
    }
}

} // verus!
