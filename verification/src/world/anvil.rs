//! Chunk sections in the palette form of saved worlds, and their network
//! encoding.
use crate::buf::{be_u16, be_u64, buf_bytes, put_u64, put_u8};
use crate::protocol::packets::{strings_bytes, write_strings};
use crate::protocol::types::{wire_len, McWrite};
use crate::protocol::varint::{varint_bytes, VarInt};
use crate::protocol::wire::{concat_map, lemma_concat_map_push, lemma_concat_map_take_len};
use bytes::BytesMut;
use vstd::prelude::*;

verus! {

/// A section as saved worlds hold it: the number of non-air blocks, the
/// palette of block names, and the packed palette indices.
pub struct ChunkSection {
    pub block_count: i16,
    pub palette: Vec<String>,
    pub data: Vec<u64>,
}

/// The big-endian bytes of each long, one after another.
pub open spec fn u64s_bytes(v: Seq<u64>) -> Seq<u8> {
    concat_map(v, u64_enc())
}

pub open spec fn u64_enc() -> spec_fn(u64) -> Seq<u8> {
    |l: u64| be_u64(l)
}

/// The bits per palette index: `palette_bits`, but at least four.
pub open spec fn bits_per_entry(palette_bits: u8) -> u8 {
    if palette_bits < 4 {
        4
    } else {
        palette_bits
    }
}

/// The network form of the block states: a single-valued container (with
/// the fixed block state 102 and no data) where the palette has one entry,
/// else the bits per entry, the counted palette names and the counted
/// longs; then a single-valued biome container (plains).
pub open spec fn anvil_section_bytes(s: ChunkSection, palette_bits: u8) -> Seq<u8> {
    be_u16(s.block_count as u16) + (if s.palette@.len() == 1 {
        seq![0u8] + varint_bytes(102) + varint_bytes(0)
    } else {
        seq![bits_per_entry(palette_bits)] + varint_bytes(wire_len(s.palette@.len()))
            + strings_bytes(s.palette@) + varint_bytes(wire_len(s.data@.len())) + u64s_bytes(
            s.data@,
        )
    }) + seq![0u8] + varint_bytes(1) + varint_bytes(0)
}

fn write_u64s(v: &Vec<u64>, buf: &mut BytesMut)
    requires
        buf_bytes(*old(buf)).len() + u64s_bytes(v@).len() <= isize::MAX,
    ensures
        buf_bytes(*final(buf)) == buf_bytes(*old(buf)) + u64s_bytes(v@),
{
    let ghost start = buf_bytes(*buf);
    let mut j: usize = 0;
    while j < v.len()
        invariant
            j <= v@.len(),
            start == buf_bytes(*old(buf)),
            start.len() + u64s_bytes(v@).len() <= isize::MAX,
            buf_bytes(*buf) == start + concat_map(v@.take(j as int), u64_enc()),
        decreases v@.len() - j,
    {
        proof {
            lemma_concat_map_push(v@, u64_enc(), j as int);
            lemma_concat_map_take_len(v@, u64_enc(), j + 1);
        }
        put_u64(buf, v[j]);
        j = j + 1;
    }
    assert(v@.take(v@.len() as int) == v@);
}

impl ChunkSection {
    /// Appends the network form of the section (`anvil_section_bytes`).
    /// `palette_bits` is the rounded-up base-2 logarithm of the palette size,
    /// which the caller computes; it is used only when the palette does not
    /// have exactly one entry.
    pub fn encode_with_palette_bits(&self, palette_bits: u8, buf: &mut BytesMut)
        requires
            buf_bytes(*old(buf)).len() + anvil_section_bytes(*self, palette_bits).len() <= isize::MAX,
        ensures
            buf_bytes(*final(buf)) == buf_bytes(*old(buf)) + anvil_section_bytes(*self, palette_bits),
    {
        let ghost start = buf_bytes(*buf);
        self.block_count.mc_write(buf);
        if self.palette.len() == 1 {
            put_u8(buf, 0);
            VarInt(102).encode(buf);
            VarInt(0).encode(buf);
        } else {
            let bpe = if palette_bits < 4 { 4 } else { palette_bits };
            put_u8(buf, bpe);
            VarInt(self.palette.len() as i32).encode(buf);
            let ghost mid = buf_bytes(*buf);
            proof {
                crate::protocol::varint::lemma_varint_roundtrip(wire_len(self.data@.len()) as i32, Seq::empty());
            }
            write_strings(&self.palette, buf);
            VarInt(self.data.len() as i32).encode(buf);
            write_u64s(&self.data, buf);
        }
        put_u8(buf, 0);
        VarInt(1).encode(buf);
        VarInt(0).encode(buf);
        assert(buf_bytes(*buf) =~= start + anvil_section_bytes(*self, palette_bits));
    }
}

} // verus!
