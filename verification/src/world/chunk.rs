//! Chunk columns of block states, and their encoding for the client.
use crate::buf::{be_u16, be_u32, be_u64, buf_as_slice, buf_bytes, put_i16, put_i64, put_u8};
use crate::protocol::packets::longs_bytes;
use crate::protocol::varint::{read_varint, varint_bytes, VarInt, VarIntRead};
use crate::protocol::types::u16_from_be;
use crate::protocol::wire::{concat_map, lemma_concat_map_push, lemma_concat_map_take_len};
use bytes::BytesMut;
use vstd::prelude::*;

verus! {

/// The number of sections in a column.
pub const CHUNK_SECTIONS: usize = 24;

/// The lowest block y of a column.
pub const MIN_Y: i32 = -64;

/// A 16x16x16 section of block states, indexed by `(y << 8) | (z << 4) | x`.
#[derive(Clone)]
pub struct ChunkSection {
    pub block_states: Vec<u16>,
}

/// The number of states in `s` that are not air (zero).
pub open spec fn count_non_air(s: Seq<u16>) -> nat
    decreases s.len(),
{
    if s.len() == 0 {
        0
    } else {
        count_non_air(s.drop_last()) + if s.last() != 0 {
            1nat
        } else {
            0nat
        }
    }
}

/// `n` bytes of zero.
pub open spec fn zero_bytes(n: nat) -> Seq<u8> {
    Seq::new(n, |i: int| 0u8)
}

/// The network form of a section: the non-air count, a block palette of one
/// entry (the first state) with 256 zero longs of 4-bit data, and a biome
/// palette of one entry (plains) with one zero long.
pub open spec fn section_bytes(s: ChunkSection) -> Seq<u8> {
    section_states_bytes(s.block_states@)
}

/// The network form of a section with the block states `st`.
pub open spec fn section_states_bytes(st: Seq<u16>) -> Seq<u8> {
    be_u16((count_non_air(st) as i16) as u16) + seq![4u8] + varint_bytes(1) + varint_bytes(
        (st[0] as i32) as u32,
    ) + varint_bytes(256) + zero_bytes(2048) + seq![1u8] + varint_bytes(1) + varint_bytes(0)
        + varint_bytes(1) + zero_bytes(8)
}

/// A section's network form takes at most 2100 bytes.
pub proof fn lemma_section_states_bytes_len(st: Seq<u16>)
    ensures
        section_states_bytes(st).len() <= 2100,
{
    crate::protocol::varint::lemma_varint_roundtrip((st[0] as i32), Seq::<u8>::empty());
    crate::protocol::varint::lemma_varint_roundtrip(0, Seq::<u8>::empty());
    crate::protocol::varint::lemma_varint_roundtrip(1, Seq::<u8>::empty());
    crate::protocol::varint::lemma_varint_roundtrip(256, Seq::<u8>::empty());
}

/// The network form of a section, read field by field: the block count
/// (big-endian) is the number of states that are not air, then 4 bits per
/// entry, a palette of length 1, and that single palette entry is the
/// section's first state.
pub proof fn lemma_section_palette_is_first_state(st: Seq<u16>)
    requires
        st.len() > 0,
    ensures
        section_states_bytes(st).len() > 4,
        u16_from_be(section_states_bytes(st).take(2)) == (count_non_air(st) as i16) as u16,
        section_states_bytes(st)[2] == 4,
        read_varint(section_states_bytes(st).skip(3)) == (VarIntRead::Value { value: 1, len: 1 }),
        read_varint(section_states_bytes(st).skip(4)) matches VarIntRead::Value { value: v, .. } && v
            == st[0] as i32,
{
    let b = section_states_bytes(st);
    let first = (st[0] as i32);
    let after = varint_bytes(256) + zero_bytes(2048) + seq![1u8] + varint_bytes(1) + varint_bytes(0)
        + varint_bytes(1) + zero_bytes(8);
    let count = (count_non_air(st) as i16) as u16;
    assert(b == be_u16(count) + (seq![4u8] + (varint_bytes(1) + (varint_bytes(first as u32) + after))));
    crate::protocol::varint::lemma_varint_roundtrip(1, varint_bytes(first as u32) + after);
    assert(varint_bytes(1) == seq![1u8]);
    crate::protocol::varint::lemma_varint_roundtrip(first, after);
    assert(b.take(2) == be_u16(count));
    crate::protocol::types::lemma_be_roundtrip(count, 0, 0);
    assert(b.skip(3) == varint_bytes(1) + (varint_bytes(first as u32) + after));
    assert(b.skip(4) == varint_bytes(first as u32) + after);
}

proof fn lemma_be_u64_zero()
    ensures
        be_u64(0) == zero_bytes(8),
{
    assert((0u64 >> 56u64) as u8 == 0 && (0u64 >> 48u64) as u8 == 0 && (0u64 >> 40u64) as u8 == 0
        && (0u64 >> 32u64) as u8 == 0 && (0u64 >> 24u64) as u8 == 0 && (0u64 >> 16u64) as u8 == 0
        && (0u64 >> 8u64) as u8 == 0 && 0u64 as u8 == 0) by (bit_vector);
    assert(be_u64(0) =~= zero_bytes(8));
}

impl ChunkSection {
    /// A section of air: 4096 zero states.
    pub fn new_air() -> (s: Self)
        ensures
            s.block_states@ == Seq::new(4096, |i: int| 0u16),
    {
        let block_states = vec![0u16; 4096];
        assert(block_states@ =~= Seq::new(4096, |i: int| 0u16));
        Self { block_states }
    }

    /// A section whose 4096 states are all `block_id`.
    pub fn new_filled(block_id: u16) -> (s: Self)
        ensures
            s.block_states@ == Seq::new(4096, |i: int| block_id),
    {
        let block_states = vec![block_id; 4096];
        assert(block_states@ =~= Seq::new(4096, |i: int| block_id));
        Self { block_states }
    }

    /// Whether every state equals the first one.
    fn is_single_valued(&self) -> (r: bool)
        requires
            self.block_states@.len() > 0,
        ensures
            r == (forall|i: int|
                0 <= i < self.block_states@.len() ==> #[trigger] self.block_states@[i] == self.block_states@[0]),
    {
        let first = self.block_states[0];
        let mut i: usize = 0;
        while i < self.block_states.len()
            invariant
                i <= self.block_states@.len(),
                first == self.block_states@[0],
                forall|j: int| 0 <= j < i ==> #[trigger] self.block_states@[j] == first,
            decreases self.block_states@.len() - i,
        {
            if self.block_states[i] != first {
                return false;
            }
            i = i + 1;
        }
        true
    }

    /// The number of non-air states, as an `i16`.
    fn non_air_count(&self) -> (n: i16)
        ensures
            n == count_non_air(self.block_states@) as i16,
    {
        let mut count: usize = 0;
        let mut i: usize = 0;
        while i < self.block_states.len()
            invariant
                i <= self.block_states@.len(),
                count == count_non_air(self.block_states@.take(i as int)),
                count <= i,
            decreases self.block_states@.len() - i,
        {
            assert(self.block_states@.take(i + 1).drop_last() == self.block_states@.take(i as int));
            if self.block_states[i] != 0 {
                count = count + 1;
            }
            i = i + 1;
        }
        assert(self.block_states@.take(i as int) == self.block_states@);
        count as i16
    }

    /// Appends the network form of the section (see `section_bytes`).
    pub fn encode_to_network(&self, buf: &mut BytesMut)
        requires
            self.block_states@.len() > 0,
            buf_bytes(*old(buf)).len() + section_bytes(*self).len() <= isize::MAX,
        ensures
            buf_bytes(*final(buf)) == buf_bytes(*old(buf)) + section_bytes(*self),
    {
        let ghost start = buf_bytes(*buf);
        put_i16(buf, self.non_air_count());
        let block_id = self.block_states[0] as i32;
        put_u8(buf, 4);
        VarInt(1).encode(buf);
        VarInt(block_id).encode(buf);
        VarInt(256).encode(buf);
        let ghost mid = buf_bytes(*buf);
        proof {
            lemma_be_u64_zero();
        }
        let mut k: usize = 0;
        while k < 256
            invariant
                k <= 256,
                mid.len() + 2048 + 1 + 1 + 1 + 1 + 8 <= isize::MAX,
                buf_bytes(*buf) == mid + zero_bytes((8 * k) as nat),
                be_u64(0) == zero_bytes(8),
            decreases 256 - k,
        {
            put_i64(buf, 0);
            assert(zero_bytes((8 * k) as nat) + zero_bytes(8) =~= zero_bytes((8 * (k + 1)) as nat));
            k = k + 1;
        }
        put_u8(buf, 1);
        VarInt(1).encode(buf);
        VarInt(0).encode(buf);
        VarInt(1).encode(buf);
        put_i64(buf, 0);
        assert(buf_bytes(*buf) =~= start + section_bytes(*self));
    }
}

/// The heightmap long that holds `c` (at most seven) 9-bit entries `m`,
/// the first in the lowest bits.
pub open spec fn packed_heights(m: i64, c: int) -> i64 {
    if c <= 0 {
        0
    } else if c == 1 {
        m
    } else if c == 2 {
        m | (m << 9u64)
    } else if c == 3 {
        m | (m << 9u64) | (m << 18u64)
    } else if c == 4 {
        m | (m << 9u64) | (m << 18u64) | (m << 27u64)
    } else if c == 5 {
        m | (m << 9u64) | (m << 18u64) | (m << 27u64) | (m << 36u64)
    } else if c == 6 {
        m | (m << 9u64) | (m << 18u64) | (m << 27u64) | (m << 36u64) | (m << 45u64)
    } else {
        m | (m << 9u64) | (m << 18u64) | (m << 27u64) | (m << 36u64) | (m << 45u64) | (m << 54u64)
    }
}

proof fn lemma_packed_step(m: i64, c: int)
    requires
        0 <= c < 7,
    ensures
        packed_heights(m, c + 1) == packed_heights(m, c) | (m << ((9 * c) as u64)),
{
    if c == 0 {
        assert(0i64 | (m << 0u64) == m) by (bit_vector);
    } else if c == 1 {
        assert((9 * c) as u64 == 9u64);
    } else if c == 2 {
        assert((9 * c) as u64 == 18u64);
    } else if c == 3 {
        assert((9 * c) as u64 == 27u64);
    } else if c == 4 {
        assert((9 * c) as u64 == 36u64);
    } else if c == 5 {
        assert((9 * c) as u64 == 45u64);
    } else {
        assert((9 * c) as u64 == 54u64);
    }
}

/// The heightmap value of a column whose top block is at `top_y`.
pub open spec fn height_value(top_y: i32) -> i64 {
    (top_y - MIN_Y + 1) as i64
}

/// The number of entries of long `j` after the first `i` of the 256
/// entries are written, seven to a long.
pub open spec fn entries_in_long(i: int, j: int) -> int {
    if i - 7 * j <= 0 {
        0
    } else if i - 7 * j >= 7 {
        7
    } else {
        i - 7 * j
    }
}

/// The 37 longs of a flat heightmap: 256 entries of nine bits, seven to a
/// long, each the low nine bits of the height value.
pub open spec fn flat_heightmap(top_y: i32) -> Seq<i64> {
    Seq::new(37, |j: int| packed_heights(height_value(top_y) & 511, entries_in_long(256, j)))
}

/// The heightmap of a column that is flat with its top block at `top_y`.
pub fn build_flat_heightmap(top_y: i32) -> (longs: Vec<i64>)
    requires
        top_y <= i32::MAX - 65,
    ensures
        longs@ == flat_heightmap(top_y),
{
    let height_value: i64 = (top_y - (-64) + 1) as i64;
    let bits_per_entry = 9usize;
    let entries_per_long = 64 / bits_per_entry;
    let total_longs = (256 + entries_per_long - 1) / entries_per_long;
    let mut longs = vec![0i64; total_longs];
    let m = height_value & 511;
    assert(0 <= m < 512) by (bit_vector)
        requires
            m == height_value & 511,
    ;
    assert(longs@ =~= Seq::new(37, |j: int| packed_heights(m, entries_in_long(0, j))));
    let mut i: usize = 0;
    while i < 256
        invariant
            i <= 256,
            entries_per_long == 7,
            bits_per_entry == 9,
            0 <= m < 512,
            m == height_value & 511,
            longs@ == Seq::new(37, |j: int| packed_heights(m, entries_in_long(i as int, j))),
        decreases 256 - i,
    {
        let long_idx = i / entries_per_long;
        let bit_idx = (i % entries_per_long) * bits_per_entry;
        let ghost c = (i % 7) as int;
        assert(m << (bit_idx as u64) == m << ((9 * c) as u64));
        assert((1i64 << bits_per_entry) == 512) by (bit_vector)
            requires
                bits_per_entry == 9,
        ;
        let entry = (height_value & ((1 << bits_per_entry) - 1)) << bit_idx;
        assert(entry == m << (bit_idx as u64));
        let cur = longs[long_idx];
        proof {
            assert(i == 7 * long_idx + c);
            assert(entries_in_long(i as int, long_idx as int) == c);
            assert(entries_in_long(i + 1, long_idx as int) == c + 1);
            lemma_packed_step(m, c);
            assert(bit_idx == 9 * c);
        }
        longs.set(long_idx, cur | entry);
        assert(longs@ =~= Seq::new(37, |j: int| packed_heights(m, entries_in_long(i + 1, j))));
        i = i + 1;
    }
    longs
}

proof fn lemma_packed_fields(m: i64, k: u64)
    requires
        0 <= m < 512,
        k < 7,
    ensures
        ((packed_heights(m, 7) >> (9 * k)) & 511) == m,
        k < 4 ==> ((packed_heights(m, 4) >> (9 * k)) & 511) == m,
{
    let p7 = m | (m << 9u64) | (m << 18u64) | (m << 27u64) | (m << 36u64) | (m << 45u64) | (m
        << 54u64);
    let p4 = m | (m << 9u64) | (m << 18u64) | (m << 27u64);
    assert(((p7 >> (9 * k)) & 511) == m) by (bit_vector)
        requires
            0 <= m < 512,
            k < 7,
            p7 == m | (m << 9u64) | (m << 18u64) | (m << 27u64) | (m << 36u64) | (m << 45u64) | (m
                << 54u64),
    ;
    assert(k < 4 ==> ((p4 >> (9 * k)) & 511) == m) by (bit_vector)
        requires
            0 <= m < 512,
            p4 == m | (m << 9u64) | (m << 18u64) | (m << 27u64),
    ;
}

/// Every one of the 256 nine-bit entries of a flat heightmap, read from its
/// long (the `i / 7`-th) at bit `9 * (i % 7)`, is the low nine bits of the
/// height value.
pub proof fn lemma_flat_heightmap_entries(top_y: i32, i: int)
    requires
        0 <= i < 256,
    ensures
        ((flat_heightmap(top_y)[i / 7] >> ((9 * (i % 7)) as u64)) & 511) == height_value(top_y) & 511,
{
    let h = height_value(top_y);
    let m = h & 511;
    assert(0 <= m < 512) by (bit_vector)
        requires
            m == h & 511,
    ;
    let k = (i % 7) as u64;
    lemma_packed_fields(m, k);
    assert((9 * (i % 7)) as u64 == 9 * k);
}

/// A column of sections at chunk position (x, z).
#[derive(Clone)]
pub struct ChunkColumn {
    pub x: i32,
    pub z: i32,
    pub sections: Vec<ChunkSection>,
}

/// The index within a section of the block at local (x, y, z).
pub open spec fn block_index(local_y: usize, bx: u8, bz: u8) -> usize {
    ((local_y << 8usize) | ((bz as usize) << 4usize) | (bx as usize)) as usize
}

/// Where `set_block` puts a block: the section and the index in it, or
/// None where y lies below the column by a whole section or more. A y
/// less than a section below the column lands in section 0 with a negative
/// local y, which no index can hold.
pub open spec fn block_slot(y: i32, bx: u8, bz: u8) -> Option<(int, usize)> {
    let d = y - MIN_Y;
    if d >= 0 {
        Some((d / 16, block_index((d % 16) as usize, bx, bz)))
    } else {
        None
    }
}

/// Whether `set_block` can store a block at y (`bx`, `bz`) in `c` without
/// an index out of bounds or an overflow.
pub open spec fn set_block_in_bounds(c: ChunkColumn, y: i32, bx: u8, bz: u8) -> bool {
    &&& y <= i32::MAX + MIN_Y
    &&& (-16 < y - MIN_Y < 0 ==> c.sections@.len() == 0)
    &&& match block_slot(y, bx, bz) {
        Some((s, idx)) => s < c.sections@.len() ==> idx < c.sections@[s].block_states@.len(),
        None => true,
    }
}

impl ChunkColumn {
    /// An all-air column of `CHUNK_SECTIONS` sections.
    pub fn new_empty(x: i32, z: i32) -> (c: Self)
        ensures
            c.x == x,
            c.z == z,
            c.sections@.len() == CHUNK_SECTIONS,
            forall|s: int|
                0 <= s < CHUNK_SECTIONS ==> (#[trigger] c.sections@[s]).block_states@ == Seq::new(
                    4096,
                    |i: int| 0u16,
                ),
    {
        let mut sections: Vec<ChunkSection> = Vec::new();
        let mut k: usize = 0;
        while k < CHUNK_SECTIONS
            invariant
                k <= CHUNK_SECTIONS,
                sections@.len() == k,
                forall|s: int|
                    0 <= s < k ==> (#[trigger] sections@[s]).block_states@ == Seq::new(
                        4096,
                        |i: int| 0u16,
                    ),
            decreases CHUNK_SECTIONS - k,
        {
            sections.push(ChunkSection::new_air());
            k = k + 1;
        }
        Self { x, z, sections }
    }

    /// Sets the block at local (`bx`, `bz`) and world height `y` to
    /// `block_id`, where y lies in a section of the column; elsewhere
    /// nothing changes.
    pub fn set_block(&mut self, bx: u8, y: i32, bz: u8, block_id: u16)
        requires
            set_block_in_bounds(*old(self), y, bx, bz),
        ensures
            final(self).x == old(self).x,
            final(self).z == old(self).z,
            final(self).sections@.len() == old(self).sections@.len(),
            match block_slot(y, bx, bz) {
                Some((s, idx)) => if s < old(self).sections@.len() {
                    &&& forall|t: int|
                        0 <= t < old(self).sections@.len() && t != s
                            ==> #[trigger] final(self).sections@[t] == old(self).sections@[t]
                    &&& final(self).sections@[s].block_states@
                        == old(self).sections@[s].block_states@.update(idx as int, block_id)
                } else {
                    final(self).sections@ == old(self).sections@
                },
                None => final(self).sections@ == old(self).sections@,
            },
    {
        let d = y - MIN_Y;
        if d < 0 {
            return;
        }
        let section_idx = (d / 16) as usize;
        let local_y = (d % 16) as usize;
        if section_idx < self.sections.len() {
            let idx = (local_y << 8) | ((bz as usize) << 4) | (bx as usize);
            self.sections[section_idx].block_states.set(idx, block_id);
        }
    }
}

/// The network form of a list of sections, one after another.
pub open spec fn sections_bytes(v: Seq<ChunkSection>) -> Seq<u8> {
    concat_map(v, section_enc())
}

pub open spec fn section_enc() -> spec_fn(ChunkSection) -> Seq<u8> {
    |s: ChunkSection| section_bytes(s)
}

/// The network form of an all-air section with the fixed-size layout.
pub open spec fn void_section_bytes() -> Seq<u8> {
    be_u16(0) + seq![4u8] + varint_bytes(1) + varint_bytes(0) + varint_bytes(256) + zero_bytes(
        2048,
    ) + seq![1u8] + varint_bytes(1) + varint_bytes(0) + varint_bytes(1) + zero_bytes(8)
}

/// `b` written `n` times.
pub open spec fn repeat_bytes(b: Seq<u8>, n: nat) -> Seq<u8>
    decreases n,
{
    if n == 0 {
        Seq::<u8>::empty()
    } else {
        repeat_bytes(b, (n - 1) as nat) + b
    }
}

/// Whether `name` can stand as an NBT tag name written byte for byte: at
/// most 65535 characters, each ASCII and not NUL (Java's modified UTF-8 of
/// such text is the text's own bytes).
pub open spec fn nbt_plain_name(name: Seq<char>) -> bool {
    &&& name.len() <= 65535
    &&& forall|i: int| 0 <= i < name.len() ==> 0 < (#[trigger] name[i]) as u32 && (name[i] as u32) < 128
}

/// The NBT of a root compound, with an empty root name, whose one entry is
/// the long array `longs` under `name`: the compound tag (10), the root
/// name's length 0, the long-array tag (12), the name's length and bytes,
/// the number of longs, each long big-endian, and the end tag (0).
pub open spec fn nbt_long_array_compound(name: Seq<char>, longs: Seq<i64>) -> Seq<u8> {
    seq![10u8, 0u8, 0u8, 12u8] + be_u16(name.len() as u16) + name.map_values(|c: char| c as u8)
        + be_u32(longs.len() as u32) + longs_bytes(longs) + seq![0u8]
}

/// `fastnbt::to_bytes` of a compound whose one entry is the long array
/// `longs` under `name` (the form a struct with one `LongArray` field
/// serialises to). With a plain name and at most `i32::MAX` longs it reports
/// no error and writes `nbt_long_array_compound(name, longs)`.
#[verifier::external_body]
fn nbt_long_array_bytes(name: &str, longs: Vec<i64>) -> (r: Option<Vec<u8>>)
    requires
        nbt_plain_name(name@),
        longs@.len() <= i32::MAX,
    ensures
        match r {
            Some(b) => b@ == nbt_long_array_compound(name@, longs@),
            None => false,
        },
{
    let mut compound = std::collections::HashMap::new();
    compound.insert(name.to_string(), fastnbt::Value::LongArray(fastnbt::LongArray::new(longs)));
    fastnbt::to_bytes(&fastnbt::Value::Compound(compound)).ok()
}

fn push_varint(out: &mut Vec<u8>, value: i32)
    ensures
        final(out)@ == old(out)@ + varint_bytes(value as u32),
{
    proof {
        crate::protocol::varint::lemma_varint_roundtrip(value, Seq::<u8>::empty());
    }
    let mut tmp = BytesMut::new();
    VarInt(value).encode(&mut tmp);
    out.extend_from_slice(buf_as_slice(&tmp));
    assert(out@ =~= old(out)@ + varint_bytes(value as u32));
}

impl ChunkColumn {
    /// The network form of the column's sections.
    pub fn encode_sections(&self) -> (data: Vec<u8>)
        requires
            forall|s: int|
                0 <= s < self.sections@.len() ==> (#[trigger] self.sections@[s]).block_states@.len()
                    > 0,
            sections_bytes(self.sections@).len() <= isize::MAX,
        ensures
            data@ == sections_bytes(self.sections@),
    {
        let mut buf = BytesMut::new();
        let mut i: usize = 0;
        while i < self.sections.len()
            invariant
                i <= self.sections@.len(),
                forall|s: int|
                    0 <= s < self.sections@.len() ==> (#[trigger] self.sections@[s]).block_states@.len()
                        > 0,
                sections_bytes(self.sections@).len() <= isize::MAX,
                buf_bytes(buf) == concat_map(self.sections@.take(i as int), section_enc()),
            decreases self.sections@.len() - i,
        {
            proof {
                lemma_concat_map_push(self.sections@, section_enc(), i as int);
                lemma_concat_map_take_len(self.sections@, section_enc(), i + 1);
            }
            self.sections[i].encode_to_network(&mut buf);
            i = i + 1;
        }
        assert(self.sections@.take(self.sections@.len() as int) == self.sections@);
        vstd::slice::slice_to_vec(buf_as_slice(&buf))
    }

    /// The NBT of the column's heightmaps: `MOTION_BLOCKING`, the flat
    /// heightmap for `top_y`; empty where the serialiser reports an error.
    pub fn encode_heightmaps_nbt(&self, top_y: i32) -> (nbt: Vec<u8>)
        requires
            top_y <= i32::MAX - 65,
        ensures
            nbt@ == nbt_long_array_compound("MOTION_BLOCKING"@, flat_heightmap(top_y)),
    {
        let longs = build_flat_heightmap(top_y);
        proof {
            reveal_strlit("MOTION_BLOCKING");
        }
        match nbt_long_array_bytes("MOTION_BLOCKING", longs) {
            Some(b) => b,
            None => Vec::new(),
        }
    }

    /// The sections of an all-air column in the fixed-size layout, built
    /// without a column.
    pub fn encode_sections_legacy_void(&self) -> (data: Vec<u8>)
        ensures
            data@ == repeat_bytes(void_section_bytes(), CHUNK_SECTIONS as nat),
    {
        let mut sections: Vec<u8> = Vec::new();
        let mut k: usize = 0;
        while k < CHUNK_SECTIONS
            invariant
                k <= CHUNK_SECTIONS,
                sections@ == repeat_bytes(void_section_bytes(), k as nat),
            decreases CHUNK_SECTIONS - k,
        {
            let ghost start = sections@;
            let count_bytes = [0u8; 2];
            sections.extend_from_slice(count_bytes.as_slice());
            sections.push(4);
            push_varint(&mut sections, 1);
            push_varint(&mut sections, 0);
            push_varint(&mut sections, 256);
            let ghost mid = sections@;
            let mut j: usize = 0;
            while j < 256
                invariant
                    j <= 256,
                    sections@ == mid + zero_bytes((8 * j) as nat),
                decreases 256 - j,
            {
                let long_bytes = [0u8; 8];
                sections.extend_from_slice(long_bytes.as_slice());
                assert(sections@ =~= mid + zero_bytes((8 * (j + 1)) as nat));
                j = j + 1;
            }
            sections.push(1);
            push_varint(&mut sections, 1);
            push_varint(&mut sections, 0);
            push_varint(&mut sections, 1);
            let long_bytes = [0u8; 8];
            sections.extend_from_slice(long_bytes.as_slice());
            proof {
                assert((0u16 >> 8u16) as u8 == 0 && 0u16 as u8 == 0) by (bit_vector);
            }
            assert(sections@ =~= start + void_section_bytes());
            k = k + 1;
        }
        sections
    }
}

proof fn lemma_count_non_air_zeros(n: nat)
    ensures
        count_non_air(Seq::new(n, |i: int| 0u16)) == 0,
    decreases n,
{
    if n > 0 {
        assert(Seq::new(n, |i: int| 0u16).drop_last() =~= Seq::new((n - 1) as nat, |i: int| 0u16));
        lemma_count_non_air_zeros((n - 1) as nat);
    }
}

proof fn lemma_air_prefix(v: Seq<ChunkSection>, k: int)
    requires
        0 <= k <= v.len(),
        forall|s: int| 0 <= s < v.len() ==> section_bytes(#[trigger] v[s]) == void_section_bytes(),
    ensures
        concat_map(v.take(k), section_enc()) == repeat_bytes(void_section_bytes(), k as nat),
    decreases k,
{
    if k == 0 {
        assert(v.take(0) =~= Seq::<ChunkSection>::empty());
    } else {
        lemma_air_prefix(v, k - 1);
        lemma_concat_map_push(v, section_enc(), k - 1);
        assert(section_bytes(v[k - 1]) == void_section_bytes());
    }
}

/// The fixed-size void sections are exactly what an all-air column of
/// `CHUNK_SECTIONS` sections (as `new_empty` builds it) encodes to.
pub proof fn lemma_void_sections_are_empty_column(c: ChunkColumn)
    requires
        c.sections@.len() == CHUNK_SECTIONS,
        forall|s: int|
            0 <= s < CHUNK_SECTIONS ==> (#[trigger] c.sections@[s]).block_states@ == Seq::new(
                4096,
                |i: int| 0u16,
            ),
    ensures
        sections_bytes(c.sections@) == repeat_bytes(void_section_bytes(), CHUNK_SECTIONS as nat),
{
    let zeros = Seq::new(4096, |i: int| 0u16);
    lemma_count_non_air_zeros(4096);
    assert(section_states_bytes(zeros) == void_section_bytes()) by {
        assert(zeros[0] == 0u16);
        assert(((0u16 as i32) as u32) == 0u32);
    }
    assert forall|s: int| 0 <= s < c.sections@.len() implies section_bytes(#[trigger] c.sections@[s])
        == void_section_bytes() by {
        assert(c.sections@[s].block_states@ == zeros);
    }
    let v = c.sections@;
    lemma_air_prefix(v, 24);
    assert(v.take(24) =~= v);
}

} // verus!
