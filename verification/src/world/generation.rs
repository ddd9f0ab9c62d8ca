//! The flat test world.
use crate::protocol::wire::{concat_map, lemma_concat_map_len_bound, lemma_concat_map_pointwise};
use crate::world::chunk::{
    block_index, block_slot, lemma_section_states_bytes_len, section_enc, section_states_bytes,
    sections_bytes, ChunkColumn,
};
use vstd::prelude::*;

verus! {

/// The block state of stone.
pub const BLOCK_STONE: u16 = 1;

/// The block states of section `s` of a flat column: stone in section 4
/// (world heights 0 to 15), air elsewhere.
pub open spec fn flat_section(s: int) -> Seq<u16> {
    if s == 4 {
        Seq::new(4096, |i: int| BLOCK_STONE)
    } else {
        Seq::new(4096, |i: int| 0u16)
    }
}

/// Whether index `i` of section 4 is stone once the loops have reached
/// column `bx`, row `bz` and height `y` (x varies slowest, then z, then y).
spec fn stone_set(i: int, bx: int, bz: int, y: int) -> bool {
    (i % 16 < bx) || (i % 16 == bx && ((i / 16) % 16 < bz || ((i / 16) % 16 == bz && i / 256 < y)))
}

proof fn lemma_index_digits(y: usize, bz: u8, bx: u8)
    requires
        y < 16,
        bz < 16,
        bx < 16,
    ensures
        block_index(y, bx, bz) == y * 256 + bz * 16 + bx,
        (block_index(y, bx, bz) as int) % 16 == bx,
        ((block_index(y, bx, bz) as int) / 16) % 16 == bz,
        (block_index(y, bx, bz) as int) / 256 == y,
{
    let bzz = bz as usize;
    let bxx = bx as usize;
    assert(((y << 8usize) | (bzz << 4usize) | bxx) == y * 256 + bzz * 16 + bxx) by (bit_vector)
        requires
            y < 16,
            bzz < 16,
            bxx < 16,
    ;
}

proof fn lemma_digits_determine(i: int, y: int, bz: int, bx: int)
    requires
        0 <= i < 4096,
        0 <= y < 16,
        0 <= bz < 16,
        0 <= bx < 16,
        i % 16 == bx,
        (i / 16) % 16 == bz,
        i / 256 == y,
    ensures
        i == y * 256 + bz * 16 + bx,
{
    assert(i == 16 * (i / 16) + i % 16);
    assert(i / 16 == 16 * ((i / 16) / 16) + (i / 16) % 16);
    assert((i / 16) / 16 == i / 256);
}

/// A flat column at chunk (cx, cz): stone from height 0 to 15, air
/// elsewhere.
pub fn generate_flat_chunk(cx: i32, cz: i32) -> (col: ChunkColumn)
    ensures
        col.x == cx,
        col.z == cz,
        col.sections@.len() == 24,
        forall|s: int| 0 <= s < 24 ==> (#[trigger] col.sections@[s]).block_states@ == flat_section(s),
{
    let mut col = ChunkColumn::new_empty(cx, cz);
    let ghost zeros = Seq::new(4096, |i: int| 0u16);
    let mut bx: u8 = 0;
    while bx < 16
        invariant
            bx <= 16,
            col.x == cx,
            col.z == cz,
            col.sections@.len() == 24,
            forall|s: int| 0 <= s < 24 && s != 4 ==> (#[trigger] col.sections@[s]).block_states@ == zeros,
            col.sections@[4].block_states@.len() == 4096,
            forall|i: int|
                0 <= i < 4096 ==> (#[trigger] col.sections@[4].block_states@[i]) == if stone_set(
                    i,
                    bx as int,
                    0,
                    0,
                ) {
                    1u16
                } else {
                    0u16
                },
        decreases 16 - bx,
    {
        let mut bz: u8 = 0;
        while bz < 16
            invariant
                bx < 16,
                bz <= 16,
                col.x == cx,
                col.z == cz,
                col.sections@.len() == 24,
                forall|s: int| 0 <= s < 24 && s != 4 ==> (#[trigger] col.sections@[s]).block_states@ == zeros,
                col.sections@[4].block_states@.len() == 4096,
                forall|i: int|
                    0 <= i < 4096 ==> (#[trigger] col.sections@[4].block_states@[i]) == if stone_set(
                        i,
                        bx as int,
                        bz as int,
                        0,
                    ) {
                        1u16
                    } else {
                        0u16
                    },
            decreases 16 - bz,
        {
            let mut y: i32 = 0;
            while y <= 15
                invariant
                    bx < 16,
                    bz < 16,
                    0 <= y <= 16,
                    col.x == cx,
                    col.z == cz,
                    col.sections@.len() == 24,
                    forall|s: int|
                        0 <= s < 24 && s != 4 ==> (#[trigger] col.sections@[s]).block_states@ == zeros,
                    col.sections@[4].block_states@.len() == 4096,
                    forall|i: int|
                        0 <= i < 4096 ==> (#[trigger] col.sections@[4].block_states@[i])
                            == if stone_set(i, bx as int, bz as int, y as int) {
                            1u16
                        } else {
                            0u16
                        },
                decreases 16 - y,
            {
                proof {
                    lemma_index_digits(y as usize, bz, bx);
                    assert((y + 64) / 16 == 4);
                    assert((y + 64) % 16 == y);
                    assert(block_slot(y, bx, bz) == Some((4int, block_index(y as usize, bx, bz))));
                }
                let ghost idx = block_index(y as usize, bx, bz) as int;
                col.set_block(bx, y, bz, super::generation::BLOCK_STONE);
                assert forall|i: int|
                    0 <= i < 4096 implies (#[trigger] col.sections@[4].block_states@[i]) == if stone_set(
                        i,
                        bx as int,
                        bz as int,
                        y + 1,
                    ) {
                        1u16
                    } else {
                        0u16
                    } by {
                    if i != idx {
                        if i % 16 == bx && (i / 16) % 16 == bz && i / 256 == y {
                            lemma_digits_determine(i, y as int, bz as int, bx as int);
                        }
                    }
                }
                y = y + 1;
            }
            assert forall|i: int|
                0 <= i < 4096 implies stone_set(i, bx as int, bz as int, 16) == stone_set(
                    i,
                    bx as int,
                    bz + 1,
                    0,
                ) by {
                assert(i / 256 < 16);
            }
            bz = bz + 1;
        }
        assert forall|i: int|
            0 <= i < 4096 implies stone_set(i, bx as int, 16, 0) == stone_set(i, bx + 1, 0, 0) by {
            assert((i / 16) % 16 < 16);
        }
        bx = bx + 1;
    }
    assert(col.sections@[4].block_states@ =~= flat_section(4));
    col
}

/// The network form of a flat column's sections.
pub open spec fn flat_column_bytes() -> Seq<u8> {
    concat_map(Seq::new(24, |s: int| flat_section(s)), states_enc())
}

pub open spec fn states_enc() -> spec_fn(Seq<u16>) -> Seq<u8> {
    |st: Seq<u16>| section_states_bytes(st)
}

/// The sections of a flat column encode as `flat_column_bytes`, within
/// 24 * 2100 bytes.
pub proof fn lemma_flat_column_bytes(col: ChunkColumn)
    requires
        col.sections@.len() == 24,
        forall|s: int| 0 <= s < 24 ==> (#[trigger] col.sections@[s]).block_states@ == flat_section(s),
    ensures
        sections_bytes(col.sections@) == flat_column_bytes(),
        flat_column_bytes().len() <= 24 * 2100,
{
    let flat = Seq::new(24, |s: int| flat_section(s));
    assert forall|i: int| 0 <= i < col.sections@.len() implies (section_enc())(
        #[trigger] col.sections@[i],
    ) == (states_enc())(flat[i]) by {
        assert(col.sections@[i].block_states@ == flat_section(i));
    }
    lemma_concat_map_pointwise(col.sections@, section_enc(), flat, states_enc());
    assert forall|i: int| 0 <= i < flat.len() implies (#[trigger] (states_enc())(flat[i])).len()
        <= 2100 by {
        lemma_section_states_bytes_len(flat[i]);
    }
    lemma_concat_map_len_bound(flat, states_enc(), 2100);
}

} // verus!
