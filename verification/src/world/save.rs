//! The world: the chunk columns generated or loaded so far, by position.
use crate::world::chunk::ChunkColumn;
use crate::world::generation::{flat_section, generate_flat_chunk};
use std::collections::HashMap;
use vstd::prelude::*;

verus! {

broadcast use vstd::std_specs::hash::group_hash_axioms;

/// The map key of chunk position (x, z): x's bits above z's.
pub open spec fn spec_chunk_key(x: i32, z: i32) -> u64 {
    (((x as u32) as u64) << 32u64) | ((z as u32) as u64)
}

/// The map key of chunk position (x, z).
pub fn chunk_key(x: i32, z: i32) -> (k: u64)
    ensures
        k == spec_chunk_key(x, z),
{
    (((x as u32) as u64) << 32) | ((z as u32) as u64)
}

/// Distinct positions have distinct keys.
pub proof fn lemma_chunk_key_injective(x1: i32, z1: i32, x2: i32, z2: i32)
    ensures
        spec_chunk_key(x1, z1) == spec_chunk_key(x2, z2) ==> x1 == x2 && z1 == z2,
{
    assert((((x1 as u32) as u64) << 32u64) | ((z1 as u32) as u64) == (((x2 as u32) as u64)
        << 32u64) | ((z2 as u32) as u64) ==> x1 == x2 && z1 == z2) by (bit_vector);
}

/// The zlib stream that flate2's `ZlibEncoder`, at the default
/// compression level, makes of `data`, or None where it reports an error.
pub uninterp spec fn zlib_compressed(data: Seq<u8>) -> Option<Seq<u8>>;

/// The bytes that flate2's `ZlibDecoder` reads out of `data`, or None
/// where it reports an error (`data` is not a whole zlib stream).
pub uninterp spec fn zlib_decompressed(data: Seq<u8>) -> Option<Seq<u8>>;

/// flate2's `ZlibEncoder` over a `Vec<u8>` at the default level: writes
/// `data` and finishes the stream. Its stream, or its error, is what
/// `zlib_compressed` names (the output depends on the data alone: the
/// level is fixed and writing into a `Vec` does not fail), and
/// `ZlibDecoder` reads `data` back out of the stream (zlib is lossless).
#[verifier::external_body]
fn zlib_compress(data: &[u8]) -> (r: Option<Vec<u8>>)
    ensures
        match r {
            Some(b) => zlib_compressed(data@) == Some(b@) && zlib_decompressed(b@) == Some(data@),
            None => zlib_compressed(data@) is None,
        },
{
    let mut encoder = flate2::write::ZlibEncoder::new(Vec::new(), flate2::Compression::default());
    match std::io::Write::write_all(&mut encoder, data) {
        Ok(()) => encoder.finish().ok(),
        Err(_) => None,
    }
}

/// flate2's `ZlibDecoder` read to its end over `data`: the bytes it reads,
/// or None where it reports an error; either way as `zlib_decompressed`
/// names it.
#[verifier::external_body]
fn zlib_decompress(data: &[u8]) -> (r: Option<Vec<u8>>)
    ensures
        match r {
            Some(b) => zlib_decompressed(data@) == Some(b@),
            None => zlib_decompressed(data@) is None,
        },
{
    let mut out = Vec::new();
    match std::io::Read::read_to_end(&mut flate2::read::ZlibDecoder::new(data), &mut out) {
        Ok(_) => Some(out),
        Err(_) => None,
    }
}

/// The columns of the world, by chunk position (see `spec_chunk_key`).
pub struct World {
    pub chunks: HashMap<u64, ChunkColumn>,
}

/// The columns of `m` after each of `cols` is stored at its own position
/// in turn, a later one replacing an earlier one at the same position.
pub open spec fn insert_columns(m: Map<u64, ChunkColumn>, cols: Seq<ChunkColumn>) -> Map<
    u64,
    ChunkColumn,
>
    decreases cols.len(),
{
    if cols.len() == 0 {
        m
    } else {
        insert_columns(m, cols.drop_last()).insert(
            spec_chunk_key(cols.last().x, cols.last().z),
            cols.last(),
        )
    }
}

/// After storing `cols` in turn, a column that no later one in `cols`
/// shares a position with is the one found at its position.
pub proof fn lemma_loaded_column_found(m: Map<u64, ChunkColumn>, cols: Seq<ChunkColumn>, i: int)
    requires
        0 <= i < cols.len(),
        forall|j: int| i < j < cols.len() ==> !((#[trigger] cols[j]).x == cols[i].x && cols[j].z == cols[i].z),
    ensures
        columns_of(insert_columns(m, cols)).contains_key((cols[i].x, cols[i].z)),
        columns_of(insert_columns(m, cols))[(cols[i].x, cols[i].z)] == cols[i],
    decreases cols.len(),
{
    let n = cols.len();
    let k = spec_chunk_key(cols[i].x, cols[i].z);
    if i < n - 1 {
        let front = cols.drop_last();
        assert forall|j: int| i < j < front.len() implies !((#[trigger] front[j]).x == front[i].x
            && front[j].z == front[i].z) by {
            assert(front[j] == cols[j]);
        }
        lemma_loaded_column_found(m, front, i);
        assert(front[i] == cols[i]);
        lemma_chunk_key_injective(cols.last().x, cols.last().z, cols[i].x, cols[i].z);
        assert(cols.last() == cols[n - 1]);
    }
    assert(insert_columns(m, cols).contains_key(k));
}

/// Whether every column of `m` is stored under the key of its own
/// position.
pub open spec fn well_keyed(m: Map<u64, ChunkColumn>) -> bool {
    forall|k: u64| #[trigger] m.contains_key(k) ==> k == spec_chunk_key(m[k].x, m[k].z)
}

/// Storing columns, each at its own position, keeps a map well keyed.
pub proof fn lemma_insert_columns_well_keyed(m: Map<u64, ChunkColumn>, cols: Seq<ChunkColumn>)
    requires
        well_keyed(m),
    ensures
        well_keyed(insert_columns(m, cols)),
    decreases cols.len(),
{
    if cols.len() > 0 {
        lemma_insert_columns_well_keyed(m, cols.drop_last());
    }
}

proof fn lemma_insert_columns_agree(m: Map<u64, ChunkColumn>, cols: Seq<ChunkColumn>)
    requires
        forall|i: int|
            0 <= i < cols.len() ==> m.contains_key(spec_chunk_key((#[trigger] cols[i]).x, cols[i].z))
                && m[spec_chunk_key(cols[i].x, cols[i].z)] == cols[i],
    ensures
        forall|k: u64| #[trigger]
            insert_columns(Map::empty(), cols).contains_key(k) ==> m.contains_key(k)
                && insert_columns(Map::empty(), cols)[k] == m[k],
        forall|i: int|
            0 <= i < cols.len() ==> insert_columns(Map::empty(), cols).contains_key(
                spec_chunk_key((#[trigger] cols[i]).x, cols[i].z),
            ),
    decreases cols.len(),
{
    if cols.len() > 0 {
        let front = cols.drop_last();
        assert forall|i: int| 0 <= i < front.len() implies m.contains_key(
            spec_chunk_key((#[trigger] front[i]).x, front[i].z),
        ) && m[spec_chunk_key(front[i].x, front[i].z)] == front[i] by {
            assert(front[i] == cols[i]);
        }
        lemma_insert_columns_agree(m, front);
        let last = cols.last();
        assert(last == cols[cols.len() - 1]);
        assert forall|i: int| 0 <= i < cols.len() implies insert_columns(Map::empty(), cols).contains_key(
            spec_chunk_key((#[trigger] cols[i]).x, cols[i].z),
        ) by {
            if i < cols.len() - 1 {
                assert(front[i] == cols[i]);
            }
        }
    }
}

/// Saving and loading give back the world: where every column of `m` is
/// stored under its own position, storing the columns that are saved (the
/// columns of `m`, in any order and however often each) into an empty map,
/// as `World::insert_loaded` does on `World::new()`, gives `m` again.
pub proof fn lemma_save_then_load(m: Map<u64, ChunkColumn>, saved: Seq<ChunkColumn>)
    requires
        well_keyed(m),
        saved.to_set() == m.values(),
    ensures
        insert_columns(Map::empty(), saved) == m,
{
    assert forall|i: int| 0 <= i < saved.len() implies m.contains_key(
        spec_chunk_key((#[trigger] saved[i]).x, saved[i].z),
    ) && m[spec_chunk_key(saved[i].x, saved[i].z)] == saved[i] by {
        assert(saved.to_set().contains(saved[i]));
        let k = choose|k: u64| m.contains_key(k) && m[k] == saved[i];
        assert(m.contains_key(k));
    }
    lemma_insert_columns_agree(m, saved);
    let r = insert_columns(Map::empty(), saved);
    assert forall|k: u64| m.contains_key(k) implies #[trigger] r.contains_key(k) by {
        assert(m.values().contains(m[k]));
        assert(saved.to_set().contains(m[k]));
        let i = choose|i: int| 0 <= i < saved.len() && saved[i] == m[k];
        assert(r.contains_key(spec_chunk_key(saved[i].x, saved[i].z)));
    }
    assert(r =~= m);
}

/// The columns of a key map, by position.
pub open spec fn columns_of(m: Map<u64, ChunkColumn>) -> Map<(i32, i32), ChunkColumn> {
    Map::new(
        |p: (i32, i32)| m.contains_key(spec_chunk_key(p.0, p.1)),
        |p: (i32, i32)| m[spec_chunk_key(p.0, p.1)],
    )
}

/// Whether `col` is a flat column generated at (cx, cz).
pub open spec fn is_generated_at(col: ChunkColumn, cx: i32, cz: i32) -> bool {
    &&& col.x == cx
    &&& col.z == cz
    &&& col.sections@.len() == 24
    &&& forall|s: int| 0 <= s < 24 ==> (#[trigger] col.sections@[s]).block_states@ == flat_section(s)
}

/// How `get_or_generate` at (cx, cz) takes the key map `m0` to `m1` and
/// gives `col`: the column already there, with nothing changed, or else a
/// newly generated flat column, stored at that position.
pub open spec fn got_or_generated(
    m0: Map<u64, ChunkColumn>,
    m1: Map<u64, ChunkColumn>,
    cx: i32,
    cz: i32,
    col: ChunkColumn,
) -> bool {
    let k = spec_chunk_key(cx, cz);
    if m0.contains_key(k) {
        m1 == m0 && col == m0[k]
    } else {
        m1 == m0.insert(k, col) && is_generated_at(col, cx, cz)
    }
}

/// Asking twice for the same position gives the same column, and the
/// second ask changes nothing.
pub proof fn lemma_get_or_generate_twice(
    m0: Map<u64, ChunkColumn>,
    m1: Map<u64, ChunkColumn>,
    m2: Map<u64, ChunkColumn>,
    cx: i32,
    cz: i32,
    c1: ChunkColumn,
    c2: ChunkColumn,
)
    requires
        got_or_generated(m0, m1, cx, cz, c1),
        got_or_generated(m1, m2, cx, cz, c2),
    ensures
        m2 == m1,
        c2 == c1,
{
}

/// By position, `get_or_generate` at (cx, cz) stores the column it gives
/// at (cx, cz) and leaves every other position as it was.
pub proof fn lemma_get_or_generate_positions(
    m0: Map<u64, ChunkColumn>,
    m1: Map<u64, ChunkColumn>,
    cx: i32,
    cz: i32,
    col: ChunkColumn,
)
    requires
        got_or_generated(m0, m1, cx, cz, col),
    ensures
        columns_of(m1) == columns_of(m0).insert((cx, cz), col),
{
    let k = spec_chunk_key(cx, cz);
    assert forall|p: (i32, i32)| #[trigger] columns_of(m1).contains_key(p) == columns_of(m0).insert(
        (cx, cz),
        col,
    ).contains_key(p) by {
        lemma_chunk_key_injective(p.0, p.1, cx, cz);
    }
    assert forall|p: (i32, i32)| columns_of(m1).contains_key(p) implies #[trigger] columns_of(m1)[p]
        == columns_of(m0).insert((cx, cz), col)[p] by {
        lemma_chunk_key_injective(p.0, p.1, cx, cz);
    }
    assert(columns_of(m1) =~= columns_of(m0).insert((cx, cz), col));
}

impl World {
    /// The columns by position.
    pub open spec fn columns(&self) -> Map<(i32, i32), ChunkColumn> {
        columns_of(self.chunks@)
    }

    /// A world without columns.
    pub fn new() -> (w: Self)
        ensures
            w.chunks@ == Map::<u64, ChunkColumn>::empty(),
            w.columns() == Map::<(i32, i32), ChunkColumn>::empty(),
            well_keyed(w.chunks@),
    {
        let w = Self { chunks: HashMap::new() };
        assert(w.columns() =~= Map::<(i32, i32), ChunkColumn>::empty());
        w
    }

    /// Compresses the serialised columns of a save file: the zlib stream of
    /// `json`, or None where the compressor reports an error. Where it gives
    /// bytes, `decompress_save` gives `json` back from them.
    pub fn compress_save(json: &[u8]) -> (r: Option<Vec<u8>>)
        ensures
            match r {
                Some(b) => zlib_compressed(json@) == Some(b@) && zlib_decompressed(b@) == Some(json@),
                None => zlib_compressed(json@) is None,
            },
    {
        zlib_compress(json)
    }

    /// The serialised columns inside a save file, or None where the file is
    /// not a whole zlib stream.
    pub fn decompress_save(compressed: &[u8]) -> (r: Option<Vec<u8>>)
        ensures
            match r {
                Some(b) => zlib_decompressed(compressed@) == Some(b@),
                None => zlib_decompressed(compressed@) is None,
            },
    {
        zlib_decompress(compressed)
    }

    /// The world's columns for saving: each column once, in the map's own
    /// order.
    pub fn columns_to_save(&self) -> (v: Vec<&ChunkColumn>)
        ensures
            v@.len() == self.chunks@.len(),
            v@.unref().to_set() == self.chunks@.values(),
    {
        let mut v: Vec<&ChunkColumn> = Vec::new();
        let values = self.chunks.values();
        let ghost all = vstd::std_specs::iter::IteratorSpec::remaining(&values);
        assert(all.unref().to_set() == self.chunks@.values());
        for c in it: values
            invariant
                it.seq() == all,
                v@ == all.take(it.index() as int),
        {
            v.push(c);
        }
        assert(v@ == all);
        v
    }

    /// Stores loaded columns, each at its own position, in order.
    pub fn insert_loaded(&mut self, chunks: Vec<ChunkColumn>)
        ensures
            final(self).chunks@ == insert_columns(old(self).chunks@, chunks@),
            well_keyed(old(self).chunks@) ==> well_keyed(final(self).chunks@),
    {
        let ghost all = chunks@;
        let ghost start = self.chunks@;
        for col in it: chunks.into_iter()
            invariant
                it.seq() == all,
                self.chunks@ == insert_columns(start, all.take(it.index() as int)),
        {
            proof {
                assert(all.take(it.index() + 1).drop_last() == all.take(it.index() as int));
            }
            let key = chunk_key(col.x, col.z);
            self.chunks.insert(key, col);
        }
        assert(all.take(all.len() as int) == all);
        proof {
            if well_keyed(old(self).chunks@) {
                lemma_insert_columns_well_keyed(old(self).chunks@, all);
            }
        }
    }

    /// The column at (cx, cz), generated flat and stored first where the
    /// world has none there.
    pub fn get_or_generate(&mut self, cx: i32, cz: i32) -> (col: &ChunkColumn)
        ensures
            got_or_generated(old(self).chunks@, final(self).chunks@, cx, cz, *col),
            final(self).columns() == old(self).columns().insert((cx, cz), *col),
            well_keyed(old(self).chunks@) ==> well_keyed(final(self).chunks@),
    {
        let key = chunk_key(cx, cz);
        if !self.chunks.contains_key(&key) {
            let col = generate_flat_chunk(cx, cz);
            self.chunks.insert(key, col);
        }
        let col = self.chunks.get(&key).unwrap();
        proof {
            lemma_get_or_generate_positions(old(self).chunks@, self.chunks@, cx, cz, *col);
        }
        col
    }
}

} // verus!
