use bytes::BytesMut;
use mamut::world::anvil;
use mamut::world::chunk::{build_flat_heightmap, ChunkColumn, ChunkSection, CHUNK_SECTIONS, MIN_Y};
use mamut::world::generation::{generate_flat_chunk, BLOCK_STONE};
use mamut::world::save::{chunk_key, World};

#[test]
fn sections_new() {
    let a = ChunkSection::new_air();
    assert_eq!(a.block_states.len(), 4096);
    assert!(a.block_states.iter().all(|&b| b == 0));
    let f = ChunkSection::new_filled(7);
    assert!(f.block_states.iter().all(|&b| b == 7));
    assert_eq!(CHUNK_SECTIONS, 24);
    assert_eq!(MIN_Y, -64);
}

#[test]
fn set_block_places_in_section_and_index() {
    let mut c = ChunkColumn::new_empty(3, -4);
    assert_eq!(c.sections.len(), 24);
    c.set_block(1, 0, 2, 9);
    assert_eq!(c.sections[4].block_states[(0 << 8) | (2 << 4) | 1], 9);
    c.set_block(15, -64, 15, 5);
    assert_eq!(c.sections[0].block_states[255], 5);
    c.set_block(0, 319, 0, 6);
    assert_eq!(c.sections[23].block_states[15 << 8], 6);
    let before: Vec<Vec<u16>> = c.sections.iter().map(|s| s.block_states.clone()).collect();
    c.set_block(0, 320, 0, 8);
    c.set_block(0, -200, 0, 8);
    let after: Vec<Vec<u16>> = c.sections.iter().map(|s| s.block_states.clone()).collect();
    assert_eq!(before, after);
}

#[test]
fn flat_chunk_is_stone_from_zero_to_fifteen() {
    let c = generate_flat_chunk(2, 5);
    assert_eq!((c.x, c.z), (2, 5));
    assert_eq!(c.sections.len(), 24);
    for (i, s) in c.sections.iter().enumerate() {
        let want = if i == 4 { BLOCK_STONE } else { 0 };
        assert!(s.block_states.iter().all(|&b| b == want));
    }
}

#[test]
fn section_encoding() {
    let mut b = BytesMut::new();
    ChunkSection::new_filled(1).encode_to_network(&mut b);
    let v = b.to_vec();
    assert_eq!(v.len(), 2067);
    assert_eq!(&v[..7], &[0x10, 0x00, 4, 1, 1, 0x80, 0x02]);
    assert!(v[7..7 + 2048].iter().all(|&x| x == 0));
    assert_eq!(&v[2055..], &[1, 1, 0, 1, 0, 0, 0, 0, 0, 0, 0, 0]);
    let mut half = ChunkSection::new_air();
    half.block_states[10] = 3;
    let mut h = BytesMut::new();
    half.encode_to_network(&mut h);
    assert_eq!(&h.to_vec()[..5], &[0, 1, 4, 1, 0]);
}

#[test]
fn column_encodings() {
    let c = generate_flat_chunk(0, 0);
    let data = c.encode_sections();
    assert_eq!(data.len(), 24 * 2067);
    let empty = ChunkColumn::new_empty(0, 0);
    assert_eq!(empty.encode_sections_legacy_void(), empty.encode_sections());
    assert_eq!(c.encode_sections_legacy_void().len(), 24 * 2067);
}

#[test]
fn flat_heightmap_values() {
    let longs = build_flat_heightmap(15);
    assert_eq!(longs.len(), 37);
    let h: i64 = 80;
    let seven: i64 = (0..7).map(|k| h << (9 * k)).fold(0, |a, b| a | b);
    let four: i64 = (0..4).map(|k| h << (9 * k)).fold(0, |a, b| a | b);
    assert!(longs[..36].iter().all(|&l| l == seven));
    assert_eq!(longs[36], four);
    for i in 0..256usize {
        assert_eq!((longs[i / 7] >> (9 * (i % 7))) & 511, h);
    }
    let tall = build_flat_heightmap(500);
    assert_eq!(tall[0] & 511, (500 + 65) & 511);
}

#[test]
fn heightmap_nbt() {
    let c = ChunkColumn::new_empty(0, 0);
    let nbt = c.encode_heightmaps_nbt(15);
    let mut expected = vec![10u8, 0, 0, 12, 0, 15];
    expected.extend_from_slice(b"MOTION_BLOCKING");
    expected.extend_from_slice(&37i32.to_be_bytes());
    for l in build_flat_heightmap(15) {
        expected.extend_from_slice(&l.to_be_bytes());
    }
    expected.push(0);
    assert_eq!(nbt, expected);
}

#[test]
fn anvil_section_encodings() {
    let single = anvil::ChunkSection { block_count: 5, palette: vec!["minecraft:stone".to_string()], data: vec![] };
    let mut b = BytesMut::new();
    single.encode_with_palette_bits(0, &mut b);
    assert_eq!(b.to_vec(), vec![0, 5, 0, 102, 0, 0, 1, 0]);
    let multi = anvil::ChunkSection {
        block_count: -1,
        palette: vec!["a".to_string(), "b".to_string(), "c".to_string()],
        data: vec![1],
    };
    let mut m = BytesMut::new();
    multi.encode_with_palette_bits(2, &mut m);
    assert_eq!(
        m.to_vec(),
        vec![0xff, 0xff, 4, 3, 1, b'a', 1, b'b', 1, b'c', 1, 0, 0, 0, 0, 0, 0, 0, 1, 0, 1, 0]
    );
    let mut w = BytesMut::new();
    multi.encode_with_palette_bits(6, &mut w);
    assert_eq!(w.to_vec()[2], 6);
}

#[test]
fn world_generates_once_and_loads() {
    let mut w = World::new();
    assert!(w.chunks.is_empty());
    let first = w.get_or_generate(1, -1).sections[4].block_states[0];
    assert_eq!(first, BLOCK_STONE);
    w.chunks.get_mut(&chunk_key(1, -1)).unwrap().sections[4].block_states[0] = 42;
    assert_eq!(w.get_or_generate(1, -1).sections[4].block_states[0], 42);
    assert_eq!(w.chunks.len(), 1);

    let mut a = ChunkColumn::new_empty(5, 5);
    a.set_block(0, 0, 0, 2);
    let b = ChunkColumn::new_empty(5, 5);
    let c = ChunkColumn::new_empty(-1, 7);
    w.insert_loaded(vec![a, b, c]);
    assert_eq!(w.chunks.len(), 3);
    assert_eq!(w.chunks[&chunk_key(5, 5)].sections[4].block_states[0], 0);
    assert_eq!(w.chunks[&chunk_key(-1, 7)].z, 7);
    assert_ne!(chunk_key(1, 2), chunk_key(2, 1));
    assert_eq!(chunk_key(-1, 0), 0xffff_ffff_0000_0000);
}

#[test]
fn other_positions_are_left_alone() {
    let mut w = World::new();
    w.get_or_generate(0, 0);
    w.chunks.get_mut(&chunk_key(0, 0)).unwrap().sections[0].block_states[0] = 9;
    let c = w.get_or_generate(3, 0);
    assert_eq!((c.x, c.z), (3, 0));
    assert_eq!(w.chunks.len(), 2);
    assert_eq!(w.chunks[&chunk_key(0, 0)].sections[0].block_states[0], 9);
}

#[test]
fn save_bytes_compress_and_come_back() {
    let json = br#"[{"x":1,"z":2,"sections":[]}]"#.to_vec();
    let packed = World::compress_save(&json).expect("compression into memory succeeds");
    assert_ne!(packed, json);
    assert_eq!(packed[0], 0x78);
    assert_eq!(World::decompress_save(&packed), Some(json));
    assert_eq!(World::decompress_save(b"not a zlib stream"), None);
    assert_eq!(World::decompress_save(&World::compress_save(b"").unwrap()), Some(Vec::new()));
}

#[test]
fn saved_columns_load_back_into_the_same_world() {
    let mut w = World::new();
    w.get_or_generate(0, 0);
    w.get_or_generate(-2, 5);
    w.chunks.get_mut(&chunk_key(-2, 5)).unwrap().sections[3].block_states[7] = 11;
    let saved: Vec<ChunkColumn> = w.columns_to_save().into_iter().cloned().collect();
    assert_eq!(saved.len(), 2);
    let mut v = World::new();
    v.insert_loaded(saved);
    assert_eq!(v.chunks.len(), w.chunks.len());
    for (k, c) in &w.chunks {
        let d = &v.chunks[k];
        assert_eq!((d.x, d.z), (c.x, c.z));
        assert_eq!(d.sections.len(), c.sections.len());
        for (a, b) in d.sections.iter().zip(c.sections.iter()) {
            assert_eq!(a.block_states, b.block_states);
        }
    }
    assert_eq!(v.chunks[&chunk_key(-2, 5)].sections[3].block_states[7], 11);
}
