//! What a client reads out of the packets the server writes: readers that
//! take the wire bytes field by field, in protocol order, and the laws that
//! they give back what was written.
use crate::buf::{be_u32, be_u64};
use crate::protocol::packets::{
    entry_bytes, entry_enc, flag_byte, id_enc, ids_bytes, long_enc, longs_bytes, registry_tags_enc,
    strings_bytes, string_enc, tag_bytes, tag_enc, tag_list_bytes, TagsPacket, UpdateTagsPacket,
    ChunkBatchFinishedPacket, ChunkDataPacket, FeatureFlagsPacket, SimulationDistancePacket,
    UpdateViewDistancePacket, JoinGamePacket, LoginSuccessPacket, MapChunkPacket,
    RegistryDataPacket, RegistryEntry, UpdateViewPositionPacket,
};
use crate::protocol::fml::FmlLoginWrapper;
use crate::protocol::packet::Packet;
use crate::protocol::types::{
    lemma_be_roundtrip, lemma_mc_string_roundtrip, mc_string_bytes, read_mc_string, u32_from_be,
    u64_from_be, wire_len,
};
use crate::protocol::varint::{lemma_varint_roundtrip, read_varint, varint_bytes, VarIntRead};
use crate::protocol::wire::{concat_map, lemma_concat_map_first};
use vstd::prelude::*;
use vstd::utf8::encode_utf8;

verus! {

/// Reading `count` length-prefixed strings, one after another, after those
/// already read (`acc`): the texts and what is left, or None where one of
/// them cannot be read.
pub open spec fn read_strings(s: Seq<u8>, count: nat, acc: Seq<Seq<char>>) -> Option<
    (Seq<Seq<char>>, Seq<u8>),
>
    decreases count,
{
    if count == 0 {
        Some((acc, s))
    } else {
        match read_mc_string(s) {
            Some((Ok(t), r)) => read_strings(r, (count - 1) as nat, acc.push(t)),
            _ => None,
        }
    }
}

/// The texts of a list of strings.
pub open spec fn texts(v: Seq<String>) -> Seq<Seq<char>> {
    v.map_values(|s: String| s@)
}

/// Whether each string's UTF-8 form is at most `i32::MAX` bytes long.
pub open spec fn strings_fit(v: Seq<String>) -> bool {
    forall|i: int| 0 <= i < v.len() ==> encode_utf8((#[trigger] v[i])@).len() <= i32::MAX
}

/// A list of strings written one after another reads back as its texts.
pub proof fn lemma_read_strings(v: Seq<String>, acc: Seq<Seq<char>>, rest: Seq<u8>)
    requires
        strings_fit(v),
    ensures
        read_strings(strings_bytes(v) + rest, v.len(), acc) == Some((acc + texts(v), rest)),
    decreases v.len(),
{
    if v.len() == 0 {
        assert(strings_bytes(v) == Seq::<u8>::empty());
        assert(strings_bytes(v) + rest == rest);
        assert(acc + texts(v) == acc);
    } else {
        lemma_concat_map_first(v, string_enc());
        let tail = v.drop_first();
        assert(strings_fit(tail)) by {
            assert forall|i: int| 0 <= i < tail.len() implies encode_utf8((#[trigger] tail[i])@).len()
                <= i32::MAX by {
                assert(tail[i] == v[i + 1]);
            }
        }
        assert(strings_bytes(v) + rest == mc_string_bytes(v[0]@) + (strings_bytes(tail) + rest));
        lemma_mc_string_roundtrip(v[0]@, strings_bytes(tail) + rest);
        lemma_read_strings(tail, acc.push(v[0]@), rest);
        assert(acc.push(v[0]@) + texts(tail) =~= acc + texts(v));
    }
}

/// The fields of a join-game packet as a client reads them.
pub struct JoinGameFields {
    pub entity_id: i32,
    pub is_hardcore: bool,
    pub dimensions: Seq<Seq<char>>,
    pub max_players: i32,
    pub view_distance: i32,
    pub simulation_distance: i32,
    pub reduced_debug_info: bool,
    pub enable_respawn_screen: bool,
    pub do_limited_crafting: bool,
    pub dimension_type: i32,
    pub dimension_name: Seq<char>,
    pub hashed_seed: i64,
    pub gamemode: u8,
    pub previous_gamemode: i8,
    pub is_debug: bool,
    pub is_flat: bool,
    pub has_death_location: bool,
    pub portal_cooldown: i32,
    pub sea_level: i32,
    pub enforces_secure_chat: bool,
}

/// The fields that a join-game packet carries, with no death location and
/// secure chat not enforced.
pub open spec fn join_game_fields(p: JoinGamePacket) -> JoinGameFields {
    JoinGameFields {
        entity_id: p.entity_id,
        is_hardcore: p.is_hardcore,
        dimensions: texts(p.dimensions@),
        max_players: p.max_players.0,
        view_distance: p.view_distance.0,
        simulation_distance: p.simulation_distance.0,
        reduced_debug_info: p.reduced_debug_info,
        enable_respawn_screen: p.enable_respawn_screen,
        do_limited_crafting: p.do_limited_crafting,
        dimension_type: p.dimension_type.0,
        dimension_name: p.dimension_name@,
        hashed_seed: p.hashed_seed,
        gamemode: p.gamemode,
        previous_gamemode: p.previous_gamemode,
        is_debug: p.is_debug,
        is_flat: p.is_flat,
        has_death_location: false,
        portal_cooldown: p.portal_cooldown.0,
        sea_level: p.sea_level.0,
        enforces_secure_chat: false,
    }
}

/// A boolean byte as the client reads it.
pub open spec fn read_flag(b: u8) -> bool {
    b != 0
}

/// Reading the body of a join-game packet field by field, in protocol
/// order: the entity id (big-endian i32), the hardcore flag, the counted
/// dimension names, the VarInts max players, view distance and simulation
/// distance, three flags (reduced debug info, respawn screen, limited
/// crafting), the VarInt dimension type, the dimension name, the hashed
/// seed (big-endian i64), the game mode, the previous game mode, the debug
/// and flat flags, the death-location flag, the VarInts portal cooldown and
/// sea level, and the secure-chat flag. The fields and what follows them,
/// or None where the bytes do not hold them.
pub open spec fn read_join_game(s: Seq<u8>) -> Option<(JoinGameFields, Seq<u8>)> {
    if s.len() < 5 {
        None
    } else {
        match read_varint(s.skip(5)) {
            VarIntRead::Value { value: n, len: k } => if n < 0 {
                None
            } else {
                match read_strings(s.skip(5 + k), n as nat, Seq::empty()) {
                    Some((dims, r1)) => read_join_settings(
                        u32_from_be(s.take(4)) as i32,
                        read_flag(s[4]),
                        dims,
                        r1,
                    ),
                    None => None,
                }
            },
            _ => None,
        }
    }
}

/// Reading three VarInts one after another: their values and what is left.
pub open spec fn read_three_varints(s: Seq<u8>) -> Option<(i32, i32, i32, Seq<u8>)> {
    match read_varint(s) {
        VarIntRead::Value { value: a, len: k1 } => match read_varint(s.skip(k1 as int)) {
            VarIntRead::Value { value: b, len: k2 } => match read_varint(s.skip(k1 + k2)) {
                VarIntRead::Value { value: c, len: k3 } => Some((a, b, c, s.skip(k1 + k2 + k3))),
                _ => None,
            },
            _ => None,
        },
        _ => None,
    }
}

/// The world part of a join game as a client reads it.
pub struct JoinWorld {
    pub dimension_type: i32,
    pub dimension_name: Seq<char>,
    pub hashed_seed: i64,
    pub gamemode: u8,
    pub previous_gamemode: i8,
    pub is_debug: bool,
    pub is_flat: bool,
    pub has_death_location: bool,
}

/// Reading the world part: the VarInt dimension type, the dimension name,
/// the big-endian seed, the two game-mode bytes, the debug, flat and
/// death-location flags.
pub open spec fn read_join_world(s: Seq<u8>) -> Option<(JoinWorld, Seq<u8>)> {
    match read_varint(s) {
        VarIntRead::Value { value: dimension_type, len: k } => match read_mc_string(s.skip(k as int)) {
            Some((Ok(dimension_name), r)) => if r.len() < 13 {
                None
            } else {
                Some(
                    (
                        JoinWorld {
                            dimension_type,
                            dimension_name,
                            hashed_seed: u64_from_be(r.take(8)) as i64,
                            gamemode: r[8],
                            previous_gamemode: r[9] as i8,
                            is_debug: read_flag(r[10]),
                            is_flat: read_flag(r[11]),
                            has_death_location: read_flag(r[12]),
                        },
                        r.skip(13),
                    ),
                )
            },
            _ => None,
        },
        _ => None,
    }
}

/// Reading the tail: the VarInts portal cooldown and sea level, and the
/// secure-chat flag.
pub open spec fn read_join_tail(s: Seq<u8>) -> Option<(i32, i32, bool, Seq<u8>)> {
    match read_varint(s) {
        VarIntRead::Value { value: a, len: k1 } => match read_varint(s.skip(k1 as int)) {
            VarIntRead::Value { value: b, len: k2 } => {
                let r = s.skip(k1 + k2);
                if r.len() < 1 {
                    None
                } else {
                    Some((a, b, read_flag(r[0]), r.skip(1)))
                }
            },
            _ => None,
        },
        _ => None,
    }
}

/// The rest of `read_join_game`, from max players on.
pub open spec fn read_join_settings(
    entity_id: i32,
    is_hardcore: bool,
    dims: Seq<Seq<char>>,
    r1: Seq<u8>,
) -> Option<(JoinGameFields, Seq<u8>)> {
    match read_three_varints(r1) {
        Some((max_players, view_distance, simulation_distance, r2)) => if r2.len() < 3 {
            None
        } else {
            match read_join_world(r2.skip(3)) {
                Some((w, r3)) => match read_join_tail(r3) {
                    Some((portal_cooldown, sea_level, secure, r4)) => Some(
                        (
                            JoinGameFields {
                                entity_id,
                                is_hardcore,
                                dimensions: dims,
                                max_players,
                                view_distance,
                                simulation_distance,
                                reduced_debug_info: read_flag(r2[0]),
                                enable_respawn_screen: read_flag(r2[1]),
                                do_limited_crafting: read_flag(r2[2]),
                                dimension_type: w.dimension_type,
                                dimension_name: w.dimension_name,
                                hashed_seed: w.hashed_seed,
                                gamemode: w.gamemode,
                                previous_gamemode: w.previous_gamemode,
                                is_debug: w.is_debug,
                                is_flat: w.is_flat,
                                has_death_location: w.has_death_location,
                                portal_cooldown,
                                sea_level,
                                enforces_secure_chat: secure,
                            },
                            r4,
                        ),
                    ),
                    None => None,
                },
                None => None,
            }
        },
        None => None,
    }
}

/// A join-game packet that the server writes is read back by the client
/// field by field as the packet's own fields, in protocol order, and
/// whatever follows the body is left: in particular the VarInt after max
/// players is the view distance and the next one the simulation distance.
/// This holds where there are at most `i32::MAX` dimension names and every
/// text is at most `i32::MAX` bytes long in UTF-8.
#[verifier::rlimit(60)]
pub proof fn lemma_join_game_read_back(p: JoinGamePacket, rest: Seq<u8>)
    requires
        p.dimensions@.len() <= i32::MAX,
        strings_fit(p.dimensions@),
        encode_utf8(p.dimension_name@).len() <= i32::MAX,
    ensures
        read_join_game(p.encoded() + rest) == Some((join_game_fields(p), rest)),
{
    let n: i32 = (p.dimensions@.len() as usize) as i32;
    assert(wire_len(p.dimensions@.len()) == n as u32);
    let tail = p.settings_bytes() + p.world_bytes() + p.tail_bytes() + rest;
    let b = p.encoded() + rest;
    let e = p.entity_id;
    let strs = strings_bytes(p.dimensions@);
    let after_flag = varint_bytes(n as u32) + (strs + tail);
    let body = seq![flag_byte(p.is_hardcore)] + after_flag;
    assert(p.encoded() == p.head_bytes() + p.settings_bytes() + p.world_bytes() + p.tail_bytes());
    assert(p.head_bytes() == be_u32(e as u32) + seq![flag_byte(p.is_hardcore)] + varint_bytes(n as u32)
        + strs);
    assert(b =~= be_u32(e as u32) + body);
    assert(b.take(4) =~= be_u32(e as u32));
    assert(b.skip(4) =~= body);
    assert(b.skip(5) =~= after_flag);
    lemma_be_roundtrip(0, e as u32, 0);
    assert(((e as u32) as i32) == e) by (bit_vector);
    assert(b[4] == body[0]);
    lemma_varint_roundtrip(n, strings_bytes(p.dimensions@) + tail);
    let k = varint_bytes(n as u32).len();
    assert(b.skip((5 + k) as int) == strings_bytes(p.dimensions@) + tail);
    lemma_read_strings(p.dimensions@, Seq::empty(), tail);
    assert(Seq::<Seq<char>>::empty() + texts(p.dimensions@) == texts(p.dimensions@));
    lemma_join_settings_read_back(p, rest);
}

proof fn lemma_three_varints_read_back(a: i32, b: i32, c: i32, rest: Seq<u8>)
    ensures
        read_three_varints(varint_bytes(a as u32) + varint_bytes(b as u32) + varint_bytes(c as u32)
            + rest) == Some((a, b, c, rest)),
{
    let s = varint_bytes(a as u32) + varint_bytes(b as u32) + varint_bytes(c as u32) + rest;
    assert(s == varint_bytes(a as u32) + (varint_bytes(b as u32) + (varint_bytes(c as u32) + rest)));
    lemma_varint_roundtrip(a, varint_bytes(b as u32) + (varint_bytes(c as u32) + rest));
    let k1 = varint_bytes(a as u32).len();
    assert(s.skip(k1 as int) == varint_bytes(b as u32) + (varint_bytes(c as u32) + rest));
    lemma_varint_roundtrip(b, varint_bytes(c as u32) + rest);
    let k2 = varint_bytes(b as u32).len();
    assert(s.skip((k1 + k2) as int) == varint_bytes(c as u32) + rest);
    lemma_varint_roundtrip(c, rest);
    let k3 = varint_bytes(c as u32).len();
    assert(s.skip((k1 + k2 + k3) as int) == rest);
}

proof fn lemma_join_world_read_back(p: JoinGamePacket, rest: Seq<u8>)
    requires
        encode_utf8(p.dimension_name@).len() <= i32::MAX,
    ensures
        read_join_world(p.world_bytes() + rest) == Some(
            (
                JoinWorld {
                    dimension_type: p.dimension_type.0,
                    dimension_name: p.dimension_name@,
                    hashed_seed: p.hashed_seed,
                    gamemode: p.gamemode,
                    previous_gamemode: p.previous_gamemode,
                    is_debug: p.is_debug,
                    is_flat: p.is_flat,
                    has_death_location: false,
                },
                rest,
            ),
        ),
{
    let seed = p.hashed_seed;
    let mode_bytes = seq![
        p.gamemode,
        p.previous_gamemode as u8,
        flag_byte(p.is_debug),
        flag_byte(p.is_flat),
        0u8,
    ];
    let r4 = be_u64(seed as u64) + mode_bytes + rest;
    let s = p.world_bytes() + rest;
    let dt = p.dimension_type.0;
    assert(s == varint_bytes(dt as u32) + (mc_string_bytes(p.dimension_name@) + r4));
    lemma_varint_roundtrip(dt, mc_string_bytes(p.dimension_name@) + r4);
    let k4 = varint_bytes(dt as u32).len();
    assert(s.skip(k4 as int) == mc_string_bytes(p.dimension_name@) + r4);
    lemma_mc_string_roundtrip(p.dimension_name@, r4);
    assert(r4.take(8) == be_u64(seed as u64));
    lemma_be_roundtrip(0, 0, seed as u64);
    assert(((seed as u64) as i64) == seed) by (bit_vector);
    let pg = p.previous_gamemode;
    assert(((pg as u8) as i8) == pg) by (bit_vector);
    assert(r4.skip(13) == rest);
    assert(read_flag(flag_byte(p.is_debug)) == p.is_debug);
    assert(read_flag(flag_byte(p.is_flat)) == p.is_flat);
}

proof fn lemma_join_tail_read_back(p: JoinGamePacket, rest: Seq<u8>)
    ensures
        read_join_tail(p.tail_bytes() + rest) == Some(
            (p.portal_cooldown.0, p.sea_level.0, false, rest),
        ),
{
    let pc = p.portal_cooldown.0;
    let sl = p.sea_level.0;
    let s = p.tail_bytes() + rest;
    assert(s == varint_bytes(pc as u32) + (varint_bytes(sl as u32) + (seq![0u8] + rest)));
    lemma_varint_roundtrip(pc, varint_bytes(sl as u32) + (seq![0u8] + rest));
    let k5 = varint_bytes(pc as u32).len();
    assert(s.skip(k5 as int) == varint_bytes(sl as u32) + (seq![0u8] + rest));
    lemma_varint_roundtrip(sl, seq![0u8] + rest);
    let k6 = varint_bytes(sl as u32).len();
    assert(s.skip((k5 + k6) as int) == seq![0u8] + rest);
    assert((seq![0u8] + rest).skip(1) == rest);
}

proof fn lemma_join_settings_read_back(p: JoinGamePacket, rest: Seq<u8>)
    requires
        encode_utf8(p.dimension_name@).len() <= i32::MAX,
    ensures
        read_join_settings(
            p.entity_id,
            p.is_hardcore,
            texts(p.dimensions@),
            p.settings_bytes() + p.world_bytes() + p.tail_bytes() + rest,
        ) == Some((join_game_fields(p), rest)),
{
    let flags = seq![
        flag_byte(p.reduced_debug_info),
        flag_byte(p.enable_respawn_screen),
        flag_byte(p.do_limited_crafting),
    ];
    let r3 = p.world_bytes() + (p.tail_bytes() + rest);
    let r2 = flags + r3;
    let r1 = p.settings_bytes() + p.world_bytes() + p.tail_bytes() + rest;
    assert(r1 == varint_bytes(p.max_players.0 as u32) + varint_bytes(p.view_distance.0 as u32)
        + varint_bytes(p.simulation_distance.0 as u32) + r2);
    lemma_three_varints_read_back(p.max_players.0, p.view_distance.0, p.simulation_distance.0, r2);
    assert(r2.skip(3) == r3);
    lemma_join_world_read_back(p, p.tail_bytes() + rest);
    lemma_join_tail_read_back(p, rest);
    assert(read_flag(flag_byte(p.reduced_debug_info)) == p.reduced_debug_info);
    assert(read_flag(flag_byte(p.enable_respawn_screen)) == p.enable_respawn_screen);
    assert(read_flag(flag_byte(p.do_limited_crafting)) == p.do_limited_crafting);
}

/// Reading `count` big-endian longs after those already read (`acc`).
pub open spec fn read_longs(s: Seq<u8>, count: nat, acc: Seq<i64>) -> Option<(Seq<i64>, Seq<u8>)>
    decreases count,
{
    if count == 0 {
        Some((acc, s))
    } else if s.len() < 8 {
        None
    } else {
        read_longs(s.skip(8), (count - 1) as nat, acc.push(u64_from_be(s.take(8)) as i64))
    }
}

/// Longs written one after another read back as themselves.
pub proof fn lemma_read_longs(v: Seq<i64>, acc: Seq<i64>, rest: Seq<u8>)
    ensures
        read_longs(longs_bytes(v) + rest, v.len(), acc) == Some((acc + v, rest)),
    decreases v.len(),
{
    if v.len() == 0 {
        assert(longs_bytes(v) == Seq::<u8>::empty());
        assert(longs_bytes(v) + rest == rest);
        assert(acc + v == acc);
    } else {
        lemma_concat_map_first(v, long_enc());
        let tail = v.drop_first();
        let s = longs_bytes(v) + rest;
        assert(s == be_u64(v[0] as u64) + (longs_bytes(tail) + rest));
        assert(s.take(8) == be_u64(v[0] as u64));
        assert(s.skip(8) == longs_bytes(tail) + rest);
        lemma_be_roundtrip(0, 0, v[0] as u64);
        let x = v[0];
        assert(((x as u64) as i64) == x) by (bit_vector);
        lemma_read_longs(tail, acc.push(v[0]), rest);
        assert(acc.push(v[0]) + tail =~= acc + v);
    }
}

/// Reading a VarInt byte count and that many bytes.
pub open spec fn read_counted_bytes(s: Seq<u8>) -> Option<(Seq<u8>, Seq<u8>)> {
    match read_varint(s) {
        VarIntRead::Value { value: n, len: k } => {
            let r = s.skip(k as int);
            if n < 0 || r.len() < n {
                None
            } else {
                Some((r.take(n as int), r.skip(n as int)))
            }
        },
        _ => None,
    }
}

/// The fields of a chunk-column packet as a client reads them, up to its
/// light data.
pub struct MapChunkFields {
    pub x: i32,
    pub z: i32,
    pub heightmap_count: i32,
    pub heightmap_type: i32,
    pub heightmap: Seq<i64>,
    pub data: Seq<u8>,
}

/// Reading a chunk-column packet: x and z (big-endian i32), the VarInt
/// number of heightmaps, the heightmap's VarInt type, its VarInt count of
/// longs and the longs, then the counted section data; what is left is the
/// light data and whatever follows.
pub open spec fn read_map_chunk(s: Seq<u8>) -> Option<(MapChunkFields, Seq<u8>)> {
    if s.len() < 8 {
        None
    } else {
        match read_three_varints(s.skip(8)) {
            Some((count, kind, n, r)) => if n < 0 {
                None
            } else {
                match read_longs(r, n as nat, Seq::empty()) {
                    Some((longs, r2)) => match read_counted_bytes(r2) {
                        Some((data, r3)) => Some(
                            (
                                MapChunkFields {
                                    x: u32_from_be(s.take(4)) as i32,
                                    z: u32_from_be(s.skip(4).take(4)) as i32,
                                    heightmap_count: count,
                                    heightmap_type: kind,
                                    heightmap: longs,
                                    data,
                                },
                                r3,
                            ),
                        ),
                        None => None,
                    },
                    None => None,
                }
            },
            None => None,
        }
    }
}

/// A chunk-column packet is read back as its own position (x first, then
/// z), one motion-blocking heightmap (type 4) holding its longs, and its
/// section data; the light data follows. This holds where the heightmap
/// and the data each have at most `i32::MAX` elements.
#[verifier::rlimit(50)]
pub proof fn lemma_map_chunk_read_back(p: MapChunkPacket, rest: Seq<u8>)
    requires
        p.motion_blocking_heightmap@.len() <= i32::MAX,
        p.chunk_data@.len() <= i32::MAX,
    ensures
        read_map_chunk(p.encoded() + rest) == Some(
            (
                MapChunkFields {
                    x: p.x,
                    z: p.z,
                    heightmap_count: 1,
                    heightmap_type: 4,
                    heightmap: p.motion_blocking_heightmap@,
                    data: p.chunk_data@,
                },
                MapChunkPacket::light_bytes() + rest,
            ),
        ),
{
    let hm = p.motion_blocking_heightmap@;
    let data = p.chunk_data@;
    let n: i32 = (hm.len() as usize) as i32;
    let m: i32 = (data.len() as usize) as i32;
    assert(wire_len(hm.len()) == n as u32);
    assert(wire_len(data.len()) == m as u32);
    let after = MapChunkPacket::light_bytes() + rest;
    let r3 = varint_bytes(m as u32) + (data + after);
    let r = longs_bytes(hm) + r3;
    let s = p.encoded() + rest;
    assert(s =~= be_u32(p.x as u32) + (be_u32(p.z as u32) + (varint_bytes(1) + varint_bytes(4)
        + varint_bytes(n as u32) + r)));
    assert(s.take(4) =~= be_u32(p.x as u32));
    assert(s.skip(4).take(4) =~= be_u32(p.z as u32));
    lemma_be_roundtrip(0, p.x as u32, 0);
    lemma_be_roundtrip(0, p.z as u32, 0);
    let x = p.x;
    let z = p.z;
    assert(((x as u32) as i32) == x) by (bit_vector);
    assert(((z as u32) as i32) == z) by (bit_vector);
    assert(s.skip(8) =~= varint_bytes(1) + varint_bytes(4) + varint_bytes(n as u32) + r);
    lemma_three_varints_read_back(1, 4, n, r);
    lemma_read_longs(hm, Seq::empty(), r3);
    assert(Seq::<i64>::empty() + hm == hm);
    lemma_varint_roundtrip(m, data + after);
    let k = varint_bytes(m as u32).len();
    assert(r3.skip(k as int) == data + after);
    assert((data + after).take(m as int) == data);
    assert((data + after).skip(m as int) == after);
}

/// Reading a login success: the 16 bytes of the UUID, the user name, and
/// the VarInt number of properties.
pub open spec fn read_login_success(s: Seq<u8>) -> Option<(Seq<u8>, Seq<char>, i32, Seq<u8>)> {
    if s.len() < 16 {
        None
    } else {
        match read_mc_string(s.skip(16)) {
            Some((Ok(name), r)) => match read_varint(r) {
                VarIntRead::Value { value: props, len: k } => Some(
                    (s.take(16), name, props, r.skip(k as int)),
                ),
                _ => None,
            },
            _ => None,
        }
    }
}

/// A login success is read back as the player's UUID, then the player's
/// name, then no properties (name of at most `i32::MAX` UTF-8 bytes).
pub proof fn lemma_login_success_read_back(p: LoginSuccessPacket, rest: Seq<u8>)
    requires
        encode_utf8(p.username@).len() <= i32::MAX,
    ensures
        read_login_success(p.encoded() + rest) == Some((p.uuid@, p.username@, 0i32, rest)),
{
    let tail = varint_bytes(0) + rest;
    let s = p.encoded() + rest;
    assert(s =~= p.uuid@ + (mc_string_bytes(p.username@) + tail));
    assert(s.take(16) =~= p.uuid@);
    assert(s.skip(16) =~= mc_string_bytes(p.username@) + tail);
    lemma_mc_string_roundtrip(p.username@, tail);
    lemma_varint_roundtrip(0, rest);
    assert(tail.skip(varint_bytes(0).len() as int) == rest);
}

/// Reading two VarInts one after another.
pub open spec fn read_two_varints(s: Seq<u8>) -> Option<(i32, i32, Seq<u8>)> {
    match read_varint(s) {
        VarIntRead::Value { value: a, len: k1 } => match read_varint(s.skip(k1 as int)) {
            VarIntRead::Value { value: b, len: k2 } => Some((a, b, s.skip(k1 + k2))),
            _ => None,
        },
        _ => None,
    }
}

/// The view centre is read back as its chunk x, then its chunk z.
pub proof fn lemma_view_position_read_back(p: UpdateViewPositionPacket, rest: Seq<u8>)
    ensures
        read_two_varints(p.encoded() + rest) == Some((p.chunk_x.0, p.chunk_z.0, rest)),
{
    let s = p.encoded() + rest;
    let x = p.chunk_x.0;
    let z = p.chunk_z.0;
    assert(s =~= varint_bytes(x as u32) + (varint_bytes(z as u32) + rest));
    lemma_varint_roundtrip(x, varint_bytes(z as u32) + rest);
    let k1 = varint_bytes(x as u32).len();
    assert(s.skip(k1 as int) == varint_bytes(z as u32) + rest);
    lemma_varint_roundtrip(z, rest);
    let k2 = varint_bytes(z as u32).len();
    assert(s.skip((k1 + k2) as int) == rest);
}

/// A chunk-data packet is read back as its chunk x (big-endian i32), then
/// its chunk z, then its data.
pub proof fn lemma_chunk_data_read_back(p: ChunkDataPacket, rest: Seq<u8>)
    ensures
        u32_from_be((p.encoded() + rest).take(4)) as i32 == p.chunk_x,
        u32_from_be((p.encoded() + rest).skip(4).take(4)) as i32 == p.chunk_z,
        (p.encoded() + rest).skip(8) == p.data@ + rest,
{
    let s = p.encoded() + rest;
    assert(s =~= be_u32(p.chunk_x as u32) + (be_u32(p.chunk_z as u32) + (p.data@ + rest)));
    assert(s.take(4) =~= be_u32(p.chunk_x as u32));
    assert(s.skip(4).take(4) =~= be_u32(p.chunk_z as u32));
    assert(s.skip(8) =~= p.data@ + rest);
    lemma_be_roundtrip(0, p.chunk_x as u32, 0);
    lemma_be_roundtrip(0, p.chunk_z as u32, 0);
    let x = p.chunk_x;
    let z = p.chunk_z;
    assert(((x as u32) as i32) == x) by (bit_vector);
    assert(((z as u32) as i32) == z) by (bit_vector);
}

/// Reading a counted list of strings: its VarInt count, then the strings.
pub open spec fn read_string_list(s: Seq<u8>) -> Option<(Seq<Seq<char>>, Seq<u8>)> {
    match read_varint(s) {
        VarIntRead::Value { value: n, len: k } => if n < 0 {
            None
        } else {
            read_strings(s.skip(k as int), n as nat, Seq::empty())
        },
        _ => None,
    }
}

/// The feature flags are read back as the packet's own list of features
/// (at most `i32::MAX` of them, each at most `i32::MAX` UTF-8 bytes).
pub proof fn lemma_feature_flags_read_back(p: FeatureFlagsPacket, rest: Seq<u8>)
    requires
        p.features@.len() <= i32::MAX,
        strings_fit(p.features@),
    ensures
        read_string_list(p.encoded() + rest) == Some((texts(p.features@), rest)),
{
    let n: i32 = (p.features@.len() as usize) as i32;
    assert(wire_len(p.features@.len()) == n as u32);
    let s = p.encoded() + rest;
    assert(s =~= varint_bytes(n as u32) + (strings_bytes(p.features@) + rest));
    lemma_varint_roundtrip(n, strings_bytes(p.features@) + rest);
    assert(s.skip(varint_bytes(n as u32).len() as int) == strings_bytes(p.features@) + rest);
    lemma_read_strings(p.features@, Seq::empty(), rest);
    assert(Seq::<Seq<char>>::empty() + texts(p.features@) == texts(p.features@));
}

/// Reading `count` registry entries that carry no data: each a key and a
/// presence flag of 0 (an entry with data is not read here, its NBT not
/// being parsed).
pub open spec fn read_bare_entries(s: Seq<u8>, count: nat, acc: Seq<Seq<char>>) -> Option<
    (Seq<Seq<char>>, Seq<u8>),
>
    decreases count,
{
    if count == 0 {
        Some((acc, s))
    } else {
        match read_mc_string(s) {
            Some((Ok(key), r)) => if r.len() >= 1 && r[0] == 0 {
                read_bare_entries(r.skip(1), (count - 1) as nat, acc.push(key))
            } else {
                None
            },
            _ => None,
        }
    }
}

/// Reading a registry whose entries carry no data: its id, then the
/// counted entries' keys.
pub open spec fn read_bare_registry(s: Seq<u8>) -> Option<(Seq<char>, Seq<Seq<char>>, Seq<u8>)> {
    match read_mc_string(s) {
        Some((Ok(id), r)) => match read_varint(r) {
            VarIntRead::Value { value: n, len: k } => if n < 0 {
                None
            } else {
                match read_bare_entries(r.skip(k as int), n as nat, Seq::empty()) {
                    Some((keys, r2)) => Some((id, keys, r2)),
                    None => None,
                }
            },
            _ => None,
        },
        _ => None,
    }
}

/// The keys of registry entries.
pub open spec fn entry_keys(v: Seq<RegistryEntry>) -> Seq<Seq<char>> {
    v.map_values(|e: RegistryEntry| e.key@)
}

/// Whether entries carry no data and have keys of at most `i32::MAX` UTF-8
/// bytes.
pub open spec fn bare_entries(v: Seq<RegistryEntry>) -> bool {
    forall|i: int|
        0 <= i < v.len() ==> (#[trigger] v[i]).data is None && encode_utf8(v[i].key@).len() <= i32::MAX
}

proof fn lemma_read_bare_entries(v: Seq<RegistryEntry>, acc: Seq<Seq<char>>, rest: Seq<u8>)
    requires
        bare_entries(v),
    ensures
        read_bare_entries(concat_map(v, entry_enc()) + rest, v.len(), acc) == Some(
            (acc + entry_keys(v), rest),
        ),
    decreases v.len(),
{
    if v.len() == 0 {
        assert(concat_map(v, entry_enc()) == Seq::<u8>::empty());
        assert(concat_map(v, entry_enc()) + rest == rest);
        assert(acc + entry_keys(v) == acc);
    } else {
        lemma_concat_map_first(v, entry_enc());
        let tail = v.drop_first();
        assert(bare_entries(tail)) by {
            assert forall|i: int| 0 <= i < tail.len() implies (#[trigger] tail[i]).data is None
                && encode_utf8(tail[i].key@).len() <= i32::MAX by {
                assert(tail[i] == v[i + 1]);
            }
        }
        assert(v[0].data is None);
        assert(entry_bytes(v[0]) == mc_string_bytes(v[0].key@) + seq![0u8]);
        let after = concat_map(tail, entry_enc()) + rest;
        assert(concat_map(v, entry_enc()) + rest == mc_string_bytes(v[0].key@) + (seq![0u8] + after));
        lemma_mc_string_roundtrip(v[0].key@, seq![0u8] + after);
        assert((seq![0u8] + after)[0] == 0);
        assert((seq![0u8] + after).skip(1) == after);
        lemma_read_bare_entries(tail, acc.push(v[0].key@), rest);
        assert(acc.push(v[0].key@) + entry_keys(tail) =~= acc + entry_keys(v));
    }
}

/// A registry whose entries carry no data (as every registry the server
/// sends) is read back as its id, then its entries' keys in order (at most
/// `i32::MAX` entries; texts of at most `i32::MAX` UTF-8 bytes).
pub proof fn lemma_bare_registry_read_back(p: RegistryDataPacket, rest: Seq<u8>)
    requires
        encode_utf8(p.registry_id@).len() <= i32::MAX,
        p.entries@.len() <= i32::MAX,
        bare_entries(p.entries@),
    ensures
        read_bare_registry(p.encoded() + rest) == Some(
            (p.registry_id@, entry_keys(p.entries@), rest),
        ),
{
    let n: i32 = (p.entries@.len() as usize) as i32;
    assert(wire_len(p.entries@.len()) == n as u32);
    let body = concat_map(p.entries@, entry_enc());
    let r = varint_bytes(n as u32) + (body + rest);
    let s = p.encoded() + rest;
    assert(s =~= mc_string_bytes(p.registry_id@) + r);
    lemma_mc_string_roundtrip(p.registry_id@, r);
    lemma_varint_roundtrip(n, body + rest);
    assert(r.skip(varint_bytes(n as u32).len() as int) == body + rest);
    lemma_read_bare_entries(p.entries@, Seq::empty(), rest);
    assert(Seq::<Seq<char>>::empty() + entry_keys(p.entries@) == entry_keys(p.entries@));
}

/// Reading `count` VarInt ids after those already read.
pub open spec fn read_ids(s: Seq<u8>, count: nat, acc: Seq<i32>) -> Option<(Seq<i32>, Seq<u8>)>
    decreases count,
{
    if count == 0 {
        Some((acc, s))
    } else {
        match read_varint(s) {
            VarIntRead::Value { value: id, len: k } => read_ids(
                s.skip(k as int),
                (count - 1) as nat,
                acc.push(id),
            ),
            _ => None,
        }
    }
}

proof fn lemma_read_ids(v: Seq<i32>, acc: Seq<i32>, rest: Seq<u8>)
    ensures
        read_ids(ids_bytes(v) + rest, v.len(), acc) == Some((acc + v, rest)),
    decreases v.len(),
{
    if v.len() == 0 {
        assert(ids_bytes(v) == Seq::<u8>::empty());
        assert(ids_bytes(v) + rest == rest);
        assert(acc + v == acc);
    } else {
        lemma_concat_map_first(v, id_enc());
        let tail = v.drop_first();
        let s = ids_bytes(v) + rest;
        assert(s == varint_bytes(v[0] as u32) + (ids_bytes(tail) + rest));
        lemma_varint_roundtrip(v[0], ids_bytes(tail) + rest);
        assert(s.skip(varint_bytes(v[0] as u32).len() as int) == ids_bytes(tail) + rest);
        lemma_read_ids(tail, acc.push(v[0]), rest);
        assert(acc.push(v[0]) + tail =~= acc + v);
    }
}

/// A tag as the client reads it: its name and its ids.
pub type TagView = (Seq<char>, Seq<i32>);

/// Reading a tag: its name, its VarInt count of ids, and the ids.
pub open spec fn read_tag(s: Seq<u8>) -> Option<(TagView, Seq<u8>)> {
    match read_mc_string(s) {
        Some((Ok(name), r)) => match read_varint(r) {
            VarIntRead::Value { value: n, len: k } => if n < 0 {
                None
            } else {
                match read_ids(r.skip(k as int), n as nat, Seq::empty()) {
                    Some((ids, r2)) => Some(((name, ids), r2)),
                    None => None,
                }
            },
            _ => None,
        },
        _ => None,
    }
}

/// Reading `count` tags after those already read.
pub open spec fn read_tags(s: Seq<u8>, count: nat, acc: Seq<TagView>) -> Option<(Seq<TagView>, Seq<u8>)>
    decreases count,
{
    if count == 0 {
        Some((acc, s))
    } else {
        match read_tag(s) {
            Some((tag, r)) => read_tags(r, (count - 1) as nat, acc.push(tag)),
            None => None,
        }
    }
}

/// Reading a counted list of tags.
pub open spec fn read_tag_list(s: Seq<u8>) -> Option<(Seq<TagView>, Seq<u8>)> {
    match read_varint(s) {
        VarIntRead::Value { value: n, len: k } => if n < 0 {
            None
        } else {
            read_tags(s.skip(k as int), n as nat, Seq::empty())
        },
        _ => None,
    }
}

/// The names and ids of tags.
pub open spec fn tags_view(v: Seq<(String, Vec<i32>)>) -> Seq<TagView> {
    v.map_values(|t: (String, Vec<i32>)| (t.0@, t.1@))
}

/// Whether tags fit their wire form: at most `i32::MAX` ids each and names
/// of at most `i32::MAX` UTF-8 bytes.
pub open spec fn tags_fit(v: Seq<(String, Vec<i32>)>) -> bool {
    forall|i: int|
        0 <= i < v.len() ==> (#[trigger] v[i]).1@.len() <= i32::MAX && encode_utf8(v[i].0@).len()
            <= i32::MAX
}

proof fn lemma_read_tag(t0: (String, Vec<i32>), after: Seq<u8>)
    requires
        t0.1@.len() <= i32::MAX,
        encode_utf8(t0.0@).len() <= i32::MAX,
    ensures
        read_tag(tag_bytes(t0) + after) == Some(((t0.0@, t0.1@), after)),
{
    let n: i32 = (t0.1@.len() as usize) as i32;
    assert(wire_len(t0.1@.len()) == n as u32);
    let r = varint_bytes(n as u32) + (ids_bytes(t0.1@) + after);
    assert(tag_bytes(t0) + after == mc_string_bytes(t0.0@) + r);
    lemma_mc_string_roundtrip(t0.0@, r);
    lemma_varint_roundtrip(n, ids_bytes(t0.1@) + after);
    assert(r.skip(varint_bytes(n as u32).len() as int) == ids_bytes(t0.1@) + after);
    lemma_read_ids(t0.1@, Seq::empty(), after);
    assert(Seq::<i32>::empty() + t0.1@ == t0.1@);
}

proof fn lemma_read_tags(v: Seq<(String, Vec<i32>)>, acc: Seq<TagView>, rest: Seq<u8>)
    requires
        tags_fit(v),
    ensures
        read_tags(concat_map(v, tag_enc()) + rest, v.len(), acc) == Some((acc + tags_view(v), rest)),
    decreases v.len(),
{
    if v.len() == 0 {
        assert(concat_map(v, tag_enc()) == Seq::<u8>::empty());
        assert(concat_map(v, tag_enc()) + rest == rest);
        assert(acc + tags_view(v) == acc);
    } else {
        lemma_concat_map_first(v, tag_enc());
        let tail = v.drop_first();
        assert(tags_fit(tail)) by {
            assert forall|i: int| 0 <= i < tail.len() implies (#[trigger] tail[i]).1@.len() <= i32::MAX
                && encode_utf8(tail[i].0@).len() <= i32::MAX by {
                assert(tail[i] == v[i + 1]);
            }
        }
        let t0 = v[0];
        let after = concat_map(tail, tag_enc()) + rest;
        assert(concat_map(v, tag_enc()) + rest == tag_bytes(t0) + after);
        lemma_read_tag(t0, after);
        lemma_read_tags(tail, acc.push((t0.0@, t0.1@)), rest);
        assert(acc.push((t0.0@, t0.1@)) + tags_view(tail) =~= acc + tags_view(v));
    }
}

/// A counted list of tags reads back as the tags' names and ids, in order
/// (at most `i32::MAX` tags, each fitting its wire form).
pub proof fn lemma_tag_list_read_back(v: Seq<(String, Vec<i32>)>, rest: Seq<u8>)
    requires
        v.len() <= i32::MAX,
        tags_fit(v),
    ensures
        read_tag_list(tag_list_bytes(v) + rest) == Some((tags_view(v), rest)),
{
    let n: i32 = (v.len() as usize) as i32;
    assert(wire_len(v.len()) == n as u32);
    let s = tag_list_bytes(v) + rest;
    assert(s == varint_bytes(n as u32) + (concat_map(v, tag_enc()) + rest));
    lemma_varint_roundtrip(n, concat_map(v, tag_enc()) + rest);
    assert(s.skip(varint_bytes(n as u32).len() as int) == concat_map(v, tag_enc()) + rest);
    lemma_read_tags(v, Seq::empty(), rest);
    assert(Seq::<TagView>::empty() + tags_view(v) == tags_view(v));
}

/// The update-tags packet reads back as its own tags, in order.
pub proof fn lemma_update_tags_read_back(p: UpdateTagsPacket, rest: Seq<u8>)
    requires
        p.tags@.len() <= i32::MAX,
        tags_fit(p.tags@),
    ensures
        read_tag_list(p.encoded() + rest) == Some((tags_view(p.tags@), rest)),
{
    lemma_tag_list_read_back(p.tags@, rest);
}

/// Reading `count` registries of tags (each a registry name and a counted
/// list of tags) after those already read.
pub open spec fn read_registry_tags(s: Seq<u8>, count: nat, acc: Seq<(Seq<char>, Seq<TagView>)>) -> Option<
    (Seq<(Seq<char>, Seq<TagView>)>, Seq<u8>),
>
    decreases count,
{
    if count == 0 {
        Some((acc, s))
    } else {
        match read_mc_string(s) {
            Some((Ok(name), r)) => match read_tag_list(r) {
                Some((tags, r2)) => read_registry_tags(r2, (count - 1) as nat, acc.push((name, tags))),
                None => None,
            },
            _ => None,
        }
    }
}

/// Reading the tags packet: the VarInt count of registries, then each
/// registry's name and tags.
pub open spec fn read_tags_packet(s: Seq<u8>) -> Option<(Seq<(Seq<char>, Seq<TagView>)>, Seq<u8>)> {
    match read_varint(s) {
        VarIntRead::Value { value: n, len: k } => if n < 0 {
            None
        } else {
            read_registry_tags(s.skip(k as int), n as nat, Seq::empty())
        },
        _ => None,
    }
}

/// The registry names and tags of a tags packet.
pub open spec fn registry_tags_view(v: Seq<(String, Vec<(String, Vec<i32>)>)>) -> Seq<
    (Seq<char>, Seq<TagView>),
> {
    v.map_values(|r: (String, Vec<(String, Vec<i32>)>)| (r.0@, tags_view(r.1@)))
}

/// Whether registries of tags fit their wire form.
pub open spec fn registry_tags_fit(v: Seq<(String, Vec<(String, Vec<i32>)>)>) -> bool {
    forall|i: int|
        0 <= i < v.len() ==> encode_utf8((#[trigger] v[i]).0@).len() <= i32::MAX && v[i].1@.len()
            <= i32::MAX && tags_fit(v[i].1@)
}

proof fn lemma_read_registry_tags(
    v: Seq<(String, Vec<(String, Vec<i32>)>)>,
    acc: Seq<(Seq<char>, Seq<TagView>)>,
    rest: Seq<u8>,
)
    requires
        registry_tags_fit(v),
    ensures
        read_registry_tags(concat_map(v, registry_tags_enc()) + rest, v.len(), acc) == Some(
            (acc + registry_tags_view(v), rest),
        ),
    decreases v.len(),
{
    if v.len() == 0 {
        assert(concat_map(v, registry_tags_enc()) == Seq::<u8>::empty());
        assert(concat_map(v, registry_tags_enc()) + rest == rest);
        assert(acc + registry_tags_view(v) == acc);
    } else {
        lemma_concat_map_first(v, registry_tags_enc());
        let tail = v.drop_first();
        assert(registry_tags_fit(tail)) by {
            assert forall|i: int| 0 <= i < tail.len() implies encode_utf8((#[trigger] tail[i]).0@).len()
                <= i32::MAX && tail[i].1@.len() <= i32::MAX && tags_fit(tail[i].1@) by {
                assert(tail[i] == v[i + 1]);
            }
        }
        let r0 = v[0];
        let after = concat_map(tail, registry_tags_enc()) + rest;
        assert(concat_map(v, registry_tags_enc()) + rest == mc_string_bytes(r0.0@) + (tag_list_bytes(r0.1@)
            + after));
        lemma_mc_string_roundtrip(r0.0@, tag_list_bytes(r0.1@) + after);
        lemma_tag_list_read_back(r0.1@, after);
        lemma_read_registry_tags(tail, acc.push((r0.0@, tags_view(r0.1@))), rest);
        assert(acc.push((r0.0@, tags_view(r0.1@))) + registry_tags_view(tail) =~= acc
            + registry_tags_view(v));
    }
}

/// The tags packet reads back as its own registries, each with its own
/// tags, in order (at most `i32::MAX` registries, each fitting its wire
/// form).
pub proof fn lemma_tags_read_back(p: TagsPacket, rest: Seq<u8>)
    requires
        p.tags@.len() <= i32::MAX,
        registry_tags_fit(p.tags@),
    ensures
        read_tags_packet(p.encoded() + rest) == Some((registry_tags_view(p.tags@), rest)),
{
    let n: i32 = (p.tags@.len() as usize) as i32;
    assert(wire_len(p.tags@.len()) == n as u32);
    let body = concat_map(p.tags@, registry_tags_enc());
    let s = p.encoded() + rest;
    assert(s =~= varint_bytes(n as u32) + (body + rest));
    lemma_varint_roundtrip(n, body + rest);
    assert(s.skip(varint_bytes(n as u32).len() as int) == body + rest);
    lemma_read_registry_tags(p.tags@, Seq::empty(), rest);
    assert(Seq::<(Seq<char>, Seq<TagView>)>::empty() + registry_tags_view(p.tags@) == registry_tags_view(
        p.tags@,
    ));
}

/// The view distance, the simulation distance and the size of a chunk
/// batch are each read back as the one VarInt of their packet.
pub proof fn lemma_single_varint_packets_read_back(
    a: UpdateViewDistancePacket,
    b: SimulationDistancePacket,
    c: ChunkBatchFinishedPacket,
    rest: Seq<u8>,
)
    ensures
        read_varint(a.encoded() + rest) matches VarIntRead::Value { value: v, len: k } && v
            == a.view_distance.0 && (a.encoded() + rest).skip(k as int) == rest,
        read_varint(b.encoded() + rest) matches VarIntRead::Value { value: v, len: k } && v
            == b.simulation_distance.0 && (b.encoded() + rest).skip(k as int) == rest,
        read_varint(c.encoded() + rest) matches VarIntRead::Value { value: v, len: k } && v
            == c.batch_size.0 && (c.encoded() + rest).skip(k as int) == rest,
{
    lemma_varint_roundtrip(a.view_distance.0, rest);
    lemma_varint_roundtrip(b.simulation_distance.0, rest);
    lemma_varint_roundtrip(c.batch_size.0, rest);
    assert((a.encoded() + rest).skip(a.encoded().len() as int) == rest);
    assert((b.encoded() + rest).skip(b.encoded().len() as int) == rest);
    assert((c.encoded() + rest).skip(c.encoded().len() as int) == rest);
}

/// A Forge login wrapper is read back as its channel, then the id of the
/// wrapped packet, then the wrapped bytes (channel of at most `i32::MAX`
/// UTF-8 bytes).
pub proof fn lemma_fml_wrapper_read_back(p: FmlLoginWrapper, rest: Seq<u8>)
    requires
        encode_utf8(p.channel@).len() <= i32::MAX,
    ensures
        match read_mc_string(p.encoded() + rest) {
            Some((Ok(channel), r)) => channel == p.channel@ && match read_varint(r) {
                VarIntRead::Value { value: id, len: k } => id == p.inner_packet_id && r.skip(k as int)
                    == p.data@ + rest,
                _ => false,
            },
            _ => false,
        },
{
    let r = varint_bytes(p.inner_packet_id as u32) + (p.data@ + rest);
    assert(p.encoded() + rest =~= mc_string_bytes(p.channel@) + r);
    lemma_mc_string_roundtrip(p.channel@, r);
    lemma_varint_roundtrip(p.inner_packet_id, p.data@ + rest);
    assert(r.skip(varint_bytes(p.inner_packet_id as u32).len() as int) == p.data@ + rest);
}

} // verus!
