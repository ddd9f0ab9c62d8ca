use bytes::BytesMut;
use mamut::protocol::error::DecodeError;
use mamut::protocol::packet::{frame_body, Packet};
use mamut::protocol::packets::{
    create_empty_registries, decode_chunk_batch_received_bits, pack_block_pos, ChunkBatchFinishedPacket,
    ChunkBatchStartPacket, ChunkDataPacket, ClientboundPingPacket, ConfirmTeleportPacket, FeatureFlagsPacket,
    FinishConfigurationPacket, HandshakePacket, JoinGamePacket, KeepAliveClientboundPacket,
    KeepAliveServerboundPacket, LoginStartPacket, LoginSuccessPacket, MapChunkPacket, PingPacket, PongPacket,
    RegistryDataPacket, RegistryEntry, SelectKnownPacksPacket, SelectKnownPacksServerboundPacket,
    SimulationDistancePacket, TagsPacket, UpdateTagsPacket, UpdateViewDistancePacket, UpdateViewPositionPacket,
};
use mamut::protocol::varint::VarInt;
use mamut::protocol::fml::FmlLoginWrapper;

fn bytes_of(v: &[u8]) -> BytesMut {
    let mut b = BytesMut::new();
    b.extend_from_slice(v);
    b
}

fn body<P: Packet>(p: &P) -> Vec<u8> {
    let mut b = BytesMut::new();
    p.encode(&mut b);
    b.to_vec()
}

#[test]
fn handshake_roundtrip() {
    let hs = HandshakePacket { protocol: 774, address: "localhost".to_string(), port: 25565, next_state: 2 };
    let mut b = BytesMut::new();
    hs.encode(&mut b);
    assert_eq!(b.to_vec(), vec![0x86, 0x06, 9, b'l', b'o', b'c', b'a', b'l', b'h', b'o', b's', b't', 0x63, 0xdd, 2]);
    b.extend_from_slice(&[42]);
    let back = HandshakePacket::decode(&mut b).unwrap();
    assert_eq!(back.protocol, 774);
    assert_eq!(back.address, "localhost");
    assert_eq!(back.port, 25565);
    assert_eq!(back.next_state, 2);
    assert_eq!(b.to_vec(), vec![42]);
}

#[test]
fn handshake_without_port() {
    let mut b = bytes_of(&[0x01, 0x01, b'a', 0x63]);
    assert_eq!(HandshakePacket::decode(&mut b).err(), Some(DecodeError::MissingHandshakePort));
    assert_eq!(b.to_vec(), vec![0x63]);
}

#[test]
fn handshake_without_next_state() {
    let mut b = bytes_of(&[0x01, 0x01, b'a', 0x63, 0xdd]);
    assert_eq!(HandshakePacket::decode(&mut b).err(), Some(DecodeError::IncompleteVarInt));
}

#[test]
fn handshake_gives_up_where_address_overruns() {
    let mut b = bytes_of(&[0x01, 0x05, b'a']);
    assert!(HandshakePacket::try_decode(&mut b).is_none());
    assert_eq!(b.len(), 3);
    let mut n = bytes_of(&[0x01, 0xff, 0xff, 0xff, 0xff, 0x0f, b'a']);
    assert!(HandshakePacket::try_decode(&mut n).is_none());
    let mut ok = bytes_of(&[0x01, 0x00, 0x00, 0x10, 0x01]);
    let hs = HandshakePacket::try_decode(&mut ok).unwrap().unwrap();
    assert_eq!(hs.address, "");
    assert_eq!(hs.port, 16);
    assert_eq!(hs.next_state, 1);
}

#[test]
fn handshake_with_invalid_utf8_is_replaced() {
    let mut b = bytes_of(&[0x01, 0x01, 0xff, 0x00, 0x01, 0x01]);
    let hs = HandshakePacket::decode(&mut b).unwrap();
    assert_eq!(hs.address, "\u{FFFD}");
}

#[test]
fn login_start_with_and_without_uuid() {
    let p = LoginStartPacket { name: "Steve".to_string(), uuid: [3u8; 16] };
    let mut b = BytesMut::new();
    p.encode(&mut b);
    let back = LoginStartPacket::decode(&mut b).unwrap();
    assert_eq!(back.name, "Steve");
    assert_eq!(back.uuid, [3u8; 16]);
    assert_eq!(b.len(), 0);

    let mut short = bytes_of(&[2, b'A', b'l', 9, 9]);
    let back = LoginStartPacket::decode(&mut short).unwrap();
    assert_eq!(back.name, "Al");
    assert_eq!(back.uuid, [0u8; 16]);
    assert_eq!(short.to_vec(), vec![9, 9]);
}

#[test]
fn login_start_name_truncated() {
    let mut b = bytes_of(&[5, b'A']);
    assert_eq!(LoginStartPacket::decode(&mut b).err(), Some(DecodeError::LoginNameTruncated));
    let mut neg = bytes_of(&[0xff, 0xff, 0xff, 0xff, 0x0f]);
    assert_eq!(LoginStartPacket::decode(&mut neg).err(), Some(DecodeError::LoginNameTruncated));
}

#[test]
fn login_success_body() {
    let p = LoginSuccessPacket { uuid: [1u8; 16], username: "x".to_string() };
    let mut expected = vec![1u8; 16];
    expected.extend_from_slice(&[1, b'x', 0]);
    assert_eq!(body(&p), expected);
}

#[test]
fn ping_pong_and_keep_alive() {
    let mut b = BytesMut::new();
    ClientboundPingPacket { id: 123456 }.encode(&mut b);
    assert_eq!(PongPacket::decode(&mut b).unwrap().id, 123456);
    let mut p = bytes_of(&[0, 0, 1, 0]);
    assert_eq!(PingPacket::decode(&mut p).unwrap().id, 256);
    let mut short = bytes_of(&[1, 2, 3]);
    assert_eq!(PingPacket::decode(&mut short).err(), Some(DecodeError::PingTruncated));
    assert_eq!(short.len(), 3);
    let mut short2 = bytes_of(&[1]);
    assert_eq!(PongPacket::decode(&mut short2).err(), Some(DecodeError::PongTruncated));

    let mut k = BytesMut::new();
    KeepAliveClientboundPacket { id: -5 }.encode(&mut k);
    assert_eq!(KeepAliveServerboundPacket::decode(&mut k).unwrap().id, -5);
    let mut ks = bytes_of(&[0; 7]);
    assert_eq!(KeepAliveServerboundPacket::decode(&mut ks).err(), Some(DecodeError::KeepAliveTruncated));
}

#[test]
fn chunk_batch_received_bits() {
    let mut b = bytes_of(&[0x41, 0x20, 0, 0]);
    assert_eq!(decode_chunk_batch_received_bits(&mut b), Ok(0x41200000));
    let mut s = bytes_of(&[0x41]);
    assert_eq!(decode_chunk_batch_received_bits(&mut s), Err(DecodeError::ChunkBatchReceivedTruncated));
}

#[test]
fn confirm_teleport() {
    let mut b = bytes_of(&[0x01, 0x09]);
    assert_eq!(ConfirmTeleportPacket::decode(&mut b).unwrap().teleport_id, 1);
    assert_eq!(b.to_vec(), vec![0x09]);
    let mut e = BytesMut::new();
    assert_eq!(ConfirmTeleportPacket::decode(&mut e).err(), Some(DecodeError::IncompleteVarInt));
    let mut o = bytes_of(&[0x80, 0x80, 0x80, 0x80, 0x80, 0x80]);
    assert!(ConfirmTeleportPacket::try_decode(&mut o).is_none());
    assert_eq!(o.len(), 6);
}

#[test]
fn block_positions_pack() {
    assert_eq!(pack_block_pos(8, 20, 8), (8i64 << 38) | (8i64 << 12) | 20);
    assert_eq!(pack_block_pos(-1, -1, -1), -1);
    let p = pack_block_pos(-5, 100, 7);
    assert_eq!(p >> 38, -5);
    assert_eq!((p << 26) >> 38, 7);
    assert_eq!((p << 52) >> 52, 100);
}

#[test]
fn small_play_packets() {
    assert_eq!(body(&UpdateViewPositionPacket { chunk_x: VarInt(0), chunk_z: VarInt(-1) }), vec![0, 0xff, 0xff, 0xff, 0xff, 0x0f]);
    assert_eq!(body(&UpdateViewDistancePacket { view_distance: VarInt(2) }), vec![2]);
    assert_eq!(body(&SimulationDistancePacket { simulation_distance: VarInt(2) }), vec![2]);
    assert_eq!(body(&ChunkBatchStartPacket), Vec::<u8>::new());
    assert_eq!(body(&ChunkBatchFinishedPacket { batch_size: VarInt(9) }), vec![9]);
    assert_eq!(body(&FinishConfigurationPacket), Vec::<u8>::new());
    assert_eq!(body(&ChunkDataPacket { chunk_x: 1, chunk_z: -1, data: vec![5] }), vec![0, 0, 0, 1, 0xff, 0xff, 0xff, 0xff, 5]);
    assert_eq!(ChunkBatchStartPacket::ID, 0x0C);
    assert_eq!(MapChunkPacket::ID, 0x2C);
}

#[test]
fn join_game_body() {
    let p = JoinGamePacket {
        entity_id: 1,
        is_hardcore: false,
        dimensions: vec!["a".to_string()],
        max_players: VarInt(20),
        view_distance: VarInt(8),
        simulation_distance: VarInt(8),
        reduced_debug_info: false,
        enable_respawn_screen: true,
        do_limited_crafting: false,
        dimension_type: VarInt(0),
        dimension_name: "a".to_string(),
        hashed_seed: 0,
        gamemode: 1,
        previous_gamemode: -1,
        is_debug: false,
        is_flat: true,
        portal_cooldown: VarInt(0),
        sea_level: VarInt(63),
    };
    let expected = vec![
        0, 0, 0, 1, 0, 1, 1, b'a', 20, 8, 8, 0, 1, 0, 0, 1, b'a', 0, 0, 0, 0, 0, 0, 0, 0, 1, 0xff, 0, 1, 0, 0, 63, 0,
    ];
    assert_eq!(body(&p), expected);
}

#[test]
fn map_chunk_body() {
    let p = MapChunkPacket { x: 0, z: 1, motion_blocking_heightmap: vec![2], chunk_data: vec![7, 7] };
    let expected = vec![
        0, 0, 0, 0, 0, 0, 0, 1, 1, 4, 1, 0, 0, 0, 0, 0, 0, 0, 2, 2, 7, 7, 0, 0, 0, 1, 0, 0, 0, 0, 0x03, 0xff, 0xff,
        0xff, 1, 0, 0, 0, 0, 0x03, 0xff, 0xff, 0xff, 0, 0,
    ];
    assert_eq!(body(&p), expected);
}

#[test]
fn registries_and_tags() {
    let regs = create_empty_registries();
    assert_eq!(regs.len(), 14);
    assert_eq!(regs[0].registry_id, "minecraft:dimension_type");
    assert_eq!(regs[4].registry_id, "minecraft:damage_type");
    assert_eq!(regs[4].entries.len(), 50);
    assert_eq!(regs[4].entries[49].key, "minecraft:wither_skull");
    assert!(regs.iter().all(|r| r.entries.iter().all(|e| e.data.is_none())));
    assert_eq!(regs[13].registry_id, "minecraft:zombie_nautilus_variant");

    let r = RegistryDataPacket {
        registry_id: "r".to_string(),
        entries: vec![
            RegistryEntry { key: "k".to_string(), data: None },
            RegistryEntry { key: "d".to_string(), data: Some(vec![10, 0]) },
        ],
    };
    assert_eq!(body(&r), vec![1, b'r', 2, 1, b'k', 0, 1, b'd', 1, 10, 0]);

    let f = FeatureFlagsPacket { features: vec!["x".to_string()] };
    assert_eq!(body(&f), vec![1, 1, b'x']);

    let t = TagsPacket { tags: vec![("r".to_string(), vec![("t".to_string(), vec![0, 300])])] };
    assert_eq!(body(&t), vec![1, 1, b'r', 1, 1, b't', 2, 0, 0xac, 0x02]);

    let u = UpdateTagsPacket { tags: vec![("t".to_string(), vec![1])] };
    assert_eq!(body(&u), vec![1, 1, b't', 1, 1]);
}

#[test]
fn known_packs_roundtrip() {
    let offer = SelectKnownPacksPacket {
        packs: vec![("minecraft".to_string(), "core".to_string(), "1.21.11".to_string())],
    };
    let mut b = BytesMut::new();
    offer.encode(&mut b);
    let back = SelectKnownPacksServerboundPacket::decode(&mut b).unwrap();
    assert_eq!(back.packs, offer.packs);
    assert_eq!(b.len(), 0);
    let mut trunc = bytes_of(&[2, 1, b'a', 1, b'b', 1, b'c']);
    assert_eq!(SelectKnownPacksServerboundPacket::decode(&mut trunc).err(), Some(DecodeError::IncompleteVarInt));
    let mut over = bytes_of(&[1, 9, b'a']);
    assert!(SelectKnownPacksServerboundPacket::try_decode(&mut over).is_none());
    assert_eq!(over.len(), 3);
}

#[test]
fn fml_wrapper_body() {
    let w = FmlLoginWrapper { channel: "fml".to_string(), inner_packet_id: 300, data: vec![1, 2] };
    assert_eq!(body(&w), vec![3, b'f', b'm', b'l', 0xac, 0x02, 1, 2]);
    assert_eq!(FmlLoginWrapper::ID, 0x02);
}

#[test]
fn framing_a_body() {
    let f = frame_body(0x46, &[1, 2]);
    assert_eq!(f.to_vec(), vec![3, 0x46, 1, 2]);
}
