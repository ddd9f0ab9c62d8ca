use bytes::BytesMut;
use mamut::network::session::{Outgoing, Session, Step};
use mamut::protocol::error::DecodeError;
use mamut::protocol::packet::Packet;
use mamut::protocol::packets::{HandshakePacket, LoginStartPacket, SelectKnownPacksPacket};

fn body<P: Packet>(p: &P) -> BytesMut {
    let mut b = BytesMut::new();
    p.encode(&mut b);
    b
}

fn sent(step: Option<Step>) -> Vec<Outgoing> {
    match step {
        Some(Step::Continue(v)) => v,
        _ => panic!("expected the connection to continue"),
    }
}

fn handshake(next_state: i32) -> BytesMut {
    body(&HandshakePacket { protocol: 774, address: "localhost".to_string(), port: 25565, next_state })
}

fn packs(ns: &str, id: &str) -> BytesMut {
    body(&SelectKnownPacksPacket { packs: vec![(ns.to_string(), id.to_string(), "1.21.11".to_string())] })
}

#[test]
fn handshake_moves_to_its_next_state() {
    let mut s = Session::new();
    assert_eq!(s.state, 0);
    assert!(sent(s.handle(0, handshake(2))).is_empty());
    assert_eq!(s.state, 2);
}

#[test]
fn bad_handshake_fails() {
    let mut s = Session::new();
    let mut b = BytesMut::new();
    b.extend_from_slice(&[1, 1, b'a']);
    assert!(matches!(s.handle(0, b), Some(Step::Fail(DecodeError::MissingHandshakePort))));
    let mut o = BytesMut::new();
    o.extend_from_slice(&[0x80, 0x80, 0x80, 0x80, 0x80, 0x80]);
    assert!(s.handle(0, o).is_none());
    assert_eq!(s.state, 0);
}

#[test]
fn login_then_configuration_then_play() {
    let mut s = Session::new();
    s.handle(0, handshake(2));
    let out = sent(s.handle(0, body(&LoginStartPacket { name: "Alex".to_string(), uuid: [9; 16] })));
    assert_eq!(out.len(), 1);
    match &out[0] {
        Outgoing::LoginSuccess(p) => {
            assert_eq!(p.username, "Alex");
            assert_eq!(p.uuid, [9; 16]);
        }
        _ => panic!("expected login success"),
    }
    assert_eq!(s.player_name, "Alex");

    let out = sent(s.handle(3, BytesMut::new()));
    assert!(matches!(&out[..], [Outgoing::Ping(p)] if p.id == 123456));
    assert_eq!(s.state, 3);

    let out = sent(s.handle(0, BytesMut::new()));
    assert!(matches!(&out[..], [Outgoing::KnownPacks(_)]));
    assert!(s.got_client_info && s.sent_known_packs && !s.sent_finish);

    let out = sent(s.handle(0x07, packs("minecraft", "core")));
    assert_eq!(out.len(), 17);
    assert!(matches!(&out[0], Outgoing::Registry(r) if r.registry_id == "minecraft:dimension_type"));
    assert!(matches!(&out[14], Outgoing::FeatureFlags(f) if f.features.is_empty()));
    assert!(matches!(&out[15], Outgoing::Tags(_)));
    assert!(matches!(&out[16], Outgoing::FinishConfiguration));
    assert!(s.sent_finish);

    assert!(sent(s.handle(0, BytesMut::new())).is_empty());

    let out = sent(s.handle(3, BytesMut::new()));
    assert_eq!(s.state, 4);
    assert_eq!(s.teleport_id, 1);
    assert_eq!(out.len(), 20);
    assert!(matches!(&out[0], Outgoing::JoinGame(j) if j.sea_level.0 == 63 && j.gamemode == 1));
    assert!(matches!(&out[1], Outgoing::GameEvent { event: 13 }));
    assert!(matches!(&out[5], Outgoing::ChunkBatchStart));
    assert!(matches!(&out[6], Outgoing::MapChunk(m) if m.x == -1 && m.z == -1));
    assert!(matches!(&out[14], Outgoing::MapChunk(m) if m.x == 1 && m.z == 1 && m.chunk_data.len() == 24 * 2067));
    assert!(matches!(&out[15], Outgoing::ChunkBatchFinished(f) if f.batch_size.0 == 9));
    assert!(matches!(&out[16], Outgoing::SpawnPosition { x: 8, y: 20, z: 8 }));
    assert!(matches!(&out[17], Outgoing::PlayerPosition { teleport_id: 1 }));
    assert!(matches!(&out[18], Outgoing::Abilities { flags: 4 }));
    assert!(matches!(&out[19], Outgoing::KeepAlive { delay_ms: 0 }));

    let ka = s.keep_alive_sent(77);
    assert_eq!(ka.id, 77);
    assert_eq!(s.last_keepalive_id, 77);
    let out = sent(s.handle(0x1B, BytesMut::new()));
    assert!(matches!(&out[..], [Outgoing::KeepAlive { delay_ms: 300 }]));
    assert!(sent(s.handle(0x0C, BytesMut::new())).is_empty());
    let mut overlong = BytesMut::new();
    overlong.extend_from_slice(&[0x80, 0x80, 0x80, 0x80, 0x80, 0x80]);
    assert!(s.handle(0x00, overlong).is_none());
}

#[test]
fn known_packs_first_then_client_information() {
    let mut s = Session::new();
    s.state = 3;
    assert!(sent(s.handle(0x07, packs("minecraft", "core"))).is_empty());
    assert!(s.got_known_packs_ack);
    let out = sent(s.handle(0, BytesMut::new()));
    assert_eq!(out.len(), 18);
    assert!(matches!(&out[0], Outgoing::KnownPacks(_)));
}

#[test]
fn missing_core_pack_closes() {
    let mut s = Session::new();
    s.state = 3;
    assert!(matches!(s.handle(0x07, packs("other", "core")), Some(Step::Close)));
    assert!(!s.got_known_packs_ack);
}

#[test]
fn unknown_state_closes() {
    let mut s = Session::new();
    s.handle(0, handshake(1));
    assert!(matches!(s.handle(0, BytesMut::new()), Some(Step::Close)));
}

#[test]
fn configuration_ends_once() {
    let mut s = Session::new();
    s.state = 3;
    sent(s.handle(0, BytesMut::new()));
    let out = sent(s.handle(0x07, packs("minecraft", "core")));
    assert!(matches!(out.last(), Some(Outgoing::FinishConfiguration)));
    assert!(s.sent_finish && s.got_client_info && s.got_known_packs_ack && s.sent_known_packs);
    assert!(sent(s.handle(0x07, packs("minecraft", "core"))).is_empty());
    assert!(sent(s.handle(0, BytesMut::new())).is_empty());
    assert!(s.sent_finish);
}

#[test]
fn known_packs_offered_once() {
    let mut s = Session::new();
    s.state = 3;
    let out = sent(s.handle(0, BytesMut::new()));
    assert!(matches!(&out[..], [Outgoing::KnownPacks(_)]));
    assert!(sent(s.handle(0, BytesMut::new())).is_empty());
    assert!(s.sent_known_packs && !s.sent_finish);
}
