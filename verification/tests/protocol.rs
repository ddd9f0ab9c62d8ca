use bytes::BytesMut;
use mamut::protocol::buffer::McBufWritable;
use mamut::protocol::error::DecodeError;
use mamut::protocol::packets::{ClientboundPingPacket, KeepAliveClientboundPacket};
use mamut::protocol::packet::{debug_packet_id, frame_packet, next_frame, FrameRead, Packet};
use mamut::protocol::types::McWrite;
use mamut::protocol::varint::{VarInt, VarIntExt};

fn bytes_of(v: &[u8]) -> BytesMut {
    let mut b = BytesMut::new();
    b.extend_from_slice(v);
    b
}

fn varint(v: i32) -> Vec<u8> {
    let mut b = BytesMut::new();
    VarInt(v).encode(&mut b);
    b.to_vec()
}

#[test]
fn varint_encodes_known_values() {
    assert_eq!(varint(0), vec![0x00]);
    assert_eq!(varint(1), vec![0x01]);
    assert_eq!(varint(127), vec![0x7f]);
    assert_eq!(varint(128), vec![0x80, 0x01]);
    assert_eq!(varint(255), vec![0xff, 0x01]);
    assert_eq!(varint(25565), vec![0xdd, 0xc7, 0x01]);
    assert_eq!(varint(2097151), vec![0xff, 0xff, 0x7f]);
    assert_eq!(varint(2147483647), vec![0xff, 0xff, 0xff, 0xff, 0x07]);
    assert_eq!(varint(-1), vec![0xff, 0xff, 0xff, 0xff, 0x0f]);
    assert_eq!(varint(i32::MIN), vec![0x80, 0x80, 0x80, 0x80, 0x08]);
}

#[test]
fn varint_roundtrip_keeps_what_follows() {
    for v in [0, 1, 127, 128, 300, 25565, -1, -300, i32::MIN, i32::MAX] {
        let mut b = BytesMut::new();
        VarInt(v).encode(&mut b);
        b.extend_from_slice(&[9, 8, 7]);
        assert_eq!(VarInt::decode(&mut b), Ok(v));
        assert_eq!(&b[..], &[9, 8, 7]);
    }
}

#[test]
fn varint_decode_incomplete_takes_everything() {
    let mut b = bytes_of(&[0x80, 0x80]);
    assert_eq!(VarInt::decode(&mut b), Err(DecodeError::IncompleteVarInt));
    assert_eq!(b.len(), 0);
    let mut e = BytesMut::new();
    assert_eq!(VarInt::decode(&mut e), Err(DecodeError::IncompleteVarInt));
}

#[test]
fn varint_five_continuation_bytes_and_no_sixth_is_incomplete() {
    let mut b = bytes_of(&[0x80, 0x80, 0x80, 0x80, 0x80]);
    assert_eq!(VarInt::decode(&mut b), Err(DecodeError::IncompleteVarInt));
}

#[test]
fn put_var_int_matches_encode() {
    let mut b = BytesMut::new();
    b.put_var_int(300);
    assert_eq!(b.to_vec(), varint(300));
}

#[test]
fn strings_are_length_prefixed() {
    let mut b = BytesMut::new();
    "abc".mc_write(&mut b);
    assert_eq!(b.to_vec(), vec![3, b'a', b'b', b'c']);
    let mut c = BytesMut::new();
    String::from("é").mc_write(&mut c);
    assert_eq!(c.to_vec(), vec![2, 0xc3, 0xa9]);
    let mut d = BytesMut::new();
    (-2i16).mc_write(&mut d);
    assert_eq!(d.to_vec(), vec![0xff, 0xfe]);
}

#[test]
fn buf_writable_values() {
    let mut b = BytesMut::new();
    String::from("hi").write_into(&mut b);
    assert_eq!(b.to_vec(), vec![2, b'h', b'i']);
    let mut u = BytesMut::new();
    [7u8; 16].write_into(&mut u);
    assert_eq!(u.to_vec(), vec![7u8; 16]);
    let mut i = BytesMut::new();
    0x01020304i32.write_into(&mut i);
    let v = i.to_vec();
    assert!(v == vec![1, 2, 3, 4] || v == vec![4, 3, 2, 1]);
}

#[test]
fn frame_has_length_id_and_body() {
    let f = frame_packet(&ClientboundPingPacket { id: 0x01020304 });
    assert_eq!(f.to_vec(), vec![5, 0x05, 1, 2, 3, 4]);
    assert_eq!(ClientboundPingPacket { id: 1 }.name(), "Unknown");
}

#[test]
fn next_frame_reads_back_a_frame_and_keeps_the_rest() {
    let mut buffer = frame_packet(&KeepAliveClientboundPacket { id: 0x0102 });
    buffer.extend_from_slice(&[0x05]);
    match next_frame(&mut buffer) {
        Some(FrameRead::Frame { id, payload }) => {
            assert_eq!(id, 0x2B);
            assert_eq!(payload.to_vec(), vec![0, 0, 0, 0, 0, 0, 1, 2]);
        }
        _ => panic!("expected a frame"),
    }
    assert_eq!(buffer.to_vec(), vec![0x05]);
    match next_frame(&mut buffer) {
        Some(FrameRead::NeedMore { length_known }) => assert!(length_known),
        _ => panic!("expected need more"),
    }
    assert_eq!(buffer.to_vec(), vec![0x05]);
}

#[test]
fn next_frame_without_length() {
    let mut buffer = bytes_of(&[0x80]);
    match next_frame(&mut buffer) {
        Some(FrameRead::NeedMore { length_known }) => assert!(!length_known),
        _ => panic!("expected need more"),
    }
    let mut empty = BytesMut::new();
    assert!(matches!(next_frame(&mut empty), Some(FrameRead::NeedMore { length_known: false })));
}

#[test]
fn next_frame_with_empty_body_is_an_error() {
    let mut buffer = bytes_of(&[0x00, 0x07]);
    match next_frame(&mut buffer) {
        Some(FrameRead::Error(e)) => assert_eq!(e, DecodeError::IncompleteVarInt),
        _ => panic!("expected an error"),
    }
    assert_eq!(buffer.to_vec(), vec![0x07]);
}

#[test]
fn next_frame_gives_up_on_overlong_length() {
    let mut buffer = bytes_of(&[0x80, 0x80, 0x80, 0x80, 0x80, 0x01]);
    assert!(next_frame(&mut buffer).is_none());
    assert_eq!(buffer.len(), 6);
}

#[test]
fn debug_ids() {
    assert_eq!(debug_packet_id(0x2B, 4), "PLAY(0x2B)");
    assert_eq!(debug_packet_id(5, 0), "HANDSHAKE(0x05)");
    assert_eq!(debug_packet_id(0, 2), "LOGIN(0x00)");
    assert_eq!(debug_packet_id(0x100, 3), "CONFIG(0x100)");
    assert_eq!(debug_packet_id(-1, 9), "UNKNOWN(0xFFFFFFFF)");
    assert_eq!(debug_packet_id(0x0e, 1), format!("UNKNOWN(0x{:02X})", 0x0e));
}

#[test]
fn decode_error_messages() {
    assert_eq!(DecodeError::IncompleteVarInt.message(), "Incomplete VarInt");
    assert_eq!(DecodeError::MissingHandshakePort.message(), "Missing handshake port");
    assert_eq!(DecodeError::LoginNameTruncated.message(), "LoginStart name truncated");
    assert_eq!(DecodeError::PingTruncated.message(), "Ping truncated");
    assert_eq!(DecodeError::PongTruncated.message(), "Pong truncated");
    assert_eq!(DecodeError::KeepAliveTruncated.message(), "KeepAlive response truncated");
    assert_eq!(DecodeError::ChunkBatchReceivedTruncated.message(), "ChunkBatchReceived truncated");
}
