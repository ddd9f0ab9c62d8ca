# mamut

A small Minecraft (1.21.11 protocol) server core, written in Verus: the
wire formats, packet encoders and decoders, the per-connection state
machine and a flat chunk world, each with a contract proved by Verus.

## Layout

- `src/buf.rs` — the `bytes::BytesMut` buffer as a sequence of bytes, and
  the trusted specifications of the `bytes` calls the library makes.
- `src/protocol/` — VarInts, strings and big-endian integers on the wire;
  packets and their frames; reading frames back from a byte stream.
- `src/network/session.rs` — what the server does with each packet a
  client sends: the next state of the connection and the packets to send.
- `src/world/` — chunk sections and columns, their network encoding, the
  heightmap, flat generation, the world of columns by position, and the
  zlib compression of save files.
- `tests/` — tests of the library on concrete values.
- `app/` — the program around the library: the TCP server loop, the clock,
  the packets with floating-point fields, and reading and writing the save
  file (JSON, compressed by the library).

Verify with `verus` on `src/lib.rs`; the tests run with `cargo test`.
