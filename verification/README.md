# mc_server

The protocol layer of a small Minecraft server, verified with Verus.

- `src/protocol/types` — the wire values (`VarInt`, `VarLong`, `UUID`,
  `MString`) and the `Serialize` trait with its implementations.
- `src/protocol/varnum.rs` — what decoding a variable-length number means, and
  a byte-at-a-time decoder for streams.
- `src/protocol/reader.rs` — `ProtocolReader`, an in-memory reader, and the
  `ReadProtocol` trait it implements.
- `src/protocol/package.rs` — `Package`: building, serializing, and the size of
  a package's payload.
- `src/protocol/round_trip.rs` — what reading gives back of what was written.
- `src/connection.rs`, `src/connection_state.rs` — the handshake and the state
  of a connection; the fixed status answer.
- `app/` — the TCP server around the library: sockets, threads, printing, and
  the serde form of the status answer.
