# libsync

Keeps a byte state in step between a client and a server that talk over datagrams. The library
decides what each side does; it is written in Verus, with its contracts proved. The sockets are in
`app/`.

There are three protocols:

- The delta protocol (`client`, `server`): both sides keep a log of numbered changes. A write carries
  all changes that the other side has not acknowledged, and the checksum of the sender's log.
- The chunk protocol (`chunk`): a server keeps numbered chunks of bytes for one client.
- The mirror protocol (`mirror`): both sides hold the bytes, and every write is appended to them.

## Layout

- `src/order.rs`: maps keyed by sequence numbers, and their entries in order.
- `src/delta.rs`: changes, and the log of them.
- `src/digest.rs`, `src/encoding.rs`: checksums, and the bytes that they are taken of.
- `src/frame.rs`, `src/session.rs`: the frames of the delta protocol, session identifiers, addresses.
- `src/client.rs`, `src/server.rs`: the two sides of the delta protocol.
- `src/registry.rs`: the concurrent map that a server keeps its sessions in.
- `src/chunk.rs`, `src/mirror.rs`: the other two protocols.
- `src/endpoint.rs`: reads `host:port`.
- `src/laws.rs`: what holds of the protocols as a whole.
- `app/`: the chunk server as a program, the JSON form of the frames, and the sockets.

What is taken on trust of code outside the library stands in `src/digest.rs` (`crc32fast`, and
`u16::to_ne_bytes` of the standard library) and `src/registry.rs` (`dashmap`).
