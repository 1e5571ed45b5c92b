# airi_protocol

A Minecraft Java Edition client library: the data types of the wire format,
how they are read from bytes and written to bytes, the framing of packets
(compressed or not; AES-128/CFB-8 encryption through the `cfb8` crate), the decisions a client
makes on a connection, and the naming decisions of the code generators.

The library in `src/` is written in Verus; each function carries a contract,
and the round trips of the wire format are proved as lemmas.

- `src/varint.rs`, `src/prims.rs`, `src/containers.rs`, `src/arrays.rs`,
  `src/types.rs`, `src/uuid.rs`, `src/json.rs`: the data types and their wire
  format.
- `src/frame.rs`: packet frames, compressed or not.
- `src/connection.rs`: AES-128/CFB-8 on each direction of a connection; the
  ciphertext handed out, in pieces, is the encryption of the whole stream.
- `src/network.rs`: connection state, and the client's answers to the server.
- `src/auth.rs`: the server hash of a session, and what the authentication
  services' answers mean.
- `src/derive.rs`, `src/codegen.rs`: variant numbering, block and packet naming.
- `src/assets.rs`, `src/logging.rs`: when assets are fetched, which log records print.

`app/` is the program around it: sockets, HTTP, zlib (whose streaming API
is asynchronous), files, and the
token-stream side of the code generators.
