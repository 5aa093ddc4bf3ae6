# quic

Building blocks of a QUIC client, verified with Verus.

- `src/varint.rs`: variable-length integers (encode, decode, sizes), with
  the round-trip laws.
- `src/stream_id.rs`: stream identifiers.
- `src/packet.rs`: connection ids (equal exactly when their bytes are, and
  read back from their wire form), truncated packet numbers (with the proof
  that truncation, the wire format and expansion give back the packet
  number), and the long header of Initial packets.
- `src/frame.rs`, `src/range_set/`: ACK frames and the ranges they
  acknowledge, with the proof that the fields of an encoded frame rebuild
  its ranges.
- `src/crypto.rs`: the header- and payload-protection interfaces and their
  implementation by rustls' QUIC keys; removing header protection undoes it,
  and opening undoes sealing.
- `src/text.rs`: decimal text of integers.
- `src/driver.rs`, `src/client.rs`: the decisions of the connection driver
  (among them stream ids 1, 11, 21, ..., never handed out twice), and the
  random source connection id.
- `src/buf.rs`: big-endian layouts and the calls into the `bytes` crate.

`app/` holds the asynchronous driver itself (tokio socket, quiche
connection, timers, stream handles), which performs what `src/driver.rs`
decides.
