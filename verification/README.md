# piranha_server

The core of a small game server for the Piranha/Laser client protocol,
written in Verus.

- `src/stream/` — `ByteStream`, a cursor over a `bytes::BytesMut` buffer
  that reads and writes big-endian integers, length-prefixed strings and
  byte arrays, variable-length integers and bit-packed booleans. Its
  behaviour is stated over `StreamState` (bytes, offset, bit offset);
  `laws.rs` proves that integers, longs, strings under 90000 bytes and
  non-negative variable-length integers read back as written (negative
  variable-length integers do not), that booleans pack into
  bits and that writes at the end append their encodings. `bytes_buf.rs` and
  `text.rs` hold the trusted interface to `BytesMut` and to
  `String::from_utf8`.
- `src/message/` — messages (`PiranhaMessage` and the hello, login and
  authentication-response messages), framing for the wire, the factory that
  turns a received body into a handled message, and the receiver that reads
  the header of incoming bytes.
- `src/networking/` — the per-connection state, the session table and the
  console's stop command.
- `src/utils/` — which log files the logger's rotation removes.
- `app/` — the program: configuration, logging, sockets and the tokio
  server loop, around the library.
