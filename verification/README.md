# longboy

Session routing and message framing for low-latency multiplayer traffic, verified with Verus.

A server hands each connection a player index and a session. Clients then send datagrams over UDP,
and say from time to time which address they send from. The library keeps the sessions and their
addresses, tells which session a datagram belongs to, and reads and writes the messages.

- `src/table.rs` says what is known of the sessions and how each event changes it; `receiver.rs`
  does it, on top of the collections in `storage.rs`.
- `src/broker.rs` is the registry of players, and holds the ends of the message queue.
- `src/client.rs` is the client's side of the streams, and `schema.rs` their names and ports.
- `src/startup.rs` decides for the programs: where to listen, how a credential file is read, whom to
  admit, when to stop.
- `src/trust.rs` decides which certificates a client trusts.
- `src/bytes.rs` and `addr.rs` hold integers in buffers and network addresses.
- `src/channel.rs` and `storage.rs` state what is relied on of `flume`, `thunderdome` and `fnv`,
  `client.rs` of `rand`, `trust.rs` of `rustls`, and `startup.rs` of the paths of the standard
  library.
- `src/laws.rs` proves what holds of the library as a whole.

`app/` holds the programs: sockets, certificates, configuration, and the lock that lets threads
share a broker.
