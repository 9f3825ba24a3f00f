# nbreq_http

An HTTP/1.1 client engine, with plain TCP connections and name lookups beside it, written in Rust
and verified with Verus. The engines decide and never wait: each call takes what happened and the
time, changes the state, and leaves a list of what the socket layer is to do.

## Layout

- `src/request.rs`, `src/head.rs`, `src/chunk.rs`, `src/framing.rs`, `src/decoder.rs`,
  `src/stream_decoder.rs`: messages, as bytes.
- `src/stream.rs`, `src/upload.rs`: the queues through which bodies go piece by piece.
- `src/origin.rs`, `src/redirect.rs`: where a redirect leads, and what goes along.
- `src/deadline.rs`, `src/failure.rs`, `src/config.rs`, `src/pool.rs`, `src/table.rs`: time, errors,
  limits and connections.
- `src/exchange.rs`, `src/transfer.rs`, `src/step.rs`: one exchange on one connection.
- `src/pending.rs`, `src/backend.rs`, `src/dispatch.rs`, `src/lookup.rs`, `src/engine.rs`,
  `src/events.rs`, `src/control.rs`, `src/feed.rs`: the HTTP engine.
- `src/standalone.rs`, `src/tcp.rs`, `src/tcp_events.rs`: connections that carry no HTTP.
- `src/resolver.rs`: lookups for their own sake.
- `src/turn.rs`, `src/factory.rs`: the engines together, and how they come about.
- `src/*_laws.rs`, `src/accounting.rs`: what holds across calls.
- `app/`: a driver over the sockets and the resolver of the system.

## What is not proved

`httparse` recognizes response heads, trailer sections and chunk-size lines, `url` reads and joins
URLs, and `std` recognizes UTF-8. The functions that call them are marked in `src/chunk.rs`,
`src/head.rs` and `src/redirect.rs`, and say what is taken for granted. TLS sessions and sockets are
outside: the engines are told how they stand. With TLS the engines hand out the name that a
certificate has to bear and limits on the bytes of HTTP; what these come to in records is for the
session to say.
