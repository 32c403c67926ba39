# wasm_rpc

A gRPC transport over a local byte stream (a Unix socket, or a file under WASI), verified
with Verus.

- `src/frame.rs` — HTTP/2 frames: the wire format as spec functions, the calls into
  `http2parse` that write and read payloads, frame reading, and the round-trip laws.
- `src/http2.rs` — the connection preface and the frames that open a connection.
- `src/header_block.rs` — HPACK header blocks through the `hpack` crate.
- `src/names.rs` — the header names and values of gRPC requests and replies.
- `src/client.rs` — the bytes the client writes for a request, and what it does with each
  frame of the reply.
- `src/server.rs` — the frames the server writes, how it splits what it reads, how it routes
  frames to streams, and what each stream does with them.
- `src/exchange.rs` — laws over both sides: what one side reads of what the other wrote.
- `src/bench.rs`, `src/stream.rs`, `src/transfer.rs` — the benchmark's computations, a stream
  over an iterator, and plain request/response values.
- `app/` — the executors, sockets, channels and `tower`/`tonic` glue around the library.
