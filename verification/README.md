# wombatkv

The core of a key-value daemon for inference caches, written in Rust and proved
with Verus: the wire formats, the shared-memory arena, what the daemon decides
for each request, what its clients make of the responses, the TCP and HTTP
transports, and the deterministic fault simulation.

- `src/` is the library. Everything in it is verified. Decisions that alternate
  with I/O are state machines (`dispatch`, `tcp_transport`, `http_transport`,
  `serve`, `lifecycle`, `client`, `worker`): the library names the next action and is told
  what came of it.
- `app/` is the program around it: environment, sockets, shared-memory rings,
  mapped files, signals, threads, JSON. It keeps blobs in memory; another store
  is added by implementing `KvStore`.
- `tests/` runs the library on concrete values.

Archives are made by `rkyv`, checksums by `crc32c`, content hashes by `blake3`.
What the proofs assume of them stands in the contracts of the functions that
call them, each marked `#[verifier::external_body]`.
