# grit_protocol

Server-side rules of a Git hosting service, written and proved in Verus: bounded pack streaming and
writing, entry reuse and delta generation, clone negotiation, canonical clone caching, fair clone and
push admission, validation and completion of received packs, promotion of packs into storage, and
atomic publication of pushes.

- `src/` is the library. Functions state their results in contracts; public proof functions
  named `law_*` state what holds across functions. SHA-1, SHA-256, CRC-32 and zlib come from their
  crates through the wrappers in `digest.rs` and `zlib.rs`; those and the text wrapper in
  `admission.rs` hold the only contracts that are taken on trust.
- `tests/` runs the compiled library on concrete values.
- `app/` holds ordinary Rust around it: conversions from the `time` crate, displayable errors,
  asynchronous ports and schedulers shared behind a lock.

Storage, transports, policies and the clock are traits. The library never reads the time, the disk or
the network itself.
