# couchbase-core

The logic of a Couchbase client's core, verified with Verus.

- `src/` is the library. It holds the decisions: how a scan of an index is
  routed, what the queryport protocol's frames and messages mean, how a JSON
  response is cut into rows while it arrives, how a cluster config is read and
  what each component is told of it, how pooled connections are accounted for,
  which collection ids are known, and what the key-value operations ask and make
  of the answers. Every public function has a contract that Verus proves, but for
  the trusted items named below, whose contracts are believed.
- `app/` is ordinary Rust around it: sockets, timers, tasks, serde and protobuf.
  Protocols and loops are state machines in `src/`; `app/` performs their actions
  and hands back what happened.
- `tests/` runs the library.

Calls into other crates (`bytes`, `http`, `serde_json`, `uuid`) and into parts
of the standard library that Verus has no specification for stand behind small
trusted items, each with the claim that is made of it: `src/buffer.rs`,
`src/text.rs`, `src/duration.rs`, `src/httpx/json_object.rs`,
`src/httpx/decoder.rs`, `src/indexerx/io_failure.rs`, `src/indexerx/error.rs`,
`src/indexerx/status.rs`, `src/indexcomponent.rs` and `src/agent_ops.rs`.
