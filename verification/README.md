# zakura_network

Verified logic of the Zakura network: native header sync, the ordered-stream
transport that it runs on, and the kit that fuzzes block sync. The library is
written in Verus; every function of it carries a contract that Verus proves.

## Layout

- `src/header_sync/` is header sync.
  - `message.rs`, `wire.rs` and `v8.rs` hold the messages and the bounded codec.
    `wire_format.rs` says what the bytes of a message are and which error comes
    first; `wire_laws.rs` and `wire_end_laws.rs` prove what holds of the codec as a
    whole, such as that an encoded message decodes to itself.
  - `range.rs`, `ids.rs` and `work_queue.rs` hold the queue of header work.
    `work_model.rs` says what each operation does to the queue; `work_laws.rs`,
    `work_owner_laws.rs` and `work_repeat_laws.rs` prove what holds across
    operations.
- `src/transport/service.rs` holds streams, peers and the service interface.
- `src/testkit/` holds the scenarios of the block-sync fuzzer, the decisions of its
  synthetic peers and drivers, and the invariants by which a run is judged.
- `src/chain.rs`, `src/engine.rs`, `src/frame.rs` and `src/time.rs` hold plain
  values; `src/le.rs`, `src/layout.rs` and `src/vec_map.rs` are shared tools.
- `app/` is ordinary Rust around the library: tasks, sleeps, floating point, error
  texts, and the calls into the chain's own parsers.
- `tests/` runs the library from outside.

## What is taken on trust

Each item that Verus believes without proof says so above its declaration: seeding
and drawing from `rand::rngs::StdRng`, reading fields of a `serde_json::Value`, and
cloning or deriving a `tokio_util::sync::CancellationToken`.
