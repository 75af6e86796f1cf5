# conduit_core

The core of a DNS forwarding and observability platform, written in Verus:
executable Rust whose behaviour is stated in `requires` / `ensures`
contracts and proved.

## Layout

- `src/` — the verified library.
  - `transaction.rs`, `phase.rs`, `pipeline.rs`, `orchestrator.rs`: the
    per-query transaction and the step functions that drive it through its
    phases.
  - `structural_parse.rs`, `parse_reject.rs`, `acl.rs`: query parsing and
    client admission.
  - `rules.rs`, `stages/`: request and response rules, routing, and the send
    stage (error replies, fitting a reply to the client's UDP payload size
    on record boundaries).
  - `routing.rs`, `health/`: weighted backend selection over eligible
    backends, health state machines, probes and control scopes.
  - `lookup/cache/`: cache keys, the in-memory cache, in-flight coalescing,
    serve-time preparation (id, TTL aging, RRset rotation), and the LMDB
    layout and eviction policy.
  - `configurator.rs`, `config_edit.rs`, `pool_edit.rs`, `snapshot.rs`,
    `runtime_view.rs`: configuration edits and the runtime views built from
    them.
  - `dns_message.rs`: the calls into hickory-proto that decode, edit and
    encode DNS messages, with their trusted contracts.
- `tests/` — tests of the library's public functions.
- `app/` — ordinary Rust around the library: the orchestrator loop over
  pipeline stages, cache runtime wiring, file reads of the LMDB layout,
  latency smoothing (floating point), and the serve-time random seed.

## Checking

`verus` verifies `src/lib.rs`; `cargo test` runs the tests against the
compiled library.
