# chukei_core

The decision logic of **chukei**, a transparent Snowflake query proxy that
caches, routes, rewrites, suspends and attributes queries without client
changes, written in Verus. The functions in `src/` carry contracts that
Verus proves, on top of a set of trusted wrappers around the outside crates
(`sqlparser`, `blake3`, `sha2`, `base64`, `ed25519-dalek`, `flate2`, `csv`,
`chrono`, `serde_json`) and the clock, whose contracts are believed, not
proved. The clock readers (`now_ms`, `unix_ms`) state nothing of the time.

## Layout

- `src/` — the verified library.
  - `sql/` — parsing (through `sqlparser`), canonical text, literal
    extraction, hard and soft fingerprints, `chukei:` hint comments, query
    features.
  - `plugin/` — the plugin contract, the bus's execution order and the
    first-writer-wins merge of decisions, the plugin registry.
  - `cache/` — the result cache: TTLs by table family, the determinism gate,
    eviction of the oldest entries, lineage invalidation, the index of the
    persistent store.
  - `router.rs`, `rewrite.rs`, `attribute.rs`, `suspend.rs` — the other
    plugins' decisions.
  - `wire.rs` — the proxy's decisions on the wire: tokens, request ids,
    retry replay, coalescing keys, gzip bodies, session facts, the order
    in which an inspected query is handled.
  - `payload.rs` — the JSON bodies of the wire protocol: the SQL text and
    bind variables a query request carries, the rewritten request, the
    flags of a reply, the blame verdict, the facts of logins and token
    renewals.
  - `config.rs`, `overrides.rs` — configuration defaults, validation,
    `${VAR}` interpolation and `CHUKEI_*` overrides.
  - `replay.rs`, `projection.rs` — reading a query-history CSV and the
    counts a replay projects.
  - `evidence.rs` — signing and checking evidence envelopes.
  - `pricing.rs`, `savings.rs`, `doctor.rs`, `circuit_breaker.rs`,
    `service.rs`.
- `tests/` — tests run against the compiled library.
- `app/` — the `chukei` command line: HTTP serving, files, SQLite, metrics,
  and the floating-point parts (savings prices, the suspend model). Those
  prices and the suspend model are computed in floating point in `app/`,
  which the tests do not run; the tests cover the integer counts of a
  replay and the warehouse sizes prices are read from.
