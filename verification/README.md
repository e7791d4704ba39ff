# relay_gateway

The decision logic of the NeMo Relay command-line gateway and its adaptive
response cache, written in Verus: every function in `src/` carries a
`requires`/`ensures` contract over mathematical models (`Seq`, `Map`, views
of the JSON model in `json.rs`), and Verus proves each body against it.

## Layout

- `src/` is the verified library.
  - Cache: `cache_flow.rs` (lookup, store and stream-tee decisions),
    `cache_shapes.rs` (which responses and chunks are storable and
    replayable; backend byte budget), `tool_cache.rs`, `tool_key.rs`,
    `tool_policy.rs` (class and override resolution), `wildcard.rs`
    (tool-name patterns and their ranking), `canonical.rs` and
    `canonical_order.rs` (canonical JSON for cache keys).
  - Gateway: `bootstrap_state.rs`, `gateway_lease.rs`, `gateway_stop.rs`,
    `operation_lock.rs`, `launch.rs`, `detached_spawn.rs`,
    `spawn_environment.rs`, `mcp_launch.rs`, `mcp_protocol.rs`,
    `banner.rs`, `logging_config.rs`.
  - Plugins and hosts: `plugin_policy.rs`, `plugin_trust.rs`,
    `plugin_render.rs`, `environment.rs`, `hooks.rs`, `codex_hooks.rs`,
    `agent_assets.rs`, `secrets.rs`, `secret_restoration.rs`, `marks.rs`,
    `thin.rs`.
  - Shared: `json.rs`, `text.rs`, `decimal.rs`, `bounded.rs`, `errors.rs`,
    `sampling.rs`, `crypto.rs`.
- Calls into outside crates (`sha2`, `base64`, `ring`, `regex`, `uuid`,
  `reqwest`'s URL parser) go through small `#[verifier::external_body]`
  wrappers whose contracts state what those crates document; each
  wrapper's doc comment names the function it calls.
- Laws that relate several functions are public `proof fn`s named
  `lemma_*`, next to the functions they speak of.
- `tests/` runs the library on concrete values.
- `app/` is the unverified shell: file system, processes, clock, stdio and
  serde conversions. It hands plain values to the library and acts on what
  the library decides.
