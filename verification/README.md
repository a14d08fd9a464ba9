# mcpg_plugin

The logic of `mcpg-plugin`, the CLI that turns a built MCPG plugin into a
signed, packaged, verifiable OCI artifact, as a library verified with Verus.

- `src/` — the verified library, one module per concern:
  `cli` (errors, help detection), `text` / `num` / `path` (characters,
  integers, `/`-separated paths), `crypto` (hex, SHA-256 and Ed25519 through
  `sha2`, `hex` and `ed25519-dalek`), `sign`, `pack`, `registry`
  (`push` / `pull` credentials and names), `gc` and `cache` (`cache gc`),
  `inspect` (`hash`, `verify`, `list`, `unpack`), `harness` (`test`) and
  `scaffold` (`new`).
  SHA-256 is computed with `sha2`: the plugin host's own hashing helper
  lives in a crate of the plugin workspace that this library does not
  depend on. JSON inputs of `test` are parsed with `serde_json`.
- `tests/` — tests of the library's public functions.
- `app/` — the executable: command line, files, processes, the registry
  client and the plugin host; it hands plain values to the library and
  prints what comes back.
