# wasmcord

A Discord bot whose features are WebAssembly plugins. This crate is the
bot's verified core, written in Verus; `app/` is the program around it.

## Layout

- `src/kv.rs` — the plugins' key-value store (scope → key → bytes), its
  JSON file format (`src/json.rs`), and the laws of `get` and `set`.
- `src/loader.rs` — the plugin registry (`PluginManager<P, C>`): loading,
  reloading and unloading plugins by name, their commands, the unloading of
  a plugin that fails too many events in a row, which files are plugins,
  and which event names reach them. `src/paths.rs` reads plugin
  names from file names.
- `src/gateway.rs` — which gateway frames are handed to the plugins, and
  with which event name, guild and channel.
- `src/events/` — messages, interactions and the ready event.
- `src/host.rs` — host functions that need no outside service: log levels,
  the `http` permission of a plugin's manifest,
  unsupported calls.
- `src/ping.rs` — the example plugin's behaviour.
- `src/database.rs` — the SQLite schema and how Discord ids are stored.
- `src/keyed.rs`, `src/text.rs` — string-keyed lists, string equality and
  decimal numbers.
- `app/` — `main`, the gateway connection, the WASM runtime, SQLite and
  file access.
