//! Verified core of a WASM-plugin Discord bot: the plugin key-value store,
//! the plugin registry, gateway event routing and the helpers they rest on.
pub mod database;
pub mod events;
pub mod gateway;
pub mod host;
pub mod json;
pub mod keyed;
pub mod kv;
pub mod loader;
pub mod paths;
pub mod ping;
pub mod text;
