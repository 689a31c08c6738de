//! Discord events turned into what the plugins are handed.
use vstd::prelude::*;

pub mod interaction;
pub mod message;
pub mod ready;

verus! {

/// One event for the plugin manager to hand to every loaded plugin.
pub struct Dispatch {
    /// The event's name, as `PluginManager::dispatch_event` reads it.
    pub event: String,
    /// The event's payload.
    pub payload: Vec<u8>,
    /// The guild the event came from, or 0.
    pub guild_id: u64,
    /// The channel the event came from, or 0.
    pub channel_id: u64,
}

} // verus!
