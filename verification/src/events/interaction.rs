//! An interaction (a slash command, a button press).
use vstd::prelude::*;

use super::Dispatch;

verus! {

/// What the handler reads of a received interaction.
pub struct IncomingInteraction {
    /// The interaction as JSON.
    pub payload: Vec<u8>,
    /// The guild it happened in, if any.
    pub guild_id: Option<u64>,
    /// The channel it happened in, if known.
    pub channel_id: Option<u64>,
}

/// Every interaction is handed to the plugins as an `interaction-create`
/// event carrying the interaction's JSON; a missing guild or channel is 0.
pub fn handle(interaction: IncomingInteraction) -> (d: Dispatch)
    ensures
        d.event@ == "interaction-create"@,
        d.payload@ == interaction.payload@,
        d.guild_id == match interaction.guild_id {
            Some(g) => g,
            None => 0,
        },
        d.channel_id == match interaction.channel_id {
            Some(c) => c,
            None => 0,
        },
{
    let guild_id = match interaction.guild_id {
        Some(g) => g,
        None => 0,
    };
    let channel_id = match interaction.channel_id {
        Some(c) => c,
        None => 0,
    };
    Dispatch {
        event: String::from_str("interaction-create"),
        payload: interaction.payload,
        guild_id,
        channel_id,
    }
}

} // verus!
