//! A message posted in a channel.
use vstd::prelude::*;

use super::Dispatch;

verus! {

/// What the handler reads of a received message.
pub struct IncomingMessage {
    /// The author is a bot.
    pub author_is_bot: bool,
    /// The message's text.
    pub content: String,
    /// The guild it was posted in, if any.
    pub guild_id: Option<u64>,
    /// The channel it was posted in.
    pub channel_id: u64,
}

/// Messages from bots are ignored; any other message is handed to the
/// plugins as a `message-create` event whose payload is its text in UTF-8.
pub fn handle(msg: IncomingMessage) -> (r: Option<Dispatch>)
    ensures
        msg.author_is_bot <==> r is None,
        r matches Some(d) ==> {
            &&& d.event@ == "message-create"@
            &&& d.payload@ == vstd::utf8::encode_utf8(msg.content@)
            &&& d.guild_id == match msg.guild_id {
                Some(g) => g,
                None => 0,
            }
            &&& d.channel_id == msg.channel_id
        },
{
    if msg.author_is_bot {
        return None;
    }
    let payload = vstd::slice::slice_to_vec(msg.content.as_str().as_bytes());
    let guild_id = match msg.guild_id {
        Some(g) => g,
        None => 0,
    };
    Some(
        Dispatch {
            event: String::from_str("message-create"),
            payload,
            guild_id,
            channel_id: msg.channel_id,
        },
    )
}

} // verus!
