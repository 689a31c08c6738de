//! The example plugin's logic: it answers `!ping` with "Pong!".
use vstd::prelude::*;

use crate::loader::EventKind;
use crate::text::{decimal_text, push_decimal, str_eq};

verus! {

/// What `String::from_utf8_lossy` reads from bytes.
pub uninterp spec fn lossy_text(bytes: Seq<u8>) -> Seq<char>;

/// A character of Unicode's `White_Space` property.
pub open spec fn is_white_space(c: char) -> bool {
    let n = c as u32;
    ||| 0x09 <= n <= 0x0D
    ||| n == 0x20
    ||| n == 0x85
    ||| n == 0xA0
    ||| n == 0x1680
    ||| 0x2000 <= n <= 0x200A
    ||| n == 0x2028
    ||| n == 0x2029
    ||| n == 0x202F
    ||| n == 0x205F
    ||| n == 0x3000
}

/// A text without its leading white space.
pub open spec fn trim_start_of(s: Seq<char>) -> Seq<char>
    decreases s.len(),
{
    if s.len() > 0 && is_white_space(s[0]) {
        trim_start_of(s.drop_first())
    } else {
        s
    }
}

/// A text without its trailing white space.
pub open spec fn trim_end_of(s: Seq<char>) -> Seq<char>
    decreases s.len(),
{
    if s.len() > 0 && is_white_space(s.last()) {
        trim_end_of(s.drop_last())
    } else {
        s
    }
}

/// A text without its leading and trailing white space.
pub open spec fn trimmed(s: Seq<char>) -> Seq<char> {
    trim_end_of(trim_start_of(s))
}

/// Calls `String::from_utf8_lossy`. Claimed: the result is the named
/// reading, and bytes that are valid UTF-8 read as the text they encode.
#[verifier::external_body]
fn utf8_lossy(bytes: &[u8]) -> (r: String)
    ensures
        r@ == lossy_text(bytes@),
        vstd::utf8::valid_utf8(bytes@) ==> r@ == vstd::utf8::decode_utf8(bytes@),
{
    String::from_utf8_lossy(bytes).into_owned()
}

/// Calls `str::trim`. Claimed, as its documentation says: the text with its
/// leading and trailing `White_Space` characters removed.
#[verifier::external_body]
fn trim(s: &str) -> (r: &str)
    ensures
        r@ == trimmed(s@),
{
    s.trim()
}

/// A call of the host's `http-request` function, its arguments in the
/// host's parameter order.
pub struct HttpRequestCall {
    pub url: String,
    pub method: String,
    pub body: Vec<u8>,
}

/// The Discord API endpoint for posting a message in a channel.
pub open spec fn messages_url(channel_id: u64) -> Seq<char> {
    "https://discord.com/api/v10/channels/"@ + decimal_text(channel_id as nat) + "/messages"@
}

/// The JSON body of the reply.
pub open spec fn pong_body() -> Seq<u8> {
    vstd::utf8::encode_utf8("{\"content\":\"Pong!\"}"@)
}

/// The plugin's event handler: a message whose text, trimmed, is `!ping`
/// makes it call the host's `http-request` to `POST` a "Pong!" message to
/// the messages endpoint of the message's channel; any other event makes no
/// call.
pub fn handle_event(event_type: EventKind, payload: &[u8], _guild_id: u64, channel_id: u64) -> (r: Option<
    HttpRequestCall,
>)
    ensures
        r is Some <==> (event_type == EventKind::MessageCreate && trimmed(lossy_text(payload@))
            == "!ping"@),
        r matches Some(call) ==> {
            &&& call.url@ == messages_url(channel_id)
            &&& call.method@ == "POST"@
            &&& call.body@ == pong_body()
        },
{
    if event_type != EventKind::MessageCreate {
        return None;
    }
    let msg = utf8_lossy(payload);
    if !str_eq(trim(msg.as_str()), "!ping") {
        return None;
    }
    let body = vstd::slice::slice_to_vec("{\"content\":\"Pong!\"}".as_bytes());
    let mut url = String::from_str("https://discord.com/api/v10/channels/");
    push_decimal(&mut url, channel_id);
    url.append("/messages");
    Some(HttpRequestCall { url, method: String::from_str("POST"), body })
}

} // verus!
