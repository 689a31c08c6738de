//! Routing of raw gateway frames: which frames reach the plugins, under
//! which event name, and with which guild and channel.
use vstd::prelude::*;

use std::collections::BTreeMap;

use crate::events::Dispatch;
use crate::keyed::{distinct_keys, find_key, has_key, key_index, lemma_key_index_unique};
use crate::loader::{event_kind_of, EventKind};
use crate::text::{decimal_u64, parse_u64, str_eq};

verus! {

/// serde_json's document tree, carried through unopened.
#[verifier::external_type_specification]
#[verifier::external_body]
pub struct ExJsonValue(serde_json::Value);

/// `serde_json::from_str` reads `text` as a JSON document without error.
pub uninterp spec fn json_text_is_valid(text: Seq<char>) -> bool;

/// Calls `serde_json::from_str` to read a document tree. Claimed: it
/// succeeds exactly on the texts that the name above holds of.
#[verifier::external_body]
fn parse_json_value(text: &str) -> (r: Result<serde_json::Value, serde_json::Error>)
    ensures
        r is Ok <==> json_text_is_valid(text@),
{
    serde_json::from_str(text)
}

/// What `serde_json::from_str` reads from `text` as a JSON object whose
/// values are kept as raw JSON text: field name → the field's text.
pub uninterp spec fn json_object_fields(text: Seq<char>) -> Option<Map<Seq<char>, Seq<char>>>;

/// What `serde_json::from_str` reads from `raw` as a `u64`.
pub uninterp spec fn json_u64_of(raw: Seq<char>) -> Option<u64>;

/// What `serde_json::from_str` reads from `raw` as a string.
pub uninterp spec fn json_string_of(raw: Seq<char>) -> Option<Seq<char>>;

/// The map that a list of field names and texts stands for.
pub open spec fn fields_view(s: Seq<(String, String)>) -> Map<Seq<char>, Seq<char>> {
    Map::new(|k: Seq<char>| has_key(s, k), |k: Seq<char>| s[key_index(s, k)].1@)
}

/// The fields of an object that was read, if one was.
pub open spec fn opt_fields_view(fields: Option<Vec<(String, String)>>) -> Option<Map<Seq<char>, Seq<char>>> {
    match fields {
        Some(v) => Some(fields_view(v@)),
        None => None,
    }
}

/// Calls `serde_json::from_str` to read a JSON object into a sorted map of
/// raw values (`serde_json::value::RawValue`), and copies each field's text.
/// Claimed: the object is read exactly when the named reading exists, the
/// pairs (read through a sorted map, so no name occurs twice) stand for it,
/// and, as a raw value is a single valid JSON value of the document, every
/// field of a document that reads as a `serde_json::Value` reads as one too.
#[verifier::external_body]
fn json_object(text: &str) -> (r: Option<Vec<(String, String)>>)
    ensures
        match r {
            Some(v) => json_object_fields(text@) == Some(fields_view(v@)) && distinct_keys(v@),
            None => json_object_fields(text@) is None,
        },
        r matches Some(v) ==> (json_text_is_valid(text@) ==> forall|i: int|
            0 <= i < v@.len() ==> json_text_is_valid((#[trigger] v@[i]).1@)),
{
    match serde_json::from_str::<BTreeMap<String, &serde_json::value::RawValue>>(text) {
        Ok(m) => Some(m.into_iter().map(|(k, v)| (k, v.get().to_string())).collect()),
        Err(_) => None,
    }
}

/// Calls `serde_json::from_str` to read a `u64`. Claimed: the result is the
/// named reading.
#[verifier::external_body]
fn json_u64(raw: &str) -> (r: Option<u64>)
    ensures
        r == json_u64_of(raw@),
{
    serde_json::from_str::<u64>(raw).ok()
}

/// Calls `serde_json::from_str` to read a string. Claimed: the result is the
/// named reading.
#[verifier::external_body]
fn json_string(raw: &str) -> (r: Option<String>)
    ensures
        match r {
            Some(s) => json_string_of(raw@) == Some(s@),
            None => json_string_of(raw@) is None,
        },
{
    serde_json::from_str::<String>(raw).ok()
}

/// What serde_json writes with `to_vec` for the document tree that
/// `from_str` reads from `raw`.
pub uninterp spec fn json_reencoding(raw: Seq<char>) -> Seq<u8>;

/// Calls `serde_json::from_str` to read `raw` as a document tree and
/// `serde_json::to_vec` to write the tree back. Claimed: there are bytes
/// exactly when `raw` reads as a document (writing a tree does not fail:
/// serde_json's documentation names only failing `Serialize` impls and
/// non-string map keys, and a tree's maps have string keys), and they are
/// the named bytes.
#[verifier::external_body]
fn reencode_json(raw: &str) -> (r: Option<Vec<u8>>)
    ensures
        r is Some <==> json_text_is_valid(raw@),
        r matches Some(b) ==> b@ == json_reencoding(raw@),
{
    serde_json::from_str::<serde_json::Value>(raw).ok().and_then(|v| serde_json::to_vec(&v).ok())
}

/// The raw text of a field, where there are fields and that one is there.
pub open spec fn field_of(fields: Option<Map<Seq<char>, Seq<char>>>, key: Seq<char>) -> Option<Seq<char>> {
    match fields {
        Some(m) => if m.contains_key(key) {
            Some(m[key])
        } else {
            None
        },
        None => None,
    }
}

/// A field read as a string.
pub open spec fn string_field(fields: Option<Map<Seq<char>, Seq<char>>>, key: Seq<char>) -> Option<Seq<char>> {
    match field_of(fields, key) {
        Some(raw) => json_string_of(raw),
        None => None,
    }
}

/// A field read as an object.
pub open spec fn object_field(fields: Option<Map<Seq<char>, Seq<char>>>, key: Seq<char>) -> Option<
    Map<Seq<char>, Seq<char>>,
> {
    match field_of(fields, key) {
        Some(raw) => json_object_fields(raw),
        None => None,
    }
}

/// An id held as decimal text, read as `u64::from_str` reads it, else 0.
pub open spec fn text_id_or_zero(text: Option<Seq<char>>) -> u64 {
    match text {
        Some(t) => match decimal_u64(t) {
            Some(v) => v,
            None => 0,
        },
        None => 0,
    }
}

/// A frame reaches the plugins: it is a JSON document whose `op` is 0.
pub open spec fn frame_is_dispatched(text: Seq<char>) -> bool {
    &&& json_text_is_valid(text)
    &&& match field_of(json_object_fields(text), "op"@) {
        Some(raw) => json_u64_of(raw) == Some(0u64),
        None => false,
    }
}

/// The event name of a frame: the plugins' name of its `t`, else `UNKNOWN`.
pub open spec fn frame_event(text: Seq<char>) -> Seq<char> {
    match string_field(json_object_fields(text), "t"@) {
        Some(t) => plugin_event_name(t),
        None => "UNKNOWN"@,
    }
}

/// The payload of a frame: its `d` written back as compact JSON, else `null`.
pub open spec fn frame_payload(text: Seq<char>) -> Seq<u8> {
    match field_of(json_object_fields(text), "d"@) {
        Some(raw) => json_reencoding(raw),
        None => vstd::utf8::encode_utf8("null"@),
    }
}

/// The guild of a frame: `d.guild_id`, else 0.
pub open spec fn frame_guild(text: Seq<char>) -> u64 {
    text_id_or_zero(string_field(object_field(json_object_fields(text), "d"@), "guild_id"@))
}

/// The channel of a frame: `d.channel_id`, else `d.channel.id`, else 0.
pub open spec fn frame_channel(text: Seq<char>) -> u64 {
    let data = object_field(json_object_fields(text), "d"@);
    match string_field(data, "channel_id"@) {
        Some(c) if decimal_u64(c) is Some => text_id_or_zero(Some(c)),
        _ => text_id_or_zero(string_field(object_field(data, "channel"@), "id"@)),
    }
}

/// The id that a text field holds, read as `u64::from_str` reads it.
pub open spec fn id_value(text: Option<String>) -> Option<u64> {
    match text {
        Some(t) => decimal_u64(t@),
        None => None,
    }
}

/// The plugins' name of a gateway event: the gateway's names of the events
/// that plugins handle become theirs (`MESSAGE_CREATE` becomes
/// `message-create`, `MESSAGE_REACTION_ADD` becomes `reaction-add`); other
/// names are kept.
pub open spec fn plugin_event_name(t: Seq<char>) -> Seq<char> {
    if t == "READY"@ {
        "ready"@
    } else if t == "MESSAGE_CREATE"@ {
        "message-create"@
    } else if t == "INTERACTION_CREATE"@ {
        "interaction-create"@
    } else if t == "GUILD_MEMBER_ADD"@ {
        "guild-member-add"@
    } else if t == "GUILD_MEMBER_REMOVE"@ {
        "guild-member-remove"@
    } else if t == "MESSAGE_REACTION_ADD"@ {
        "reaction-add"@
    } else if t == "VOICE_STATE_UPDATE"@ {
        "voice-state-update"@
    } else {
        t
    }
}

/// Gives a gateway event the name that the plugins know it by.
pub fn plugin_event_name_of(t: String) -> (r: String)
    ensures
        r@ == plugin_event_name(t@),
{
    if str_eq(t.as_str(), "READY") {
        String::from_str("ready")
    } else if str_eq(t.as_str(), "MESSAGE_CREATE") {
        String::from_str("message-create")
    } else if str_eq(t.as_str(), "INTERACTION_CREATE") {
        String::from_str("interaction-create")
    } else if str_eq(t.as_str(), "GUILD_MEMBER_ADD") {
        String::from_str("guild-member-add")
    } else if str_eq(t.as_str(), "GUILD_MEMBER_REMOVE") {
        String::from_str("guild-member-remove")
    } else if str_eq(t.as_str(), "MESSAGE_REACTION_ADD") {
        String::from_str("reaction-add")
    } else if str_eq(t.as_str(), "VOICE_STATE_UPDATE") {
        String::from_str("voice-state-update")
    } else {
        t
    }
}

/// Each gateway event that plugins handle reaches them under an event kind.
pub proof fn lemma_gateway_events_reach_plugins(t: Seq<char>)
    requires
        t == "READY"@ || t == "MESSAGE_CREATE"@ || t == "INTERACTION_CREATE"@ || t
            == "GUILD_MEMBER_ADD"@ || t == "GUILD_MEMBER_REMOVE"@ || t == "MESSAGE_REACTION_ADD"@
            || t == "VOICE_STATE_UPDATE"@,
    ensures
        event_kind_of(plugin_event_name(t)) is Some,
{
}

/// The events that plugins handle reach them as the kind of the same event:
/// `READY` as ready, `MESSAGE_CREATE` as a new message, and so on.
pub proof fn lemma_gateway_event_kinds()
    ensures
        event_kind_of(plugin_event_name("READY"@)) == Some(EventKind::Ready),
        event_kind_of(plugin_event_name("MESSAGE_CREATE"@)) == Some(EventKind::MessageCreate),
        event_kind_of(plugin_event_name("INTERACTION_CREATE"@)) == Some(
            EventKind::InteractionCreate,
        ),
        event_kind_of(plugin_event_name("GUILD_MEMBER_ADD"@)) == Some(EventKind::GuildMemberAdd),
        event_kind_of(plugin_event_name("GUILD_MEMBER_REMOVE"@)) == Some(
            EventKind::GuildMemberRemove,
        ),
        event_kind_of(plugin_event_name("MESSAGE_REACTION_ADD"@)) == Some(EventKind::ReactionAdd),
        event_kind_of(plugin_event_name("VOICE_STATE_UPDATE"@)) == Some(
            EventKind::VoiceStateUpdate,
        ),
{
    reveal_strlit("READY");
    reveal_strlit("MESSAGE_CREATE");
    reveal_strlit("INTERACTION_CREATE");
    reveal_strlit("GUILD_MEMBER_ADD");
    reveal_strlit("GUILD_MEMBER_REMOVE");
    reveal_strlit("MESSAGE_REACTION_ADD");
    reveal_strlit("VOICE_STATE_UPDATE");
    reveal_strlit("ready");
    reveal_strlit("message-create");
    reveal_strlit("interaction-create");
    reveal_strlit("guild-member-add");
    reveal_strlit("guild-member-remove");
    reveal_strlit("reaction-add");
    reveal_strlit("voice-state-update");
    assert("READY"@.len() == 5);
    assert("MESSAGE_CREATE"@.len() == 14);
    assert("INTERACTION_CREATE"@.len() == 18);
    assert("GUILD_MEMBER_ADD"@.len() == 16);
    assert("GUILD_MEMBER_REMOVE"@.len() == 19);
    assert("MESSAGE_REACTION_ADD"@.len() == 20);
    assert("VOICE_STATE_UPDATE"@.len() == 18);
    assert("ready"@.len() == 5);
    assert("message-create"@.len() == 14);
    assert("interaction-create"@.len() == 18);
    assert("guild-member-add"@.len() == 16);
    assert("guild-member-remove"@.len() == 19);
    assert("reaction-add"@.len() == 12);
    assert("voice-state-update"@.len() == 18);
    assert("INTERACTION_CREATE"@[0] != "VOICE_STATE_UPDATE"@[0]);
    assert("interaction-create"@[0] != "voice-state-update"@[0]);
}

/// Any other gateway event keeps its gateway name: it is not renamed into
/// one of the events that plugins handle.
pub proof fn lemma_other_gateway_events_keep_their_name(t: Seq<char>)
    requires
        t != "READY"@,
        t != "MESSAGE_CREATE"@,
        t != "INTERACTION_CREATE"@,
        t != "GUILD_MEMBER_ADD"@,
        t != "GUILD_MEMBER_REMOVE"@,
        t != "MESSAGE_REACTION_ADD"@,
        t != "VOICE_STATE_UPDATE"@,
    ensures
        plugin_event_name(t) == t,
        event_kind_of(t) is None ==> event_kind_of(plugin_event_name(t)) is None,
{
}

/// The guild of an event: its `guild_id`, else 0.
pub open spec fn id_or_zero(text: Option<String>) -> u64 {
    match id_value(text) {
        Some(g) => g,
        None => 0,
    }
}

/// The channel of an event: its `channel_id`, else the id of its `channel`
/// object, else 0.
pub open spec fn channel_of(channel_id: Option<String>, channel_ref_id: Option<String>) -> u64 {
    match id_value(channel_id) {
        Some(c) => c,
        None => match id_value(channel_ref_id) {
            Some(c) => c,
            None => 0,
        },
    }
}

fn read_id(text: Option<String>) -> (r: Option<u64>)
    ensures
        r == id_value(text),
{
    match text {
        Some(t) => parse_u64(t.as_str()),
        None => None,
    }
}

/// The dispatch for a frame with opcode 0, from the fields the loop reads:
/// the event name `t` under the plugins' name for it (`UNKNOWN` where missing), the data `d` written as
/// JSON, and the guild and channel ids that the data holds as text.
pub fn gateway_dispatch(
    event_name: Option<String>,
    data: Vec<u8>,
    guild_id: Option<String>,
    channel_id: Option<String>,
    channel_ref_id: Option<String>,
) -> (d: Dispatch)
    ensures
        d.event@ == match event_name {
            Some(n) => plugin_event_name(n@),
            None => "UNKNOWN"@,
        },
        d.payload@ == data@,
        d.guild_id == id_or_zero(guild_id),
        d.channel_id == channel_of(channel_id, channel_ref_id),
{
    let event = match event_name {
        Some(n) => plugin_event_name_of(n),
        None => String::from_str("UNKNOWN"),
    };
    let guild = match read_id(guild_id) {
        Some(g) => g,
        None => 0,
    };
    let channel = match read_id(channel_id) {
        Some(c) => c,
        None => match read_id(channel_ref_id) {
            Some(c) => c,
            None => 0,
        },
    };
    Dispatch { event, payload: data, guild_id: guild, channel_id: channel }
}

/// The raw text of field `key`.
fn find_field(fields: &Option<Vec<(String, String)>>, key: &str) -> (r: Option<String>)
    requires
        fields matches Some(v) ==> distinct_keys(v@),
    ensures
        match r {
            Some(raw) => field_of(
                opt_fields_view(*fields),
                key@,
            ) == Some(raw@),
            None => field_of(
                opt_fields_view(*fields),
                key@,
            ) is None,
        },
        r matches Some(raw) ==> exists|i: int|
            0 <= i < fields->Some_0@.len() && (#[trigger] fields->Some_0@[i]).1@ == raw@,
{
    match fields {
        None => None,
        Some(v) => match find_key(v, key) {
            Some(i) => {
                proof {
                    lemma_key_index_unique(v@, i as int);
                }
                Some(v[i].1.clone())
            },
            None => None,
        },
    }
}

/// A field of an object, read as a string.
fn find_string(fields: &Option<Vec<(String, String)>>, key: &str) -> (r: Option<String>)
    requires
        fields matches Some(v) ==> distinct_keys(v@),
    ensures
        match r {
            Some(s) => string_field(
                opt_fields_view(*fields),
                key@,
            ) == Some(s@),
            None => string_field(
                opt_fields_view(*fields),
                key@,
            ) is None,
        },
{
    match find_field(fields, key) {
        Some(raw) => json_string(raw.as_str()),
        None => None,
    }
}

/// Reads one text frame of the gateway: frames that are not JSON documents,
/// and frames whose `op` is not 0, are passed over (`None`); any other
/// frame becomes the dispatch named by the plugins' name of its `t`,
/// carrying its `d` written back as JSON (`null` where it has none), with the guild of `d.guild_id` and the
/// channel of `d.channel_id` or `d.channel.id` (0 where these do not hold an
/// id).
pub fn route_gateway_text(text: &str) -> (r: Option<Dispatch>)
    ensures
        !frame_is_dispatched(text@) ==> r is None,
        frame_is_dispatched(text@) ==> (r matches Some(d) && d.event@ == frame_event(text@)
            && d.payload@ == frame_payload(text@) && d.guild_id == frame_guild(text@) && d.channel_id == frame_channel(text@)),
{
    if parse_json_value(text).is_err() {
        return None;
    }
    let fields = json_object(text);
    let ghost top = opt_fields_view(fields);
    assert(top == json_object_fields(text@));
    let op = match find_field(&fields, "op") {
        Some(raw) => json_u64(raw.as_str()),
        None => None,
    };
    if !matches!(op, Some(0u64)) {
        return None;
    }
    let event_name = find_string(&fields, "t");
    let raw_data = find_field(&fields, "d");
    let (bytes, data) = match raw_data {
        Some(raw) => {
            let bytes = match reencode_json(raw.as_str()) {
                Some(b) => b,
                None => {
                    assert(false);
                    return None;
                },
            };
            (bytes, json_object(raw.as_str()))
        },
        None => (vstd::slice::slice_to_vec("null".as_bytes()), None),
    };
    let ghost dv = opt_fields_view(data);
    assert(dv == object_field(top, "d"@));
    let guild_id = find_string(&data, "guild_id");
    let channel_id = find_string(&data, "channel_id");
    let channel = match find_field(&data, "channel") {
        Some(raw) => json_object(raw.as_str()),
        None => None,
    };
    assert(opt_fields_view(channel) == object_field(dv, "channel"@));
    let channel_ref_id = find_string(&channel, "id");
    let d = gateway_dispatch(event_name, bytes, guild_id, channel_id, channel_ref_id);
    Some(d)
}

} // verus!
