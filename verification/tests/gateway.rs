use wasmcord::gateway::{gateway_dispatch, plugin_event_name_of, route_gateway_text};
use wasmcord::loader::{event_kind, EventKind};

#[test]
fn dispatch_frame_is_routed() {
    let text = r#"{"op":0,"t":"MESSAGE_CREATE","s":3,"d":{"guild_id":"123","channel_id":"456","content":"hi"}}"#;
    let d = route_gateway_text(text).unwrap();
    assert_eq!(d.event, "message-create");
    assert_eq!(d.guild_id, 123);
    assert_eq!(d.channel_id, 456);
    let data: serde_json::Value = serde_json::from_slice(&d.payload).unwrap();
    assert_eq!(data["content"], "hi");
}

#[test]
fn other_opcodes_are_passed_over() {
    assert!(route_gateway_text(r#"{"op":11}"#).is_none());
    assert!(route_gateway_text(r#"{"op":1,"d":251}"#).is_none());
    assert!(route_gateway_text(r#"{"t":"READY"}"#).is_none());
    assert!(route_gateway_text(r#"{"op":"0"}"#).is_none());
}

#[test]
fn non_json_frames_are_passed_over() {
    assert!(route_gateway_text("not json").is_none());
    assert!(route_gateway_text("").is_none());
}

#[test]
fn missing_name_and_ids_default() {
    let d = route_gateway_text(r#"{"op":0}"#).unwrap();
    assert_eq!(d.event, "UNKNOWN");
    assert_eq!(d.payload, b"null".to_vec());
    assert_eq!(d.guild_id, 0);
    assert_eq!(d.channel_id, 0);
}

#[test]
fn channel_object_id_is_used_when_channel_id_is_missing() {
    let text = r#"{"op":0,"t":"INTERACTION_CREATE","d":{"channel":{"id":"789"},"guild_id":"5"}}"#;
    let d = route_gateway_text(text).unwrap();
    assert_eq!(d.channel_id, 789);
    assert_eq!(d.guild_id, 5);
}

#[test]
fn numeric_ids_are_not_read() {
    let text = r#"{"op":0,"t":"X","d":{"guild_id":123,"channel_id":"+42"}}"#;
    let d = route_gateway_text(text).unwrap();
    assert_eq!(d.guild_id, 0);
    assert_eq!(d.channel_id, 42);
}

#[test]
fn gateway_dispatch_from_fields() {
    let d = gateway_dispatch(
        Some("READY".to_string()),
        b"{}".to_vec(),
        Some("18446744073709551615".to_string()),
        Some("18446744073709551616".to_string()),
        Some("12".to_string()),
    );
    assert_eq!(d.event, "ready");
    assert_eq!(d.payload, b"{}".to_vec());
    assert_eq!(d.guild_id, u64::MAX);
    assert_eq!(d.channel_id, 12);
    let d = gateway_dispatch(None, vec![], Some("-1".to_string()), None, Some("x".to_string()));
    assert_eq!(d.event, "UNKNOWN");
    assert_eq!(d.guild_id, 0);
    assert_eq!(d.channel_id, 0);
}

#[test]
fn unreadable_channel_id_falls_back_to_channel_object() {
    let text = r#"{"op":0,"t":"X","d":{"channel_id":"abc","channel":{"id":"31"}}}"#;
    let d = route_gateway_text(text).unwrap();
    assert_eq!(d.channel_id, 31);
}

#[test]
fn non_object_frames_and_data_are_handled() {
    assert!(route_gateway_text("[0]").is_none());
    assert!(route_gateway_text("0").is_none());
    let d = route_gateway_text(r#"{"op":0,"t":"X","d":[1, 2]}"#).unwrap();
    assert_eq!(d.payload, b"[1,2]".to_vec());
    assert_eq!(d.guild_id, 0);
    let d = route_gateway_text(r#"{"op":0,"t":"X","d":{"b":1, "a":"x"}}"#).unwrap();
    assert_eq!(d.payload, br#"{"a":"x","b":1}"#.to_vec());
}

#[test]
fn gateway_event_names_become_plugin_event_names() {
    let pairs = [
        ("READY", "ready", EventKind::Ready),
        ("MESSAGE_CREATE", "message-create", EventKind::MessageCreate),
        ("INTERACTION_CREATE", "interaction-create", EventKind::InteractionCreate),
        ("GUILD_MEMBER_ADD", "guild-member-add", EventKind::GuildMemberAdd),
        ("GUILD_MEMBER_REMOVE", "guild-member-remove", EventKind::GuildMemberRemove),
        ("MESSAGE_REACTION_ADD", "reaction-add", EventKind::ReactionAdd),
        ("VOICE_STATE_UPDATE", "voice-state-update", EventKind::VoiceStateUpdate),
    ];
    for (gateway, plugin, kind) in pairs {
        let name = plugin_event_name_of(gateway.to_string());
        assert_eq!(name, plugin);
        assert_eq!(event_kind(&name), Some(kind));
    }
    assert_eq!(plugin_event_name_of("TYPING_START".to_string()), "TYPING_START");
}

#[test]
fn message_frame_reaches_plugins_with_its_data() {
    let text = r#"{"op":0,"t":"MESSAGE_CREATE","d":{"channel_id":"42","content":"!ping"}}"#;
    let d = route_gateway_text(text).unwrap();
    assert_eq!(
        wasmcord::loader::event_kind(&d.event),
        Some(wasmcord::loader::EventKind::MessageCreate)
    );
    let data: serde_json::Value = serde_json::from_str(r#"{"channel_id":"42","content":"!ping"}"#).unwrap();
    assert_eq!(d.payload, serde_json::to_vec(&data).unwrap());
    assert_eq!(d.guild_id, 0);
    assert_eq!(d.channel_id, 42);
}
