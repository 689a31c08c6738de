use wasmcord::events::interaction::{self, IncomingInteraction};
use wasmcord::events::message::{self, IncomingMessage};
use wasmcord::events::ready;

#[test]
fn bot_messages_are_ignored() {
    let msg = IncomingMessage {
        author_is_bot: true,
        content: "!ping".to_string(),
        guild_id: Some(1),
        channel_id: 2,
    };
    assert!(message::handle(msg).is_none());
}

#[test]
fn user_messages_are_dispatched() {
    let msg = IncomingMessage {
        author_is_bot: false,
        content: "héllo".to_string(),
        guild_id: Some(10),
        channel_id: 20,
    };
    let d = message::handle(msg).unwrap();
    assert_eq!(d.event, "message-create");
    assert_eq!(d.payload, "héllo".as_bytes().to_vec());
    assert_eq!(d.guild_id, 10);
    assert_eq!(d.channel_id, 20);
}

#[test]
fn direct_messages_have_guild_zero() {
    let msg = IncomingMessage {
        author_is_bot: false,
        content: String::new(),
        guild_id: None,
        channel_id: 7,
    };
    let d = message::handle(msg).unwrap();
    assert_eq!(d.guild_id, 0);
    assert_eq!(d.payload, Vec::<u8>::new());
}

#[test]
fn interactions_are_dispatched() {
    let d = interaction::handle(IncomingInteraction {
        payload: b"{\"id\":\"1\"}".to_vec(),
        guild_id: Some(3),
        channel_id: None,
    });
    assert_eq!(d.event, "interaction-create");
    assert_eq!(d.payload, b"{\"id\":\"1\"}".to_vec());
    assert_eq!(d.guild_id, 3);
    assert_eq!(d.channel_id, 0);
}

#[test]
fn ready_dispatches_nothing() {
    assert!(ready::handle().is_none());
}
