use wasmcord::loader::EventKind;
use wasmcord::ping::handle_event;

#[test]
fn ping_is_answered() {
    let call = handle_event(EventKind::MessageCreate, b"  !ping\n", 1, 42).unwrap();
    assert_eq!(call.url, "https://discord.com/api/v10/channels/42/messages");
    assert_eq!(call.method, "POST");
    assert_eq!(call.body, br#"{"content":"Pong!"}"#.to_vec());
}

#[test]
fn large_channel_ids_are_written_in_full() {
    let call = handle_event(EventKind::MessageCreate, b"!ping", 0, u64::MAX).unwrap();
    assert_eq!(
        call.url,
        "https://discord.com/api/v10/channels/18446744073709551615/messages"
    );
    let call = handle_event(EventKind::MessageCreate, b"!ping", 0, 0).unwrap();
    assert_eq!(call.url, "https://discord.com/api/v10/channels/0/messages");
}

#[test]
fn other_messages_are_not_answered() {
    assert!(handle_event(EventKind::MessageCreate, b"!pong", 1, 2).is_none());
    assert!(handle_event(EventKind::MessageCreate, b"!ping now", 1, 2).is_none());
    assert!(handle_event(EventKind::MessageCreate, b"\xff!ping", 1, 2).is_none());
    assert!(handle_event(EventKind::InteractionCreate, b"!ping", 1, 2).is_none());
    assert!(handle_event(EventKind::Ready, b"!ping", 1, 2).is_none());
}

#[test]
fn unicode_white_space_is_trimmed() {
    let text = "\u{3000}\u{a0}!ping\u{2028}\t".as_bytes();
    let call = handle_event(EventKind::MessageCreate, text, 0, 7).unwrap();
    assert_eq!(call.url, "https://discord.com/api/v10/channels/7/messages");
    let zero_width = "\u{200b}!ping".as_bytes();
    assert!(handle_event(EventKind::MessageCreate, zero_width, 0, 7).is_none());
}
