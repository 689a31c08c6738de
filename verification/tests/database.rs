use wasmcord::database::{guild_config_from_row, storage_id};

#[test]
fn ids_are_stored_as_the_same_bits() {
    assert_eq!(storage_id(0), 0);
    assert_eq!(storage_id(123), 123);
    assert_eq!(storage_id(i64::MAX as u64), i64::MAX);
    assert_eq!(storage_id(1u64 << 63), i64::MIN);
    assert_eq!(storage_id(u64::MAX), -1);
}

#[test]
fn rows_become_guild_configs() {
    let c = guild_config_from_row(Some((42, "?".to_string()))).unwrap();
    assert_eq!(c.guild_id, 42);
    assert_eq!(c.prefix, "?");
    assert!(guild_config_from_row(None).is_none());
}
