//! The bot's SQLite schema, its rows, and how Discord ids are stored.
use vstd::prelude::*;

verus! {

/// A guild's settings.
pub struct GuildConfig {
    pub guild_id: i64,
    pub prefix: String,
}

/// A value that a plugin keeps for a guild under a key.
pub struct PluginData {
    pub guild_id: i64,
    pub plugin_name: String,
    pub key: String,
    pub value: Vec<u8>,
}

/// Creates the table of guild settings.
pub const CREATE_GUILD_CONFIG: &'static str = "CREATE TABLE IF NOT EXISTS guild_config (
                guild_id  INTEGER PRIMARY KEY,
                prefix    TEXT NOT NULL DEFAULT '!'
            )";

/// Creates the table of plugin values.
pub const CREATE_PLUGIN_DATA: &'static str = "CREATE TABLE IF NOT EXISTS plugin_data (
                guild_id    INTEGER NOT NULL,
                plugin_name TEXT NOT NULL,
                key         TEXT NOT NULL,
                value       BLOB NOT NULL,
                PRIMARY KEY (guild_id, plugin_name, key)
            )";

/// Reads a guild's settings.
pub const SELECT_GUILD_CONFIG: &'static str = "SELECT guild_id, prefix FROM guild_config WHERE guild_id = ?";

/// Writes a guild's settings, replacing earlier ones.
pub const UPSERT_GUILD_CONFIG: &'static str = "INSERT INTO guild_config (guild_id, prefix)
             VALUES (?, ?)
             ON CONFLICT(guild_id) DO UPDATE SET prefix = excluded.prefix";

/// Reads a plugin value.
pub const SELECT_PLUGIN_DATA: &'static str = "SELECT value FROM plugin_data WHERE guild_id = ? AND plugin_name = ? AND key = ?";

/// Writes a plugin value, replacing an earlier one.
pub const UPSERT_PLUGIN_DATA: &'static str = "INSERT INTO plugin_data (guild_id, plugin_name, key, value)
             VALUES (?, ?, ?, ?)
             ON CONFLICT(guild_id, plugin_name, key) DO UPDATE SET value = excluded.value";

/// The signed integer a Discord id is stored as: the same 64 bits, so ids
/// from 2^63 up are stored as negative numbers.
pub open spec fn stored_id(id: u64) -> int {
    if id <= i64::MAX {
        id as int
    } else {
        id as int - 0x1_0000_0000_0000_0000
    }
}

/// A stored id is a signed 64-bit number with the same bits as the id: it
/// lies in the `i64` range and differs from the id by a multiple of 2^64;
/// ids that fit in an `i64` are stored as themselves.
pub proof fn lemma_stored_id_same_bits(id: u64)
    ensures
        i64::MIN <= stored_id(id) <= i64::MAX,
        (stored_id(id) - id) % 0x1_0000_0000_0000_0000 == 0,
        id <= i64::MAX ==> stored_id(id) == id,
{
}

/// The stored id is the only number in the `i64` range with the id's bits.
pub proof fn lemma_stored_id_unique(id: u64, x: int)
    requires
        i64::MIN <= x <= i64::MAX,
        (x - id) % 0x1_0000_0000_0000_0000 == 0,
    ensures
        x == stored_id(id),
{
    let m: int = 0x1_0000_0000_0000_0000;
    let q = (x - id) / m;
    assert(x - id == m * q) by (nonlinear_arith)
        requires
            m > 0,
            (x - id) % m == 0,
            q == (x - id) / m,
    ;
    assert(-2 < q < 1) by (nonlinear_arith)
        requires
            m == 0x1_0000_0000_0000_0000,
            x - id == m * q,
            -0x8000_0000_0000_0000 - 0xffff_ffff_ffff_ffff <= x - id <= 0x7fff_ffff_ffff_ffff,
    ;
}

/// Different ids are stored as different numbers.
pub proof fn lemma_stored_id_injective(a: u64, b: u64)
    requires
        stored_id(a) == stored_id(b),
    ensures
        a == b,
{
}

/// The column value for a Discord id.
pub fn storage_id(id: u64) -> (r: i64)
    ensures
        r as int == stored_id(id),
{
    let r = id as i64;
    assert(id <= 0x7fff_ffff_ffff_ffffu64 ==> r as int == id as int) by (bit_vector)
        requires
            r == id as i64,
    ;
    assert(id > 0x7fff_ffff_ffff_ffffu64 ==> r as int == id as int - 0x1_0000_0000_0000_0000) by (bit_vector)
        requires
            r == id as i64,
    ;
    r
}

/// The settings in a selected row, if there was one.
pub fn guild_config_from_row(row: Option<(i64, String)>) -> (r: Option<GuildConfig>)
    ensures
        match row {
            Some((id, prefix)) => r matches Some(c) && c.guild_id == id && c.prefix@ == prefix@,
            None => r is None,
        },
{
    match row {
        Some((id, prefix)) => Some(GuildConfig { guild_id: id, prefix }),
        None => None,
    }
}

} // verus!
