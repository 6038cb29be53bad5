//! `/export` pieces that carry no database or time type: the attachment
//! filename and the snowflake-as-string records.

use vstd::prelude::*;

use crate::text::{chars_to_string, push_signed_decimal, push_str, signed_decimal};

verus! {

/// `export-{guild_id}.json`.
pub open spec fn export_filename_spec(guild_id: i64) -> Seq<char> {
    "export-"@ + signed_decimal(guild_id as int) + ".json"@
}

/// Attachment filename: `export-{guild_id}.json`.
pub fn export_filename(guild_id: i64) -> (f: String)
    ensures
        f@ == export_filename_spec(guild_id),
{
    let mut v: Vec<char> = Vec::new();
    push_str(&mut v, "export-");
    push_signed_decimal(guild_id, &mut v);
    push_str(&mut v, ".json");
    assert(v@ =~= export_filename_spec(guild_id));
    chars_to_string(&v)
}

/// A snowflake as decimal text (exported ids are strings so that JSON
/// readers using doubles lose no precision).
pub fn id_text(id: i64) -> (s: String)
    ensures
        s@ == signed_decimal(id as int),
{
    let mut v: Vec<char> = Vec::new();
    push_signed_decimal(id, &mut v);
    chars_to_string(&v)
}

/// The exported guild record.
#[derive(Debug, Clone, PartialEq, Eq)]
pub struct GuildInfo {
    pub id: String,
    pub is_safe: bool,
}

impl GuildInfo {
    /// The record for a guild; a guild without a stored row is not safe.
    pub fn new(guild_id: i64, is_safe: bool) -> (g: Self)
        ensures
            g.id@ == signed_decimal(guild_id as int),
            g.is_safe == is_safe,
    {
        GuildInfo { id: id_text(guild_id), is_safe }
    }
}

/// An exported role reward.
#[derive(Debug, Clone, PartialEq, Eq)]
pub struct RewardExport {
    pub role_id: String,
    pub requirement: i32,
}

impl RewardExport {
    /// The record for a stored role reward.
    pub fn from_row(role_id: i64, requirement: i32) -> (r: Self)
        ensures
            r.role_id@ == signed_decimal(role_id as int),
            r.requirement == requirement,
    {
        RewardExport { role_id: id_text(role_id), requirement }
    }
}

/// The exported leaderboard panel location.
#[derive(Debug, Clone, PartialEq, Eq)]
pub struct PanelExport {
    pub channel_id: String,
    pub message_id: String,
}

impl PanelExport {
    /// The record for a stored panel.
    pub fn from_row(channel_id: i64, message_id: i64) -> (p: Self)
        ensures
            p.channel_id@ == signed_decimal(channel_id as int),
            p.message_id@ == signed_decimal(message_id as int),
    {
        PanelExport { channel_id: id_text(channel_id), message_id: id_text(message_id) }
    }
}

} // verus!
