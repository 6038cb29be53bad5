//! `/link` input parsing.

use vstd::prelude::*;

use crate::create::snowflake_shaped;
use crate::text::{all_ascii_digits, parse_u64, parse_u64_spec, str_chars, trim, trim_spec};

verus! {

/// A guild id typed by a user: the trimmed input must be 15 to 20 ASCII
/// digits denoting a `u64`; it is stored as the `i64` with the same bits.
pub open spec fn parse_guild_id_spec(raw: Seq<char>) -> Option<i64> {
    let t = trim_spec(raw);
    if 15 <= t.len() <= 20 && all_ascii_digits(t) {
        match parse_u64_spec(t) {
            Some(id) => Some(id as i64),
            None => None,
        }
    } else {
        None
    }
}

/// Discord guild ids are snowflakes: digits only, 15-20 of them.
pub fn parse_guild_id(raw: &str) -> (r: Option<i64>)
    ensures
        r == parse_guild_id_spec(raw@),
{
    let trimmed = trim(&str_chars(raw));
    if snowflake_shaped(&trimmed) {
        match parse_u64(&trimmed) {
            Some(id) => Some(id as i64),
            None => None,
        }
    } else {
        None
    }
}

} // verus!
