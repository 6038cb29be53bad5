//! `/award` count bounds.

use vstd::prelude::*;

verus! {

/// Smallest accepted count.
pub const MIN_COUNT: i64 = 1;

/// Largest accepted count.
pub const MAX_COUNT: i64 = 50;

/// The only accepted counts are 1..=50: anything else is an error, never a
/// silent coercion.
pub fn count_in_range(count: i64) -> (ok: bool)
    ensures
        ok == (MIN_COUNT <= count <= MAX_COUNT),
{
    MIN_COUNT <= count && count <= MAX_COUNT
}

} // verus!
