//! `/ping` latency display. Durations are given as whole nanoseconds.

use vstd::prelude::*;

verus! {

/// Whole milliseconds of a latency, saturating at `u64::MAX`.
pub open spec fn latency_ms_spec(nanos: u128) -> u64 {
    if nanos / 1_000_000 <= u64::MAX {
        (nanos / 1_000_000) as u64
    } else {
        u64::MAX
    }
}

/// Converts a measured latency to whole milliseconds (truncating, and
/// saturating when it does not fit).
pub fn latency_ms(nanos: u128) -> (ms: u64)
    ensures
        ms == latency_ms_spec(nanos),
{
    let millis = nanos / 1_000_000;
    if millis <= u64::MAX as u128 {
        millis as u64
    } else {
        u64::MAX
    }
}

/// Gateway latency for display: a zero latency means "not measured yet"
/// (no heartbeat acknowledged), not "0 ms".
pub fn gateway_latency_ms(nanos: u128) -> (ms: Option<u64>)
    ensures
        nanos == 0 ==> ms is None,
        nanos != 0 ==> ms == Some(latency_ms_spec(nanos)),
{
    if nanos == 0 {
        None
    } else {
        Some(latency_ms(nanos))
    }
}

} // verus!
