//! `/stats` figures.

use vstd::prelude::*;

use crate::messages::{args_view, message_view, ArgView, Message, MessageArg};

verus! {

/// Live statistics read from the database.
#[derive(Debug, Clone, Copy, PartialEq, Eq, Structural)]
pub struct StatsSnapshot {
    /// Registered guilds.
    pub guilds: u64,
    /// Trophy definitions.
    pub trophies: u64,
    /// Individual awards.
    pub awards: u64,
    /// Lifetime command runs: imported historical total plus successful
    /// runs recorded since; `0` when the counter row does not exist yet.
    pub command_runs: i64,
}

impl StatsSnapshot {
    /// The snapshot from the three live counts and the run counter, if its
    /// row exists.
    pub fn from_counts(guilds: u64, trophies: u64, awards: u64, run_counter: Option<i64>) -> (s: Self)
        ensures
            s == (StatsSnapshot {
                guilds,
                trophies,
                awards,
                command_runs: match run_counter {
                    Some(n) => n,
                    None => 0,
                },
            }),
    {
        let command_runs = match run_counter {
            Some(n) => n,
            None => 0,
        };
        StatsSnapshot { guilds, trophies, awards, command_runs }
    }
}

/// Splits an uptime in seconds into `(days, hours, minutes, seconds)`.
pub fn uptime_parts(secs: u64) -> (parts: (u64, u64, u64, u64))
    ensures
        parts == (secs / 86_400, secs % 86_400 / 3_600, secs % 3_600 / 60, secs % 60),
        parts.0 * 86_400 + parts.1 * 3_600 + parts.2 * 60 + parts.3 == secs,
        parts.1 < 24 && parts.2 < 60 && parts.3 < 60,
{
    let days = secs / 86_400;
    let hours = secs % 86_400 / 3_600;
    let minutes = secs % 3_600 / 60;
    let seconds = secs % 60;
    assert(days * 86_400 + hours * 3_600 + minutes * 60 + seconds == secs);
    (days, hours, minutes, seconds)
}

/// The uptime line: `Xd Xh Xm Xs` through the catalog.
pub fn format_uptime(secs: u64) -> (m: Message)
    ensures
        message_view(m) == (
            "stats-uptime-value"@,
            seq![
                ("days"@, ArgView::Count(secs / 86_400)),
                ("hours"@, ArgView::Count(secs % 86_400 / 3_600)),
                ("minutes"@, ArgView::Count(secs % 3_600 / 60)),
                ("seconds"@, ArgView::Count(secs % 60)),
            ],
        ),
{
    let (days, hours, minutes, seconds) = uptime_parts(secs);
    let m = Message::plain("stats-uptime-value").arg("days", MessageArg::Count(days)).arg(
        "hours",
        MessageArg::Count(hours),
    ).arg("minutes", MessageArg::Count(minutes)).arg("seconds", MessageArg::Count(seconds));
    assert(args_view(m.args@) =~= seq![
        ("days"@, ArgView::Count(secs / 86_400)),
        ("hours"@, ArgView::Count(secs % 86_400 / 3_600)),
        ("minutes"@, ArgView::Count(secs % 3_600 / 60)),
        ("seconds"@, ArgView::Count(secs % 60)),
    ]);
    m
}

} // verus!
