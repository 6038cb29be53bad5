//! Process configuration as read from the command line and environment.

use vstd::prelude::*;

verus! {

/// How much the process logs.
#[derive(Debug, Clone, Copy, PartialEq, Eq, Structural)]
pub enum LogLevel {
    /// Everything down to debug messages.
    Debug,
    /// Warnings and errors only.
    Warn,
}

/// The bot's configuration. The token stays private so that it is never
/// printed by accident; it is only handed to the Discord client.
pub struct Cli {
    pub debug: bool,
    pub test_guild_id: Option<u64>,
    pub database_url: String,
    pub bot_id: String,
    token: String,
}

impl Cli {
    /// The configuration from its parsed parts.
    pub fn new(debug: bool, test_guild_id: Option<u64>, database_url: String, bot_id: String, token: String) -> (c: Self)
        ensures
            c.parts() == (debug, test_guild_id, database_url, bot_id, token),
    {
        Cli { debug, test_guild_id, database_url, bot_id, token }
    }

    /// Every setting the configuration carries, the token last.
    pub closed spec fn parts(&self) -> (bool, Option<u64>, String, String, String) {
        (self.debug, self.test_guild_id, self.database_url, self.bot_id, self.token)
    }

    /// The token, for building the Discord client only.
    pub fn token(&self) -> (t: &str)
        ensures
            t@ == self.parts().4@,
    {
        self.token.as_str()
    }

    /// Debug runs keep debug logging; every other run logs warnings and
    /// errors only.
    pub fn max_log_level(&self) -> (level: LogLevel)
        ensures
            level == (if self.parts().0 {
                LogLevel::Debug
            } else {
                LogLevel::Warn
            }),
    {
        if self.debug {
            LogLevel::Debug
        } else {
            LogLevel::Warn
        }
    }
}

} // verus!
