//! Guild settings resolution: typed nullable columns where NULL, or a
//! missing row entirely, means "not explicitly set" and falls back to the
//! code-side default (a stored 0 is respected).

use vstd::prelude::*;

verus! {

/// The five per-guild settings.
#[derive(Debug, Clone, Copy, PartialEq, Eq, Hash, Structural)]
pub enum Setting {
    /// 0 = Always Mention, 1 = Always Name, 2 = Mention Only in Server.
    DedicationDisplay,
    /// 0 = Stack Roles, 1 = Only Highest Reward.
    StackRoles,
    /// 0 = Hide Unused Trophies, 1 = Show Unused Trophies.
    HideUnusedTrophies,
    /// 0 = Hide Quit Users, 1 = Show Quit Users.
    HideQuitUsers,
    /// 0 = Mention, 1 = Username, 2 = Nickname, 3 = Username and Tag.
    LeaderboardFormat,
}

/// The stored columns of a guild's `guild_settings` row (`None` = NULL).
#[derive(Debug, Clone, Copy, PartialEq, Eq, Structural)]
pub struct GuildSettingsRow {
    pub dedication_display: Option<i16>,
    pub stack_roles: Option<i16>,
    pub hide_unused_trophies: Option<i16>,
    pub hide_quit_users: Option<i16>,
    pub leaderboard_format: Option<i16>,
}

/// Code-side default of each setting.
pub open spec fn default_spec(s: Setting) -> i16 {
    match s {
        Setting::DedicationDisplay => 2,
        Setting::StackRoles => 1,
        Setting::HideUnusedTrophies => 1,
        Setting::HideQuitUsers => 0,
        Setting::LeaderboardFormat => 0,
    }
}

/// The column of `row` that stores setting `s`.
pub open spec fn stored_spec(s: Setting, row: GuildSettingsRow) -> Option<i16> {
    match s {
        Setting::DedicationDisplay => row.dedication_display,
        Setting::StackRoles => row.stack_roles,
        Setting::HideUnusedTrophies => row.hide_unused_trophies,
        Setting::HideQuitUsers => row.hide_quit_users,
        Setting::LeaderboardFormat => row.leaderboard_format,
    }
}

/// Effective value: the stored value when the row exists and the column is
/// set, else the default.
pub open spec fn resolve_spec(s: Setting, row: Option<GuildSettingsRow>) -> i16 {
    match row {
        Some(r) => match stored_spec(s, r) {
            Some(v) => v,
            None => default_spec(s),
        },
        None => default_spec(s),
    }
}

impl Setting {
    /// Code-side default used when the column is NULL or the row is missing.
    pub fn default_value(self) -> (v: i16)
        ensures
            v == default_spec(self),
    {
        match self {
            Setting::DedicationDisplay => 2,
            Setting::StackRoles => 1,
            Setting::HideUnusedTrophies => 1,
            Setting::HideQuitUsers => 0,
            Setting::LeaderboardFormat => 0,
        }
    }

    /// The stored (explicitly set) value for this setting in a row, if any.
    pub fn stored(self, row: &GuildSettingsRow) -> (v: Option<i16>)
        ensures
            v == stored_spec(self, *row),
            self == Setting::DedicationDisplay ==> v == row.dedication_display,
            self == Setting::StackRoles ==> v == row.stack_roles,
            self == Setting::HideUnusedTrophies ==> v == row.hide_unused_trophies,
            self == Setting::HideQuitUsers ==> v == row.hide_quit_users,
            self == Setting::LeaderboardFormat ==> v == row.leaderboard_format,
    {
        match self {
            Setting::DedicationDisplay => row.dedication_display,
            Setting::StackRoles => row.stack_roles,
            Setting::HideUnusedTrophies => row.hide_unused_trophies,
            Setting::HideQuitUsers => row.hide_quit_users,
            Setting::LeaderboardFormat => row.leaderboard_format,
        }
    }

    /// Effective value from an optional row: stored if present, else default.
    pub fn resolve(self, row: Option<&GuildSettingsRow>) -> (v: i16)
        ensures
            v == resolve_spec(
                self,
                match row {
                    Some(r) => Some(*r),
                    None => None,
                },
            ),
            self == Setting::DedicationDisplay ==> v == match row {
                Some(r) => match r.dedication_display {
                    Some(x) => x,
                    None => 2i16,
                },
                None => 2i16,
            },
            self == Setting::StackRoles ==> v == match row {
                Some(r) => match r.stack_roles {
                    Some(x) => x,
                    None => 1i16,
                },
                None => 1i16,
            },
            self == Setting::HideUnusedTrophies ==> v == match row {
                Some(r) => match r.hide_unused_trophies {
                    Some(x) => x,
                    None => 1i16,
                },
                None => 1i16,
            },
            self == Setting::HideQuitUsers ==> v == match row {
                Some(r) => match r.hide_quit_users {
                    Some(x) => x,
                    None => 0i16,
                },
                None => 0i16,
            },
            self == Setting::LeaderboardFormat ==> v == match row {
                Some(r) => match r.leaderboard_format {
                    Some(x) => x,
                    None => 0i16,
                },
                None => 0i16,
            },
    {
        match row {
            Some(r) => match self.stored(r) {
                Some(v) => v,
                None => self.default_value(),
            },
            None => self.default_value(),
        }
    }
}

/// All five effective settings of a guild.
#[derive(Debug, Clone, Copy, PartialEq, Eq, Structural)]
pub struct EffectiveSettings {
    pub dedication_display: i16,
    pub stack_roles: i16,
    pub hide_unused_trophies: i16,
    pub hide_quit_users: i16,
    pub leaderboard_format: i16,
}

/// The field of `e` holding setting `s`.
pub open spec fn field_spec(e: EffectiveSettings, s: Setting) -> i16 {
    match s {
        Setting::DedicationDisplay => e.dedication_display,
        Setting::StackRoles => e.stack_roles,
        Setting::HideUnusedTrophies => e.hide_unused_trophies,
        Setting::HideQuitUsers => e.hide_quit_users,
        Setting::LeaderboardFormat => e.leaderboard_format,
    }
}

impl EffectiveSettings {
    /// Resolves all five settings from an optional row.
    pub fn from_row(row: Option<&GuildSettingsRow>) -> (e: Self)
        ensures
            forall|s: Setting| #[trigger] field_spec(e, s) == resolve_spec(
                s,
                match row {
                    Some(r) => Some(*r),
                    None => None,
                },
            ),
            e.dedication_display == match row {
                Some(r) => match r.dedication_display {
                    Some(x) => x,
                    None => 2i16,
                },
                None => 2i16,
            },
            e.stack_roles == match row {
                Some(r) => match r.stack_roles {
                    Some(x) => x,
                    None => 1i16,
                },
                None => 1i16,
            },
            e.hide_unused_trophies == match row {
                Some(r) => match r.hide_unused_trophies {
                    Some(x) => x,
                    None => 1i16,
                },
                None => 1i16,
            },
            e.hide_quit_users == match row {
                Some(r) => match r.hide_quit_users {
                    Some(x) => x,
                    None => 0i16,
                },
                None => 0i16,
            },
            e.leaderboard_format == match row {
                Some(r) => match r.leaderboard_format {
                    Some(x) => x,
                    None => 0i16,
                },
                None => 0i16,
            },
    {
        EffectiveSettings {
            dedication_display: Setting::DedicationDisplay.resolve(row),
            stack_roles: Setting::StackRoles.resolve(row),
            hide_unused_trophies: Setting::HideUnusedTrophies.resolve(row),
            hide_quit_users: Setting::HideQuitUsers.resolve(row),
            leaderboard_format: Setting::LeaderboardFormat.resolve(row),
        }
    }

    /// Field access by [`Setting`].
    pub fn get(&self, setting: Setting) -> (v: i16)
        ensures
            v == field_spec(*self, setting),
    {
        match setting {
            Setting::DedicationDisplay => self.dedication_display,
            Setting::StackRoles => self.stack_roles,
            Setting::HideUnusedTrophies => self.hide_unused_trophies,
            Setting::HideQuitUsers => self.hide_quit_users,
            Setting::LeaderboardFormat => self.leaderboard_format,
        }
    }
}


/// Each setting reads its own column and falls back to its own default:
/// dedication display 2, stacked roles 1, unused trophies shown 1, quit
/// users hidden 0, mention format 0. Without a row every setting is its
/// default.
pub proof fn lemma_settings_read_their_own_column(row: GuildSettingsRow)
    ensures
        resolve_spec(Setting::DedicationDisplay, Some(row)) == match row.dedication_display {
            Some(v) => v,
            None => 2i16,
        },
        resolve_spec(Setting::StackRoles, Some(row)) == match row.stack_roles {
            Some(v) => v,
            None => 1i16,
        },
        resolve_spec(Setting::HideUnusedTrophies, Some(row)) == match row.hide_unused_trophies {
            Some(v) => v,
            None => 1i16,
        },
        resolve_spec(Setting::HideQuitUsers, Some(row)) == match row.hide_quit_users {
            Some(v) => v,
            None => 0i16,
        },
        resolve_spec(Setting::LeaderboardFormat, Some(row)) == match row.leaderboard_format {
            Some(v) => v,
            None => 0i16,
        },
        resolve_spec(Setting::DedicationDisplay, None) == 2,
        resolve_spec(Setting::StackRoles, None) == 1,
        resolve_spec(Setting::HideUnusedTrophies, None) == 1,
        resolve_spec(Setting::HideQuitUsers, None) == 0,
        resolve_spec(Setting::LeaderboardFormat, None) == 0,
{
}

/// Each effective-settings field holds its own setting.
pub proof fn lemma_effective_fields(e: EffectiveSettings)
    ensures
        field_spec(e, Setting::DedicationDisplay) == e.dedication_display,
        field_spec(e, Setting::StackRoles) == e.stack_roles,
        field_spec(e, Setting::HideUnusedTrophies) == e.hide_unused_trophies,
        field_spec(e, Setting::HideQuitUsers) == e.hide_quit_users,
        field_spec(e, Setting::LeaderboardFormat) == e.leaderboard_format,
{
}

} // verus!
