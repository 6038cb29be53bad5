use trophy_bot::settings::{EffectiveSettings, GuildSettingsRow, Setting};

const ALL: [Setting; 5] = [
    Setting::DedicationDisplay,
    Setting::StackRoles,
    Setting::HideUnusedTrophies,
    Setting::HideQuitUsers,
    Setting::LeaderboardFormat,
];

#[test]
fn defaults_match_spec() {
    assert_eq!(Setting::DedicationDisplay.default_value(), 2);
    assert_eq!(Setting::StackRoles.default_value(), 1);
    assert_eq!(Setting::HideUnusedTrophies.default_value(), 1);
    assert_eq!(Setting::HideQuitUsers.default_value(), 0);
    assert_eq!(Setting::LeaderboardFormat.default_value(), 0);
}

#[test]
fn missing_row_and_null_columns_resolve_to_defaults() {
    let nulls = GuildSettingsRow {
        dedication_display: None,
        stack_roles: None,
        hide_unused_trophies: None,
        hide_quit_users: None,
        leaderboard_format: None,
    };
    for setting in ALL {
        assert_eq!(setting.resolve(None), setting.default_value());
        assert_eq!(setting.resolve(Some(&nulls)), setting.default_value());
        assert_eq!(setting.stored(&nulls), None);
    }
}

#[test]
fn stored_zero_is_respected_not_replaced_by_the_default() {
    let row = GuildSettingsRow {
        dedication_display: Some(0),
        stack_roles: Some(0),
        hide_unused_trophies: Some(0),
        hide_quit_users: None,
        leaderboard_format: Some(3),
    };
    let effective = EffectiveSettings::from_row(Some(&row));
    assert_eq!(effective.get(Setting::DedicationDisplay), 0);
    assert_eq!(effective.get(Setting::StackRoles), 0);
    assert_eq!(effective.get(Setting::HideUnusedTrophies), 0);
    assert_eq!(effective.get(Setting::HideQuitUsers), 0);
    assert_eq!(effective.get(Setting::LeaderboardFormat), 3);
    assert_eq!(effective.leaderboard_format, 3);
}
