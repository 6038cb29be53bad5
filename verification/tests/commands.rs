use std::time::Duration;

use trophy_bot::commands::award::count_in_range;
use trophy_bot::commands::export::{export_filename, GuildInfo, PanelExport, RewardExport};
use trophy_bot::commands::invite::invite_url;
use trophy_bot::commands::link::parse_guild_id;
use trophy_bot::commands::ping::{gateway_latency_ms, latency_ms};
use trophy_bot::commands::stats::{format_uptime, uptime_parts, StatsSnapshot};
use trophy_bot::commands::trophies::{
    display_name, page_footer, shows_unused, value_markup, visible_rows, GuildTrophyRow,
};
use trophy_bot::messages::MessageArg;

#[test]
fn counts_one_through_fifty_are_accepted() {
    for count in [1, 2, 25, 50] {
        assert!(count_in_range(count), "count {count} must be accepted");
    }
}

#[test]
fn out_of_range_counts_are_rejected_not_coerced() {
    for count in [i64::MIN, -1, 0, 51, i64::MAX] {
        assert!(!count_in_range(count), "count {count} must be rejected");
    }
}

#[test]
fn filename_matches_legacy_shape() {
    assert_eq!(export_filename(42), "export-42.json");
}

#[test]
fn exported_ids_are_decimal_strings() {
    let guild = GuildInfo::new(985134052665356299, false);
    assert_eq!(guild.id, "985134052665356299");
    assert!(!guild.is_safe);
    let reward = RewardExport::from_row(123, 50);
    assert_eq!((reward.role_id.as_str(), reward.requirement), ("123", 50));
    let panel = PanelExport::from_row(600, -700);
    assert_eq!((panel.channel_id.as_str(), panel.message_id.as_str()), ("600", "-700"));
}

#[test]
fn invite_url_contains_client_id_permissions_and_scopes() {
    let url = invite_url(985134052665356299);
    assert_eq!(
        url,
        "https://discord.com/oauth2/authorize?client_id=985134052665356299&permissions=34816&scope=applications.commands%20bot"
    );
}

#[test]
fn valid_snowflakes_parse() {
    assert_eq!(parse_guild_id("123456789012345678"), Some(123456789012345678));
    assert_eq!(parse_guild_id("  123456789012345678  "), Some(123456789012345678));
    assert_eq!(parse_guild_id("100000000000000"), Some(100000000000000));
}

#[test]
fn malformed_input_is_rejected() {
    for raw in ["", "not-a-guild", "123", "abc123456789012345", "<@123456789012345678>"] {
        assert_eq!(parse_guild_id(raw), None, "input: {raw:?}");
    }
}

#[test]
fn guild_ids_above_i64_keep_their_bits() {
    assert_eq!(parse_guild_id("18446744073709551615"), Some(-1));
    assert_eq!(parse_guild_id("18446744073709551616"), None);
    assert_eq!(parse_guild_id("123456789012345678901"), None, "21 digits");
}

#[test]
fn latency_ms_truncates_to_whole_milliseconds() {
    assert_eq!(latency_ms(Duration::from_micros(1500).as_nanos()), 1);
    assert_eq!(latency_ms(Duration::from_millis(42).as_nanos()), 42);
    assert_eq!(latency_ms(Duration::ZERO.as_nanos()), 0);
}

#[test]
fn gateway_latency_zero_means_not_measured() {
    assert_eq!(gateway_latency_ms(Duration::ZERO.as_nanos()), None);
    assert_eq!(gateway_latency_ms(Duration::from_millis(87).as_nanos()), Some(87));
}

#[test]
fn latency_saturates_and_sub_millisecond_is_measured() {
    assert_eq!(latency_ms(u128::MAX), u64::MAX);
    assert_eq!(gateway_latency_ms(Duration::from_micros(300).as_nanos()), Some(0));
}

#[test]
fn uptime_parts_splits_days_hours_minutes_seconds() {
    assert_eq!(uptime_parts(Duration::ZERO.as_secs()), (0, 0, 0, 0));
    assert_eq!(uptime_parts(Duration::from_secs(59).as_secs()), (0, 0, 0, 59));
    assert_eq!(uptime_parts(Duration::from_secs(3_661).as_secs()), (0, 1, 1, 1));
    assert_eq!(
        uptime_parts(Duration::from_secs(2 * 86_400 + 3 * 3_600 + 4 * 60 + 5).as_secs()),
        (2, 3, 4, 5)
    );
}

#[test]
fn uptime_message_carries_the_four_parts() {
    let message = format_uptime(90_061);
    assert_eq!(message.key, "stats-uptime-value");
    assert_eq!(
        message.args,
        vec![
            ("days".to_string(), MessageArg::Count(1)),
            ("hours".to_string(), MessageArg::Count(1)),
            ("minutes".to_string(), MessageArg::Count(1)),
            ("seconds".to_string(), MessageArg::Count(1)),
        ]
    );
}

#[test]
fn missing_run_counter_counts_as_zero() {
    let snapshot = StatsSnapshot::from_counts(3, 4, 5, None);
    assert_eq!(snapshot, StatsSnapshot { guilds: 3, trophies: 4, awards: 5, command_runs: 0 });
    assert_eq!(StatsSnapshot::from_counts(0, 0, 0, Some(1234)).command_runs, 1234);
}

#[test]
fn value_markup_matches_legacy_cosmetics() {
    assert_eq!(value_markup(10), " **+10**");
    assert_eq!(value_markup(-3), " **-3**");
    assert_eq!(value_markup(0), "");
}

#[test]
fn value_markup_extremes() {
    assert_eq!(value_markup(i32::MAX), " **+2147483647**");
    assert_eq!(value_markup(i32::MIN), " **-2147483648**");
}

#[test]
fn f19_managers_always_see_unused_trophies() {
    assert!(shows_unused(0, true), "manager exempt from hiding");
    assert!(shows_unused(1, true));
    assert!(!shows_unused(0, false), "non-manager honors Hide");
    assert!(shows_unused(1, false), "non-manager honors Show");
}

#[test]
fn f18_display_name_prefers_global_name_and_never_fails() {
    assert_eq!(display_name(Some("Ana Display"), "ana123"), "Ana Display");
    assert_eq!(display_name(None, "ana123"), "ana123");
}

fn row(name: &str, used: bool) -> GuildTrophyRow {
    GuildTrophyRow { emoji: "🏆".into(), name: name.into(), value: 1, used }
}

#[test]
fn guild_list_hides_unused_rows_and_counts_them() {
    let rows = vec![row("a", true), row("b", false), row("c", true), row("d", false)];
    assert_eq!(visible_rows(&rows, false), (vec![0, 2], 2));
    assert_eq!(visible_rows(&rows, true), (vec![0, 1, 2, 3], 0));
    assert_eq!(visible_rows(&[], false), (vec![], 0));
}

#[test]
fn page_footer_carries_page_and_last() {
    let footer = page_footer(2, 5);
    assert_eq!(footer.key, "trophies-footer-page");
    assert_eq!(
        footer.args,
        vec![("page".to_string(), MessageArg::Count(2)), ("last".to_string(), MessageArg::Count(5))]
    );
}
