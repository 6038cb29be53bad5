use trophy_bot::framework::{error_message, format_command_listing, root_command_name, FailureKind};
use trophy_bot::messages::MessageArg;

#[test]
fn run_counters_are_keyed_by_top_level_command_name() {
    assert_eq!(root_command_name(&["rewards"], "add"), "rewards");
    assert_eq!(root_command_name(&[], "ping"), "ping");
}

#[test]
fn command_listing_formats_names_and_empty_case() {
    assert_eq!(format_command_listing(&[]), "none");
    let names = ["ping".to_owned(), "award".to_owned(), "stats".to_owned()];
    assert_eq!(format_command_listing(&names), "3 (ping, award, stats)");
}

#[test]
fn single_command_listing_has_no_separator() {
    assert_eq!(format_command_listing(&["ping".to_owned()]), "1 (ping)");
}

#[test]
fn framework_failures_map_to_their_catalog_messages() {
    assert_eq!(error_message(&FailureKind::Command).key, "common-error-generic");
    assert_eq!(error_message(&FailureKind::CommandPanic).key, "common-error-generic");
    assert_eq!(error_message(&FailureKind::Other).key, "common-error-generic");
    assert_eq!(
        error_message(&FailureKind::MissingUserPermissions).key,
        "common-error-missing-user-permissions"
    );
    assert_eq!(error_message(&FailureKind::GuildOnly).key, "common-error-guild-only");
    assert_eq!(error_message(&FailureKind::NotAnOwner).key, "common-error-not-owner");
    assert_eq!(error_message(&FailureKind::ArgumentParse).key, "common-error-invalid-input");
    let bot = error_message(&FailureKind::MissingBotPermissions { permissions: "Manage Roles".into() });
    assert_eq!(bot.key, "common-error-missing-bot-permissions");
    assert_eq!(bot.args, vec![("permissions".to_string(), MessageArg::Text("Manage Roles".into()))]);
}

#[test]
fn cooldown_announces_at_least_one_second() {
    for (remaining, shown) in [(0, 1), (1, 1), (7, 7)] {
        let message = error_message(&FailureKind::CooldownHit { remaining_secs: remaining });
        assert_eq!(message.key, "common-error-cooldown");
        assert_eq!(message.args, vec![("seconds".to_string(), MessageArg::Count(shown))]);
    }
}
