use trophy_bot::create::{
    dedication_columns, fill_defaults, parse_dedication, precheck_outcome, validate_fields,
    CreateError, Dedication, MAX_TROPHIES_PER_GUILD,
};
use trophy_bot::messages::MessageArg;

fn ok_fields() -> Result<(), CreateError> {
    validate_fields("Gold Medal", Some("desc"), Some("🏆"), 10, Some("ana"), Some("details"))
}

#[test]
fn valid_fields_pass() {
    assert_eq!(ok_fields(), Ok(()));
    assert_eq!(validate_fields("x", None, None, 0, None, None), Ok(()));
}

#[test]
fn empty_or_whitespace_name_is_rejected() {
    assert_eq!(validate_fields("", None, None, 10, None, None), Err(CreateError::EmptyName));
    assert_eq!(
        validate_fields("   ", None, None, 10, None, None),
        Err(CreateError::EmptyName),
        "whitespace-only also normalizes to empty"
    );
    assert_eq!(validate_fields("\t\n ", None, None, 10, None, None), Err(CreateError::EmptyName));
    assert_eq!(validate_fields("x", None, None, 10, None, None), Ok(()));
    assert_eq!(validate_fields("!!!", None, None, 10, None, None), Ok(()));
}

#[test]
fn field_limits_are_inclusive() {
    let at = |n| "x".repeat(n);
    assert_eq!(validate_fields(&at(32), None, None, 10, None, None), Ok(()));
    assert_eq!(
        validate_fields(&at(33), None, None, 10, None, None),
        Err(CreateError::FieldTooLong { field: "name", max: 32 })
    );
    assert_eq!(validate_fields("n", Some(&at(128)), None, 10, None, None), Ok(()));
    assert_eq!(
        validate_fields("n", Some(&at(129)), None, 10, None, None),
        Err(CreateError::FieldTooLong { field: "description", max: 128 })
    );
    assert_eq!(validate_fields("n", None, Some(&at(64)), 10, None, None), Ok(()));
    assert_eq!(
        validate_fields("n", None, Some(&at(65)), 10, None, None),
        Err(CreateError::FieldTooLong { field: "emoji", max: 64 })
    );
    assert_eq!(validate_fields("n", None, None, 10, Some(&at(32)), None), Ok(()));
    assert_eq!(
        validate_fields("n", None, None, 10, Some(&at(33)), None),
        Err(CreateError::FieldTooLong { field: "dedication", max: 32 })
    );
    assert_eq!(validate_fields("n", None, None, 10, None, Some(&at(300))), Ok(()));
    assert_eq!(
        validate_fields("n", None, None, 10, None, Some(&at(301))),
        Err(CreateError::FieldTooLong { field: "details", max: 300 })
    );
}

#[test]
fn limits_count_characters_not_bytes() {
    let name: String = "é".repeat(32);
    assert_eq!(validate_fields(&name, None, None, 10, None, None), Ok(()));
}

#[test]
fn value_range_is_enforced_serverside() {
    assert_eq!(validate_fields("n", None, None, 999_999, None, None), Ok(()));
    assert_eq!(validate_fields("n", None, None, -999_999, None, None), Ok(()));
    assert_eq!(
        validate_fields("n", None, None, 1_000_000, None, None),
        Err(CreateError::ValueOutOfRange)
    );
    assert_eq!(
        validate_fields("n", None, None, -1_000_000, None, None),
        Err(CreateError::ValueOutOfRange)
    );
}

#[test]
fn validation_follows_legacy_order() {
    let long = "x".repeat(500);
    assert_eq!(
        validate_fields(&long, Some(&long), None, 10, None, Some(&long)),
        Err(CreateError::FieldTooLong { field: "name", max: 32 })
    );
    assert_eq!(
        validate_fields("n", Some(&long), None, 10, None, Some(&long)),
        Err(CreateError::FieldTooLong { field: "details", max: 300 })
    );
}

#[test]
fn dedication_mentions_and_snowflakes_become_user() {
    assert_eq!(parse_dedication("<@123456789012345678>"), Dedication::User(123456789012345678));
    assert_eq!(parse_dedication("<@!123456789012345678>"), Dedication::User(123456789012345678));
    assert_eq!(parse_dedication("123456789012345678"), Dedication::User(123456789012345678));
    assert_eq!(parse_dedication(" 123456789012345678 "), Dedication::User(123456789012345678));
}

#[test]
fn dedication_anything_else_is_text() {
    assert_eq!(parse_dedication("John the Great"), Dedication::Text("John the Great".into()));
    assert_eq!(parse_dedication("123"), Dedication::Text("123".into()));
    assert_eq!(
        parse_dedication("abc123456789012345"),
        Dedication::Text("abc123456789012345".into())
    );
    assert_eq!(parse_dedication("<@abc>"), Dedication::Text("<@abc>".into()));
    assert_eq!(parse_dedication(" mom "), Dedication::Text(" mom ".into()));
}

#[test]
fn resolved_user_dedication_stores_id_and_name_snapshot() {
    let raw = "<@123456789012345678>";
    assert_eq!(
        dedication_columns(raw, parse_dedication(raw), Some("ana".into())),
        (Some(123456789012345678), Some("ana".to_string()))
    );
}

#[test]
fn unresolvable_user_dedication_falls_back_to_the_raw_text() {
    for raw in ["123456789012345678", "<@123456789012345678>"] {
        assert_eq!(
            dedication_columns(raw, parse_dedication(raw), None),
            (None, Some(raw.to_string())),
            "raw: {raw:?}"
        );
    }
}

#[test]
fn text_dedication_ignores_any_fetched_name() {
    assert_eq!(
        dedication_columns("mom", parse_dedication("mom"), None),
        (None, Some("mom".to_string()))
    );
}

#[test]
fn error_messages_render_their_arguments() {
    let message = CreateError::FieldTooLong { field: "name", max: 32 }.message();
    assert_eq!(message.key, "create-error-name-too-long");
    assert_eq!(message.args, vec![("max".to_string(), MessageArg::Count(32))]);
    let message = CreateError::GuildFull.message();
    assert_eq!(message.key, "create-error-guild-full");
    assert_eq!(message.args, vec![("max".to_string(), MessageArg::Int(150))]);
    let message = CreateError::DuplicateName { name: "Gold".into() }.message();
    assert_eq!(message.key, "create-error-duplicate-name");
    assert_eq!(message.args, vec![("name".to_string(), MessageArg::Text("Gold".into()))]);
}

#[test]
fn trophy_model_partialeq_helper_compiles() {
    assert_eq!(CreateError::GuildFull, CreateError::GuildFull);
}

#[test]
fn every_rejection_has_its_catalog_message() {
    assert_eq!(CreateError::EmptyName.message().key, "create-error-name-empty");
    assert!(CreateError::EmptyName.message().args.is_empty());
    let range = CreateError::ValueOutOfRange.message();
    assert_eq!(range.key, "create-error-value-out-of-range");
    assert_eq!(
        range.args,
        vec![
            ("min".to_string(), MessageArg::Int(-999_999)),
            ("max".to_string(), MessageArg::Int(999_999)),
        ]
    );
    let details = CreateError::FieldTooLong { field: "details", max: 300 }.message();
    assert_eq!(details.key, "create-error-details-too-long");
}

#[test]
fn capacity_is_checked_before_uniqueness() {
    assert_eq!(precheck_outcome(MAX_TROPHIES_PER_GUILD, 1, "Gold"), Some(CreateError::GuildFull));
    assert_eq!(
        precheck_outcome(149, 1, "gold medal!"),
        Some(CreateError::DuplicateName { name: "gold medal!".into() })
    );
    assert_eq!(precheck_outcome(149, 0, "Fresh"), None);
    assert_eq!(precheck_outcome(0, 0, "Fresh"), None);
}

#[test]
fn zero_and_oversized_snowflakes_stay_text() {
    assert_eq!(parse_dedication("000000000000000"), Dedication::Text("000000000000000".into()));
    assert_eq!(
        parse_dedication("99999999999999999999"),
        Dedication::Text("99999999999999999999".into()),
        "20 digits above u64::MAX"
    );
    assert_eq!(parse_dedication("100000000000000"), Dedication::User(100000000000000));
}

#[test]
fn absent_options_get_the_stored_defaults() {
    let filled = fill_defaults(None, None, None, None, None);
    assert_eq!(filled.description, "No description provided");
    assert_eq!(filled.emoji, "🏆");
    assert_eq!(filled.value, 10);
    assert_eq!(filled.details, "No details provided.");
    assert!(!filled.signed);
    let given = fill_defaults(Some("d".into()), Some("🥇".into()), Some(-3), Some("x".into()), Some(true));
    assert_eq!(
        (given.description.as_str(), given.emoji.as_str(), given.value, given.details.as_str(), given.signed),
        ("d", "🥇", -3, "x", true)
    );
}

#[test]
fn names_of_unicode_whitespace_only_are_blank() {
    for name in ["\u{3000}", " \u{a0}\t", "\u{2028}\u{205f}"] {
        assert_eq!(validate_fields(name, None, None, 0, None, None), Err(CreateError::EmptyName));
    }
    assert_eq!(validate_fields("\u{200b}", None, None, 0, None, None), Ok(()));
}
