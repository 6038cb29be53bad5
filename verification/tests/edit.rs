use trophy_bot::edit::{
    dedication_display, is_clear_dedication, plan_edit, render_changes, rename_needs_check,
    temp_filename, Change, EditRequest, TrophyFields,
};
use trophy_bot::images::filename;
use trophy_bot::messages::MessageArg;
use uuid::Uuid;

fn model(name: &str) -> TrophyFields {
    TrophyFields {
        name: name.to_string(),
        description: "Old description".to_string(),
        emoji: "🏆".to_string(),
        dedication_user_id: None,
        dedication_text: None,
        details: "Old details".to_string(),
        image: None,
    }
}

#[test]
fn empty_request_plans_no_changes() {
    let current = model("Gold Medal");
    let plan = plan_edit(&current, EditRequest::default());
    assert!(plan.changes.is_empty());
    assert_eq!(plan.name, "Gold Medal");
    assert_eq!(plan.normalized_name, "goldmedal");
    assert_eq!(plan.description, "Old description");
    assert_eq!(plan.image, None);
}

#[test]
fn same_values_are_not_changes() {
    let mut current = model("Gold Medal");
    current.dedication_text = Some("mom".to_string());
    let plan = plan_edit(
        &current,
        EditRequest {
            name: Some("Gold Medal".into()),
            description: Some("Old description".into()),
            emoji: Some("🏆".into()),
            dedication: Some((None, Some("mom".into()))),
            details: Some("Old details".into()),
            image: None,
        },
    );
    assert!(plan.changes.is_empty(), "changes: {:?}", plan.changes);
}

#[test]
fn changed_fields_are_merged_and_reported() {
    let current = model("Gold Medal");
    let plan = plan_edit(
        &current,
        EditRequest {
            name: Some("Platinum Medal".into()),
            description: Some("New description".into()),
            emoji: Some("🥇".into()),
            details: Some("New details".into()),
            ..EditRequest::default()
        },
    );
    assert_eq!(plan.name, "Platinum Medal");
    assert_eq!(plan.normalized_name, "platinummedal", "normalized_name follows the rename");
    assert_eq!(plan.description, "New description");
    assert_eq!(plan.emoji, "🥇");
    assert_eq!(plan.details, "New details");
    assert_eq!(
        plan.changes,
        vec![
            Change::Name { old: "Gold Medal".into(), new: "Platinum Medal".into() },
            Change::Description { old: "Old description".into(), new: "New description".into() },
            Change::Emoji { old: "🏆".into(), new: "🥇".into() },
            Change::Details { old: "Old details".into(), new: "New details".into() },
        ]
    );
}

#[test]
fn dedication_same_user_is_not_a_change_even_with_new_name_snapshot() {
    let mut current = model("Gold Medal");
    current.dedication_user_id = Some(42);
    current.dedication_text = Some("old-username".to_string());
    let plan = plan_edit(
        &current,
        EditRequest {
            dedication: Some((Some(42), Some("new-username".into()))),
            ..EditRequest::default()
        },
    );
    assert!(plan.changes.is_empty());
    assert_eq!(plan.dedication_text.as_deref(), Some("old-username"), "snapshot kept");
}

#[test]
fn clearing_an_absent_dedication_is_not_a_change() {
    let current = model("Gold Medal");
    let plan = plan_edit(&current, EditRequest { dedication: Some((None, None)), ..Default::default() });
    assert!(plan.changes.is_empty());
}

#[test]
fn dedication_transitions_are_changes() {
    let mut current = model("Gold Medal");
    current.dedication_text = Some("mom".to_string());
    let plan = plan_edit(
        &current,
        EditRequest { dedication: Some((Some(42), Some("ana".into()))), ..EditRequest::default() },
    );
    assert_eq!(plan.dedication_user_id, Some(42));
    assert_eq!(
        plan.changes,
        vec![Change::Dedication { old: Some("mom".into()), new: Some("<@42>".into()) }]
    );

    let mut current = model("Gold Medal");
    current.dedication_user_id = Some(42);
    current.dedication_text = Some("ana".to_string());
    let plan = plan_edit(&current, EditRequest { dedication: Some((None, None)), ..Default::default() });
    assert_eq!(plan.dedication_user_id, None);
    assert_eq!(plan.dedication_text, None);
    assert_eq!(plan.changes, vec![Change::Dedication { old: Some("<@42>".into()), new: None }]);
}

#[test]
fn new_image_is_always_a_change_and_replaces_the_filename() {
    let mut current = model("Gold Medal");
    current.image = Some("1_old.png".to_string());
    let plan = plan_edit(&current, EditRequest { image: Some("1_new.gif".into()), ..EditRequest::default() });
    assert_eq!(plan.image.as_deref(), Some("1_new.gif"));
    assert_eq!(plan.changes, vec![Change::Image]);

    let plan = plan_edit(&current, EditRequest::default());
    assert_eq!(plan.image.as_deref(), Some("1_old.png"));
}

#[test]
fn temp_filename_appends_tmp_and_never_matches_a_stored_name() {
    let stored = filename(1, Uuid::now_v7().as_u128(), "png");
    let temp = temp_filename(&stored);
    assert_eq!(temp, format!("{stored}.tmp"));
    assert_ne!(temp, stored);
}

#[test]
fn report_lines_carry_old_and_new_values() {
    let lines = render_changes(&[
        Change::Name { old: "Gold".into(), new: "Platinum".into() },
        Change::Image,
    ]);
    assert_eq!(lines.len(), 2);
    assert_eq!(lines[0].key, "edit-change-name");
    assert_eq!(
        lines[0].args,
        vec![
            ("old".to_string(), MessageArg::Text("Gold".into())),
            ("new".to_string(), MessageArg::Text("Platinum".into())),
        ]
    );
    assert_eq!(lines[1].key, "edit-change-image");
    assert!(lines[1].args.is_empty());
}

#[test]
fn cleared_dedication_side_renders_the_none_message() {
    let lines = render_changes(&[Change::Dedication { old: Some("<@42>".into()), new: None }]);
    assert_eq!(lines.len(), 1);
    assert_eq!(lines[0].key, "edit-change-dedication");
    assert_eq!(
        lines[0].args,
        vec![
            ("old".to_string(), MessageArg::Text("<@42>".into())),
            ("new".to_string(), MessageArg::Key("edit-dedication-none".into())),
        ]
    );
}

#[test]
fn dedication_display_prefers_the_user_mention() {
    assert_eq!(dedication_display(Some(42), Some("ana")), Some("<@42>".to_string()));
    assert_eq!(dedication_display(None, Some("mom")), Some("mom".to_string()));
    assert_eq!(dedication_display(None, None), None);
}

#[test]
fn dash_clears_the_dedication() {
    assert!(is_clear_dedication("-"));
    assert!(is_clear_dedication("  -  "));
    assert!(!is_clear_dedication("--"));
    assert!(!is_clear_dedication("mom"));
}

#[test]
fn cosmetic_renames_skip_the_uniqueness_check() {
    assert!(!rename_needs_check(Some("goldmedal"), "goldmedal"));
    assert!(rename_needs_check(Some("silvermedal"), "goldmedal"));
    assert!(!rename_needs_check(None, "goldmedal"));
}
