use trophy_bot::buttons::{
    custom_id, delete_custom_id, delete_press_outcome, is_expired, parse_custom_id,
    parse_delete_custom_id, parse_show_holders_custom_id, press_outcome, show_holders_custom_id,
    DeleteButton, DeletePressOutcome, ForgetmeButton, PressOutcome, ShowHoldersAction,
    holders_press_outcome, holders_toggle_label, HoldersPressOutcome,
    CONFIRM_TIMEOUT_SECS,
};
use uuid::Uuid;

#[test]
fn show_holders_toggle_custom_id_round_trips() {
    let trophy = Uuid::now_v7().as_u128();
    assert_eq!(
        parse_show_holders_custom_id(&show_holders_custom_id(trophy, ShowHoldersAction::Show, 42)),
        Some((trophy, ShowHoldersAction::Show, 42))
    );
    assert_eq!(
        parse_show_holders_custom_id(&show_holders_custom_id(trophy, ShowHoldersAction::Hide, 42)),
        Some((trophy, ShowHoldersAction::Hide, 42))
    );
}

#[test]
fn custom_id_round_trips_both_buttons() {
    for button in [ForgetmeButton::Confirm, ForgetmeButton::Cancel] {
        let id = custom_id(button, 1_751_900_000);
        assert_eq!(parse_custom_id(&id), Some((button, 1_751_900_000)));
    }
}

#[test]
fn parse_rejects_foreign_and_malformed_ids() {
    for id in [
        "",
        "forgetme",
        "forgetme:",
        "forgetme:confirm",
        "forgetme:confirm:",
        "forgetme:confirm:notanumber",
        "forgetme:nuke:123",
        "other:confirm:123",
        "forgetmeproceed",
    ] {
        assert_eq!(parse_custom_id(id), None, "id {id:?} must not parse");
    }
}

#[test]
fn confirmation_expires_strictly_after_the_timeout() {
    let issued = 1_000;
    assert!(!is_expired(issued, issued), "fresh press is valid");
    assert!(
        !is_expired(issued, issued + CONFIRM_TIMEOUT_SECS),
        "press exactly at the deadline is still valid"
    );
    assert!(is_expired(issued, issued + CONFIRM_TIMEOUT_SECS + 1));
}

#[test]
fn non_owner_is_rejected_before_anything_else() {
    for button in [ForgetmeButton::Confirm, ForgetmeButton::Cancel] {
        for now in [1_000, 1_000 + CONFIRM_TIMEOUT_SECS + 1] {
            assert_eq!(press_outcome(button, false, 1_000, now), PressOutcome::RejectNotOwner);
        }
    }
}

#[test]
fn stale_owner_press_expires_regardless_of_button() {
    let now = 1_000 + CONFIRM_TIMEOUT_SECS + 1;
    for button in [ForgetmeButton::Confirm, ForgetmeButton::Cancel] {
        assert_eq!(press_outcome(button, true, 1_000, now), PressOutcome::Expired);
    }
}

#[test]
fn fresh_owner_press_maps_confirm_to_purge_and_cancel_to_cancelled() {
    assert_eq!(
        press_outcome(ForgetmeButton::Confirm, true, 1_000, 1_000 + CONFIRM_TIMEOUT_SECS),
        PressOutcome::Purge
    );
    assert_eq!(press_outcome(ForgetmeButton::Cancel, true, 1_000, 1_000), PressOutcome::Cancelled);
}

#[test]
fn delete_custom_id_round_trips_both_buttons() {
    let trophy = Uuid::now_v7().as_u128();
    for button in [DeleteButton::Confirm, DeleteButton::Cancel] {
        let id = delete_custom_id(button, 1_751_900_000, 42, trophy);
        assert!(id.len() <= 100, "custom id must fit Discord's cap: {id}");
        assert_eq!(parse_delete_custom_id(&id), Some((button, 1_751_900_000, 42, trophy)));
    }
}

#[test]
fn delete_parse_rejects_foreign_and_malformed_ids() {
    let trophy = Uuid::now_v7();
    let ids = [
        String::new(),
        "trophy-delete".to_string(),
        "trophy-delete:".to_string(),
        "trophy-delete:confirm".to_string(),
        "trophy-delete:confirm:123".to_string(),
        "trophy-delete:confirm:123:42".to_string(),
        "trophy-delete:confirm:123:42:not-a-uuid".to_string(),
        format!("trophy-delete:nuke:123:42:{trophy}"),
        format!("trophy-delete:confirm:abc:42:{trophy}"),
        format!("trophy-delete:confirm:123:abc:{trophy}"),
        format!("other:confirm:123:42:{trophy}"),
        "forgetme:confirm:123".to_string(),
    ];
    for id in &ids {
        assert_eq!(parse_delete_custom_id(id), None, "id {id:?} must not parse");
    }
    let delete_id = delete_custom_id(DeleteButton::Confirm, 123, 42, trophy.as_u128());
    assert_eq!(parse_custom_id(&delete_id), None);
}

#[test]
fn delete_non_invoker_is_rejected_before_anything_else() {
    for button in [DeleteButton::Confirm, DeleteButton::Cancel] {
        for now in [1_000, 1_000 + CONFIRM_TIMEOUT_SECS + 1] {
            assert_eq!(
                delete_press_outcome(button, false, 1_000, now),
                DeletePressOutcome::RejectNotInvoker
            );
        }
    }
}

#[test]
fn delete_stale_invoker_press_expires_regardless_of_button() {
    let now = 1_000 + CONFIRM_TIMEOUT_SECS + 1;
    for button in [DeleteButton::Confirm, DeleteButton::Cancel] {
        assert_eq!(delete_press_outcome(button, true, 1_000, now), DeletePressOutcome::Expired);
    }
}

#[test]
fn delete_fresh_invoker_press_maps_confirm_and_cancel() {
    assert_eq!(
        delete_press_outcome(DeleteButton::Confirm, true, 1_000, 1_000 + CONFIRM_TIMEOUT_SECS),
        DeletePressOutcome::Delete
    );
    assert_eq!(
        delete_press_outcome(DeleteButton::Cancel, true, 1_000, 1_000),
        DeletePressOutcome::Cancelled
    );
}

#[test]
fn ids_carry_the_hyphenated_lowercase_trophy_id() {
    let trophy = 0xa1a2a3a4b1b2c1c2d1d2d3d4d5d6d7d8u128;
    assert_eq!(
        show_holders_custom_id(trophy, ShowHoldersAction::Hide, 7),
        "trophy-show-holders:a1a2a3a4-b1b2-c1c2-d1d2-d3d4d5d6d7d8:hide:7"
    );
    assert_eq!(
        delete_custom_id(DeleteButton::Cancel, -5, 9, trophy),
        "trophy-delete:cancel:-5:9:a1a2a3a4-b1b2-c1c2-d1d2-d3d4d5d6d7d8"
    );
    assert_eq!(custom_id(ForgetmeButton::Confirm, 77), "forgetme:confirm:77");
}

#[test]
fn worst_case_delete_id_is_exactly_at_the_cap() {
    let id = delete_custom_id(DeleteButton::Confirm, i64::MIN, u64::MAX, u128::MAX);
    assert_eq!(id.len(), 100);
    assert_eq!(
        parse_delete_custom_id(&id),
        Some((DeleteButton::Confirm, i64::MIN, u64::MAX, u128::MAX))
    );
}

#[test]
fn trophy_ids_parse_in_any_format_the_uuid_crate_writes() {
    let trophy = Uuid::now_v7();
    let simple = format!("trophy-show-holders:{}:show:5", trophy.simple());
    assert_eq!(
        parse_show_holders_custom_id(&simple),
        Some((trophy.as_u128(), ShowHoldersAction::Show, 5))
    );
    assert_eq!(parse_show_holders_custom_id("trophy-show-holders:nope:show:5"), None);
    assert_eq!(
        parse_show_holders_custom_id(&format!("trophy-show-holders:{trophy}:peek:5")),
        None
    );
}

#[test]
fn show_holders_toggle_alternates() {
    assert_eq!(ShowHoldersAction::Show.toggled(), ShowHoldersAction::Hide);
    assert_eq!(ShowHoldersAction::Hide.toggled(), ShowHoldersAction::Show);
}

#[test]
fn expiry_survives_extreme_timestamps() {
    assert!(is_expired(i64::MIN, i64::MAX));
    assert!(!is_expired(i64::MAX, i64::MIN));
}

#[test]
fn only_the_invoker_toggles_the_holders() {
    assert_eq!(holders_press_outcome(ShowHoldersAction::Show, 7, 8), HoldersPressOutcome::RejectNotInvoker);
    assert_eq!(
        holders_press_outcome(ShowHoldersAction::Show, 7, 7),
        HoldersPressOutcome::Render { with_holders: true, next: ShowHoldersAction::Hide }
    );
    assert_eq!(
        holders_press_outcome(ShowHoldersAction::Hide, 7, 7),
        HoldersPressOutcome::Render { with_holders: false, next: ShowHoldersAction::Show }
    );
    assert_eq!(holders_toggle_label(ShowHoldersAction::Show), "show-button-holders");
    assert_eq!(holders_toggle_label(ShowHoldersAction::Hide), "show-button-hide-holders");
}
