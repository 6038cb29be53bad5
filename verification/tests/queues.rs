use trophy_bot::medals_panel::{self, category_choices};
use trophy_bot::panel_updater::{
    classify_status, dead_status, settle_fate, DebounceQueue, EditFailure, PanelFate,
};

/// An arbitrary start instant, in milliseconds.
const START: u64 = 1_000_000;
/// Five seconds, in milliseconds.
const FIVE_SECS: u64 = 5_000;

fn secs(n: u64) -> u64 {
    n * 1_000
}

#[test]
fn panel_updater_first_signal_fixes_the_deadline_and_later_ones_coalesce() {
    let mut queue = DebounceQueue::new(FIVE_SECS);
    queue.signal(1, START);
    let deadline = queue.next_deadline().expect("deadline set");
    assert_eq!(deadline, START + secs(5));
    queue.signal(1, START + secs(3));
    assert_eq!(queue.next_deadline(), Some(deadline));
}

#[test]
fn next_deadline_is_the_earliest_across_guilds() {
    let mut queue = DebounceQueue::new(FIVE_SECS);
    queue.signal(1, START + secs(2));
    queue.signal(2, START);
    assert_eq!(queue.next_deadline(), Some(START + secs(5)));
}

#[test]
fn take_due_returns_only_expired_guilds_and_removes_them() {
    let mut queue = DebounceQueue::new(FIVE_SECS);
    queue.signal(1, START);
    queue.signal(2, START + secs(4));

    let due = queue.take_due(START + secs(5));
    assert_eq!(due, vec![1]);
    assert_eq!(queue.next_deadline(), Some(START + secs(9)));

    assert!(queue.take_due(START + secs(5)).is_empty());
    let due = queue.take_due(START + secs(10));
    assert_eq!(due, vec![2]);
    assert_eq!(queue.next_deadline(), None);
}

#[test]
fn signal_after_take_due_schedules_a_fresh_deadline() {
    let mut queue = DebounceQueue::new(FIVE_SECS);
    queue.signal(1, START);
    queue.take_due(START + secs(6));
    queue.signal(1, START + secs(6));
    assert_eq!(queue.next_deadline(), Some(START + secs(11)));
}

#[test]
fn only_404_counts_as_a_dead_target() {
    assert!(dead_status(reqwest::StatusCode::NOT_FOUND.as_u16()));
    for status in [
        reqwest::StatusCode::FORBIDDEN,
        reqwest::StatusCode::TOO_MANY_REQUESTS,
        reqwest::StatusCode::INTERNAL_SERVER_ERROR,
        reqwest::StatusCode::BAD_GATEWAY,
    ] {
        assert!(!dead_status(status.as_u16()), "{status} must be treated as transient");
    }
}

#[test]
fn non_http_errors_classify_as_transient() {
    assert_eq!(classify_status(None), EditFailure::Transient);
    assert_eq!(classify_status(Some(404)), EditFailure::DeadTarget);
    assert_eq!(classify_status(Some(403)), EditFailure::Transient);
}

#[test]
fn refresh_outcomes_settle_the_record() {
    assert_eq!(settle_fate(Ok(())), PanelFate::Updated);
    assert_eq!(settle_fate(Err(EditFailure::DeadTarget)), PanelFate::RemovedDead);
    assert_eq!(settle_fate(Err(EditFailure::Transient)), PanelFate::KeptAfterError);
}

#[test]
fn an_empty_queue_has_no_deadline_and_nothing_due() {
    let mut queue = DebounceQueue::new(FIVE_SECS);
    assert_eq!(queue.next_deadline(), None);
    assert!(queue.take_due(u64::MAX).is_empty());
}

#[test]
fn take_due_hands_each_due_guild_out_once() {
    let mut queue = DebounceQueue::new(0);
    for guild in [3, 1, 3, 2, 1] {
        queue.signal(guild, START);
    }
    let mut due = queue.take_due(START);
    due.sort();
    assert_eq!(due, vec![1, 2, 3]);
    assert_eq!(queue.next_deadline(), None);
}

#[test]
fn medals_panel_first_signal_fixes_the_deadline_and_later_ones_coalesce() {
    let mut queue = medals_panel::DebounceQueue::new(FIVE_SECS);
    let key = (1, "Government".to_string());

    queue.signal(key.clone(), START);
    let deadline = queue.next_deadline().expect("deadline set");
    assert_eq!(deadline, START + secs(5));

    queue.signal(key, START + secs(3));
    assert_eq!(queue.next_deadline(), Some(deadline));
}

#[test]
fn different_categories_of_the_same_guild_are_independent_keys() {
    let mut queue = medals_panel::DebounceQueue::new(FIVE_SECS);
    queue.signal((1, "Government".to_string()), START);
    queue.signal((1, "Recurring".to_string()), START);

    let mut due = Vec::new();
    while let Some(key) = queue.take_one_due(START + secs(5)) {
        due.push(key);
    }
    due.sort();
    assert_eq!(due, vec![(1, "Government".to_string()), (1, "Recurring".to_string())]);
}

#[test]
fn medals_queue_hands_out_the_earliest_deadline_first() {
    let mut queue = medals_panel::DebounceQueue::new(FIVE_SECS);
    queue.signal((2, "B".to_string()), START + secs(2));
    queue.signal((1, "A".to_string()), START + secs(1));
    queue.signal((3, "C".to_string()), START + secs(9));
    assert_eq!(queue.take_one_due(START + secs(4)), None, "nothing due yet");
    assert_eq!(queue.take_one_due(START + secs(8)), Some((1, "A".to_string())));
    assert_eq!(queue.take_one_due(START + secs(8)), Some((2, "B".to_string())));
    assert_eq!(queue.take_one_due(START + secs(8)), None);
    assert_eq!(queue.next_deadline(), Some(START + secs(14)));
}

#[test]
fn medals_refresh_outcomes_settle_the_record() {
    assert_eq!(medals_panel::settle_fate(Ok(()), false), medals_panel::PanelFate::Updated);
    assert_eq!(
        medals_panel::settle_fate(Err(EditFailure::DeadTarget), true),
        medals_panel::PanelFate::RemovedDead
    );
    assert_eq!(
        medals_panel::settle_fate(Err(EditFailure::DeadTarget), false),
        medals_panel::PanelFate::Superseded
    );
    assert_eq!(
        medals_panel::settle_fate(Err(EditFailure::Transient), true),
        medals_panel::PanelFate::KeptAfterError
    );
}

#[test]
fn category_autocomplete_is_case_insensitive_and_capped() {
    let categories: Vec<String> = ["Government", "Recurring", "GOLD", "golf"]
        .iter()
        .map(|c| c.to_string())
        .collect();
    assert_eq!(category_choices(&categories, "go"), vec!["Government", "GOLD", "golf"]);
    assert_eq!(category_choices(&categories, "REC"), vec!["Recurring"]);
    assert_eq!(category_choices(&categories, ""), categories);
    let many: Vec<String> = (0..40).map(|i| format!("Cat {i:02}")).collect();
    assert_eq!(category_choices(&many, "cat").len(), 25);
}
