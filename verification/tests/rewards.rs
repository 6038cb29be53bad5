use trophy_bot::rewards::{target_roles, StackMode};

const REWARDS: [(i64, i64); 4] = [(200, 50), (100, 10), (400, 1000), (300, 100)];

#[test]
fn empty_rewards_yield_no_roles_in_both_modes() {
    assert!(target_roles(1_000_000, &[], StackMode::All).is_empty());
    assert!(target_roles(1_000_000, &[], StackMode::HighestOnly).is_empty());
}

#[test]
fn stack_all_returns_every_met_reward() {
    assert_eq!(
        target_roles(100, &REWARDS, StackMode::All),
        vec![200, 100, 300],
        "requirements 50, 10 and 100 are met; 1000 is not"
    );
}

#[test]
fn highest_only_returns_single_highest_met_reward() {
    assert_eq!(target_roles(100, &REWARDS, StackMode::HighestOnly), vec![300]);
}

#[test]
fn requirement_equal_to_score_is_met() {
    let rewards = [(1, 10)];
    assert_eq!(target_roles(10, &rewards, StackMode::All), vec![1]);
    assert_eq!(target_roles(10, &rewards, StackMode::HighestOnly), vec![1]);
    assert!(target_roles(9, &rewards, StackMode::All).is_empty());
}

#[test]
fn negative_score_meets_nothing() {
    assert!(target_roles(-5, &REWARDS, StackMode::All).is_empty());
    assert!(target_roles(-5, &REWARDS, StackMode::HighestOnly).is_empty());
}

#[test]
fn zero_score_meets_nothing_since_requirements_are_at_least_one() {
    assert!(target_roles(0, &REWARDS, StackMode::All).is_empty());
    assert!(target_roles(0, &REWARDS, StackMode::HighestOnly).is_empty());
}

#[test]
fn highest_only_tie_keeps_first_in_input_order() {
    let rewards = [(7, 10), (8, 10)];
    assert_eq!(target_roles(50, &rewards, StackMode::HighestOnly), vec![7]);
}

#[test]
fn stack_mode_from_setting_maps_zero_to_all_else_highest() {
    assert_eq!(StackMode::from_setting(0), StackMode::All);
    assert_eq!(StackMode::from_setting(1), StackMode::HighestOnly);
    assert_eq!(StackMode::from_setting(2), StackMode::HighestOnly);
}

#[test]
fn a_higher_score_keeps_every_reward_a_lower_one_met() {
    let low = target_roles(60, &REWARDS, StackMode::All);
    let high = target_roles(2_000, &REWARDS, StackMode::All);
    assert_eq!(low, vec![200, 100]);
    for role in &low {
        assert!(high.contains(role));
    }
    assert_eq!(high, vec![200, 100, 400, 300]);
}
