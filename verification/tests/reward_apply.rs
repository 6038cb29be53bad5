use std::collections::HashMap;

use trophy_bot::reward_apply::{bot_top_position, filter_assignable, plan_changes, RoleMeta, RolePlan};

fn meta(position: u16) -> RoleMeta {
    RoleMeta { position, managed: false }
}

#[test]
fn member_already_on_target_yields_empty_plan() {
    let plan = plan_changes(&[10, 20, 99], &[10, 20, 30], &[10, 20]);
    assert!(plan.is_empty(), "idempotent: {plan:?}");
}

#[test]
fn adds_missing_target_roles_and_removes_stale_reward_roles() {
    let plan = plan_changes(&[10, 99], &[10, 20, 30], &[30]);
    assert_eq!(plan.add, vec![30]);
    assert_eq!(plan.remove, vec![10]);
}

#[test]
fn never_removes_roles_outside_the_configured_reward_set() {
    let plan = plan_changes(&[99, 42], &[10], &[]);
    assert!(plan.remove.is_empty(), "unrelated roles must not be touched: {plan:?}");
}

#[test]
fn empty_target_removes_all_held_reward_roles() {
    let plan = plan_changes(&[10, 20, 99], &[10, 20, 30], &[]);
    assert!(plan.add.is_empty());
    assert_eq!(plan.remove, vec![10, 20]);
}

#[test]
fn duplicate_inputs_are_collapsed() {
    let plan = plan_changes(&[10, 10], &[10, 20, 20], &[20, 20]);
    assert_eq!(plan.add, vec![20]);
    assert_eq!(plan.remove, vec![10]);
}

#[test]
fn bot_top_position_is_highest_known_role_defaulting_to_zero() {
    let roles = HashMap::from([(1, meta(3)), (2, meta(7))]);
    assert_eq!(bot_top_position(&[1, 2], &roles), 7);
    assert_eq!(bot_top_position(&[999], &roles), 0, "unknown roles ignored");
    assert_eq!(bot_top_position(&[], &roles), 0);
}

#[test]
fn filter_skips_roles_at_or_above_bot_managed_and_deleted() {
    let roles = HashMap::from([
        (1, meta(2)),
        (2, meta(5)),
        (3, meta(9)),
        (4, RoleMeta { position: 1, managed: true }),
    ]);
    let (ok, skipped) = filter_assignable(&[1, 2, 3, 4, 5], &roles, 5);
    assert_eq!(ok, vec![1]);
    assert_eq!(skipped, vec![2, 3, 4, 5], "5 was deleted from the guild");
}

#[test]
fn applying_a_plan_then_planning_again_changes_nothing() {
    let member = vec![10, 99, 20];
    let configured = vec![10, 20, 30, 40];
    let target = vec![30, 20];
    let plan = plan_changes(&member, &configured, &target);
    assert_eq!(plan, RolePlan { add: vec![30], remove: vec![10] });
    let mut after: Vec<i64> = member.iter().copied().filter(|r| !plan.remove.contains(r)).collect();
    after.extend(plan.add.iter().copied());
    assert_eq!(after, vec![99, 20, 30]);
    assert!(plan_changes(&after, &configured, &target).is_empty());
}
