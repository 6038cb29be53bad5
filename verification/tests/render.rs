use std::collections::HashMap;

use trophy_bot::render::{
    build_view, clamp_page, display_name, lookup_failure, medal, members_to_resolve,
    LeaderboardFormat, Membership, PageBounds, PER_PAGE,
};

fn present(username: &str, nickname: Option<&str>, tag: &str) -> Membership {
    Membership::Present {
        username: username.to_string(),
        nickname: nickname.map(str::to_string),
        tag: tag.to_string(),
    }
}

#[test]
fn clamp_page_zero_and_negative_become_first_page() {
    assert_eq!(clamp_page(0, 25), PageBounds { page: 1, last: 3 });
    assert_eq!(clamp_page(-3, 25), PageBounds { page: 1, last: 3 });
}

#[test]
fn clamp_page_past_the_end_becomes_last_page() {
    assert_eq!(clamp_page(999, 15), PageBounds { page: 2, last: 2 });
}

#[test]
fn clamp_page_exact_boundaries() {
    assert_eq!(clamp_page(1, 10), PageBounds { page: 1, last: 1 });
    assert_eq!(clamp_page(2, 11), PageBounds { page: 2, last: 2 });
}

#[test]
fn clamp_page_empty_list_is_a_single_page() {
    assert_eq!(clamp_page(1, 0), PageBounds { page: 1, last: 1 });
    assert_eq!(clamp_page(42, 0), PageBounds { page: 1, last: 1 });
}

#[test]
fn medals_for_top_three_then_generic() {
    assert_eq!(medal(1), "🥇");
    assert_eq!(medal(2), "🥈");
    assert_eq!(medal(3), "🥉");
    assert_eq!(medal(4), ":medal:");
    assert_eq!(medal(100), ":medal:");
}

#[test]
fn format_from_setting_with_graceful_fallback() {
    assert_eq!(LeaderboardFormat::from_setting(0), LeaderboardFormat::Mention);
    assert_eq!(LeaderboardFormat::from_setting(1), LeaderboardFormat::Username);
    assert_eq!(LeaderboardFormat::from_setting(2), LeaderboardFormat::Nickname);
    assert_eq!(LeaderboardFormat::from_setting(3), LeaderboardFormat::UsernameTag);
    assert_eq!(LeaderboardFormat::from_setting(7), LeaderboardFormat::Mention);
    assert_eq!(LeaderboardFormat::from_setting(-1), LeaderboardFormat::Mention);
}

#[test]
fn mention_format_needs_no_member_data() {
    assert_eq!(display_name(LeaderboardFormat::Mention, 42, &Membership::Absent), "<@42>");
    assert_eq!(
        display_name(LeaderboardFormat::Mention, 42, &present("ana", Some("Annie"), "ana#0")),
        "<@42>"
    );
}

#[test]
fn username_nickname_and_tag_formats_use_member_data() {
    let member = present("ana", Some("Annie"), "ana#0");
    assert_eq!(display_name(LeaderboardFormat::Username, 42, &member), "ana");
    assert_eq!(display_name(LeaderboardFormat::Nickname, 42, &member), "Annie");
    assert_eq!(display_name(LeaderboardFormat::UsernameTag, 42, &member), "ana#0");
}

#[test]
fn nickname_format_falls_back_to_username() {
    let member = present("ana", None, "ana#0");
    assert_eq!(display_name(LeaderboardFormat::Nickname, 42, &member), "ana");
}

#[test]
fn non_mention_formats_fall_back_to_mention_for_absent_or_unknown_users() {
    for format in [
        LeaderboardFormat::Username,
        LeaderboardFormat::Nickname,
        LeaderboardFormat::UsernameTag,
    ] {
        assert_eq!(display_name(format, 42, &Membership::Absent), "<@42>");
        assert_eq!(display_name(format, 42, &Membership::Unknown), "<@42>");
    }
}

#[test]
fn total_is_the_whole_server_score_independent_of_filters() {
    let board = vec![(1, 10), (2, 5), (3, 0)];
    let membership = HashMap::from([
        (1, present("a", None, "a#0")),
        (2, Membership::Absent),
        (3, present("c", None, "c#0")),
    ]);
    let view = build_view(&board, &membership, true, LeaderboardFormat::Mention, 1);
    assert_eq!(view.total_score, 15);
    assert_eq!(view.rows.len(), 2, "absent user hidden from rows");
}

#[test]
fn zero_score_users_with_awards_are_listed() {
    let board = vec![(1, 5), (2, 0)];
    let view = build_view(&board, &HashMap::new(), false, LeaderboardFormat::Mention, 1);
    assert_eq!(view.rows.len(), 2);
    assert_eq!(view.rows[1].name, "<@2>");
    assert_eq!(view.rows[1].score, 0);
}

#[test]
fn hide_quit_users_drops_absent_but_keeps_unknown_and_unresolved() {
    let board = vec![(1, 30), (2, 20), (3, 10)];
    let membership = HashMap::from([(1, Membership::Absent), (2, Membership::Unknown)]);
    let view = build_view(&board, &membership, true, LeaderboardFormat::Mention, 1);
    assert_eq!(view.rows.len(), 2);
    assert_eq!(view.rows[0].name, "<@2>");
    assert_eq!(view.rows[1].name, "<@3>");
}

#[test]
fn show_quit_users_keeps_absent_users_with_mention_fallback_names() {
    let board = vec![(1, 30)];
    let membership = HashMap::from([(1, Membership::Absent)]);
    let view = build_view(&board, &membership, false, LeaderboardFormat::Username, 1);
    assert_eq!(view.rows.len(), 1);
    assert_eq!(view.rows[0].name, "<@1>", "departed user must render as mention");
}

#[test]
fn ranks_and_medals_follow_the_clamped_page() {
    let board: Vec<(i64, i64)> = (1..=15).map(|i| (i, 100 - i)).collect();
    let view = build_view(&board, &HashMap::new(), false, LeaderboardFormat::Mention, 999);
    assert_eq!((view.page, view.last), (2, 2));
    assert_eq!(view.rows.len(), 5);
    assert_eq!(view.rows[0].rank, 11);
    assert_eq!(view.rows[4].rank, 15);
    assert!(view.rows.iter().all(|row| row.medal != "🥇"));

    let view = build_view(&board, &HashMap::new(), false, LeaderboardFormat::Mention, -3);
    assert_eq!((view.page, view.last), (1, 2));
    assert_eq!(view.rows.len(), PER_PAGE);
    assert_eq!(view.rows[0].medal, "🥇");
    assert_eq!(view.rows[1].medal, "🥈");
    assert_eq!(view.rows[2].medal, "🥉");
    assert_eq!(view.rows[3].medal, ":medal:");
}

#[test]
fn ranks_are_positions_in_the_visible_list_when_filtering() {
    let board = vec![(1, 30), (2, 20)];
    let membership = HashMap::from([(1, Membership::Absent)]);
    let view = build_view(&board, &membership, true, LeaderboardFormat::Mention, 1);
    assert_eq!(view.rows.len(), 1);
    assert_eq!(view.rows[0].medal, "🥇");
    assert_eq!(view.rows[0].rank, 1);
    assert_eq!(view.rows[0].name, "<@2>");
}

#[test]
fn empty_board_yields_no_rows_and_single_page() {
    let view = build_view(&[], &HashMap::new(), true, LeaderboardFormat::Mention, 1);
    assert_eq!(view.rows.len(), 0);
    assert_eq!(view.total_score, 0);
    assert_eq!((view.page, view.last), (1, 1));
}

#[test]
fn only_the_needed_memberships_are_looked_up() {
    let board: Vec<(i64, i64)> = (1..=15).map(|i| (i, 100 - i)).collect();
    let all: Vec<i64> = (1..=15).collect();
    assert_eq!(members_to_resolve(&board, true, LeaderboardFormat::Mention, 1), all);
    assert_eq!(
        members_to_resolve(&board, false, LeaderboardFormat::Username, 2),
        vec![11, 12, 13, 14, 15]
    );
    assert_eq!(
        members_to_resolve(&board, false, LeaderboardFormat::Nickname, -4),
        (1..=10).collect::<Vec<i64>>()
    );
    assert!(members_to_resolve(&board, false, LeaderboardFormat::Mention, 1).is_empty());
}

#[test]
fn only_a_404_lookup_marks_a_user_absent() {
    assert_eq!(lookup_failure(Some(404)), Membership::Absent);
    assert_eq!(lookup_failure(Some(403)), Membership::Unknown);
    assert_eq!(lookup_failure(Some(500)), Membership::Unknown);
    assert_eq!(lookup_failure(None), Membership::Unknown);
}

#[test]
fn rows_use_the_configured_name_format() {
    let board = vec![(7, 3), (8, 2)];
    let membership = HashMap::from([(7, present("ana", Some("Annie"), "ana#0"))]);
    let view = build_view(&board, &membership, false, LeaderboardFormat::Nickname, 1);
    assert_eq!(view.rows[0].name, "Annie");
    assert_eq!(view.rows[0].score, 3);
    assert_eq!(view.rows[1].name, "<@8>", "unresolved users render as mentions");
    assert_eq!(view.total_score, 5);
}
