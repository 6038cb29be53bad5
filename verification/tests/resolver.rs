use trophy_bot::normalize::normalize_name;
use trophy_bot::resolver::{prefix_choices, MAX_CHOICES};

fn pairs(names: &[&str]) -> Vec<(String, String)> {
    names.iter().map(|n| (n.to_string(), normalize_name(n))).collect()
}

#[test]
fn prefix_matches_normalized_names() {
    let names = pairs(&["Golden Medal", "Gold Star", "Silver Medal"]);
    assert_eq!(prefix_choices(&names, "gold"), vec!["Golden Medal", "Gold Star"]);
    assert_eq!(prefix_choices(&names, "GOLD-S"), vec!["Gold Star"]);
    assert_eq!(prefix_choices(&names, "silver medal"), vec!["Silver Medal"]);
    assert_eq!(prefix_choices(&names, "medal"), Vec::<String>::new());
}

#[test]
fn blank_partial_lists_everything() {
    let names = pairs(&["Alpha", "Beta", "🏆"]);
    assert_eq!(prefix_choices(&names, ""), vec!["Alpha", "Beta", "🏆"]);
    assert_eq!(prefix_choices(&names, "   "), vec!["Alpha", "Beta", "🏆"]);
}

#[test]
fn emoji_partial_matches_only_emoji_named_trophies() {
    let names = pairs(&["Gold Medal", "🏆"]);
    assert_eq!(prefix_choices(&names, "🏆"), vec!["🏆"]);
    assert_eq!(prefix_choices(&names, "!!!"), Vec::<String>::new());
}

#[test]
fn choices_are_capped_at_discord_limit() {
    let all: Vec<String> = (0..40).map(|i| format!("Trophy {i:02}")).collect();
    let names = pairs(&all.iter().map(String::as_str).collect::<Vec<_>>());
    let choices = prefix_choices(&names, "trophy");
    assert_eq!(choices.len(), MAX_CHOICES);
    assert_eq!(choices[0], "Trophy 00");
}

#[test]
fn choices_preserve_input_order() {
    let names = pairs(&["Gold B", "Gold A"]);
    assert_eq!(prefix_choices(&names, "gold"), vec!["Gold B", "Gold A"]);
}

#[test]
fn cap_keeps_the_first_matches_in_order() {
    let all: Vec<String> = (0..30).map(|i| format!("Item {i:02}")).collect();
    let names = pairs(&all.iter().map(String::as_str).collect::<Vec<_>>());
    let choices = prefix_choices(&names, "");
    assert_eq!(choices, all[..25].to_vec());
}
