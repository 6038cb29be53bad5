use trophy_bot::normalize::{normalize_name, plan_dedupe, plan_renames, Rename};

fn input(pairs: &[(&str, &str)]) -> Vec<(String, String)> {
    pairs
        .iter()
        .map(|(id, name)| (id.to_string(), name.to_string()))
        .collect()
}

#[test]
fn normalize_is_case_and_whitespace_insensitive() {
    assert_eq!(normalize_name("Test"), normalize_name("test"));
    assert_eq!(normalize_name("test"), normalize_name("test "));
}

#[test]
fn normalize_strips_punctuation_and_spaces() {
    assert_eq!(normalize_name("Do You Smell Barbecue?"), "doyousmellbarbecue");
}

#[test]
fn normalize_keeps_cyrillic_lowercased() {
    assert_eq!(normalize_name("Новичок"), "новичок");
}

#[test]
fn normalize_keeps_cjk() {
    assert_eq!(normalize_name("受"), "受");
}

#[test]
fn normalize_emoji_only_falls_back_to_trimmed_lowercased_raw() {
    assert_eq!(normalize_name("🏆"), "🏆");
    assert_eq!(normalize_name(" 🏆 "), "🏆");
}

#[test]
fn normalize_keeps_accented_letters() {
    assert_eq!(normalize_name("Magyar Vitézségi Érdemrend"), "magyarvitézségiérdemrend");
}

#[test]
fn pair_collision_renames_both_with_legacy_ids() {
    let renames = plan_renames(&input(&[("3", "test"), ("7", "test")]));
    assert_eq!(
        renames,
        vec![
            Rename { legacy_id: "3".into(), old_name: "test".into(), new_name: "test 3".into() },
            Rename { legacy_id: "7".into(), old_name: "test".into(), new_name: "test 7".into() },
        ]
    );
}

#[test]
fn triple_collision_renames_all_three() {
    let renames = plan_renames(&input(&[
        ("1", "Do You Smell Barbecue?"),
        ("2", "Do You Smell Barbecue?"),
        ("9", "do you smell barbecue"),
    ]));
    let new_names: Vec<&str> = renames.iter().map(|r| r.new_name.as_str()).collect();
    assert_eq!(
        new_names,
        vec!["Do You Smell Barbecue? 1", "Do You Smell Barbecue? 2", "do you smell barbecue 9"]
    );
}

#[test]
fn overflow_truncates_base_so_result_fits_32_chars() {
    let name = "Combat Meritorious Service Medal";
    assert_eq!(name.chars().count(), 32);
    let renames = plan_renames(&input(&[("35", name), ("38", name)]));
    assert_eq!(renames.len(), 2);
    for r in &renames {
        assert!(r.new_name.chars().count() <= 32, "too long: {}", r.new_name);
    }
    assert_ne!(renames[0].new_name, renames[1].new_name);
    assert_ne!(normalize_name(&renames[0].new_name), normalize_name(&renames[1].new_name));
    assert!(renames[0].new_name.ends_with(" 35"));
    assert!(renames[1].new_name.ends_with(" 38"));
}

#[test]
fn emoji_duplicates_renamed_but_distinct_symbols_untouched() {
    let renames = plan_renames(&input(&[("1", "🏆"), ("2", "🏆"), ("3", "🥇"), ("4", "受")]));
    let ids: Vec<&str> = renames.iter().map(|r| r.legacy_id.as_str()).collect();
    assert_eq!(ids, vec!["1", "2"]);
    assert_eq!(renames[0].new_name, "🏆 1");
    assert_eq!(renames[1].new_name, "🏆 2");
}

#[test]
fn rename_avoids_collision_with_existing_final_name() {
    let renames = plan_renames(&input(&[("3", "test"), ("7", "test"), ("8", "test 3")]));
    let ids: Vec<&str> = renames.iter().map(|r| r.legacy_id.as_str()).collect();
    assert_eq!(ids, vec!["3", "7"]);
    assert_eq!(renames[0].new_name, "test 3 3");
    assert_eq!(renames[1].new_name, "test 7");
    let mut keys: Vec<String> = renames
        .iter()
        .map(|r| normalize_name(&r.new_name))
        .chain(std::iter::once(normalize_name("test 3")))
        .collect();
    keys.sort();
    keys.dedup();
    assert_eq!(keys.len(), 3);
}

#[test]
fn size_one_groups_are_untouched() {
    let renames = plan_renames(&input(&[("1", "Alpha"), ("2", "Beta"), ("3", "Gamma")]));
    assert!(renames.is_empty());
}

#[test]
fn plan_is_deterministic() {
    let trophies = input(&[
        ("35", "Combat Meritorious Service Medal"),
        ("38", "Combat Meritorious Service Medal"),
        ("3", "test"),
        ("7", "test"),
        ("8", "test 3"),
        ("1", "🏆"),
        ("2", "🏆"),
    ]);
    let first = plan_renames(&trophies);
    for _ in 0..10 {
        assert_eq!(plan_renames(&trophies), first);
    }
}

#[test]
fn punctuation_between_letters_does_not_matter() {
    assert_eq!(normalize_name("Gold-Medal!"), normalize_name("gold medal"));
    assert_eq!(normalize_name("GOLD MEDAL"), "goldmedal");
}

#[test]
fn renamed_names_end_with_their_legacy_id() {
    let renames = plan_renames(&input(&[("12", "Star"), ("34", "star!")]));
    assert_eq!(renames.len(), 2);
    assert_eq!(renames[0].new_name, "Star 12");
    assert_eq!(renames[1].new_name, "star! 34");
    assert_eq!(renames[0].old_name, "Star");
}

#[test]
fn rename_that_cannot_grow_falls_back_to_a_tag() {
    let medal = "Combat Meritorious Service Medal";
    let trophies = input(&[("35", medal), ("38", medal), ("1", "Combat Meritorious Service Me 35")]);
    let renames = plan_renames(&trophies);
    assert_eq!(
        renames,
        vec![
            Rename { legacy_id: "35".into(), old_name: medal.into(), new_name: "0 35".into() },
            Rename {
                legacy_id: "38".into(),
                old_name: medal.into(),
                new_name: "Combat Meritorious Service Me 38".into(),
            },
        ]
    );
}

#[test]
fn tag_fallback_skips_taken_tag_names() {
    let medal = "Combat Meritorious Service Medal";
    let trophies = input(&[
        ("35", medal),
        ("38", medal),
        ("1", "Combat Meritorious Service Me 35"),
        ("2", "0 35"),
    ]);
    let renames = plan_renames(&trophies);
    assert_eq!(renames[0].new_name, "1 35");
    assert_eq!(renames[1].new_name, "Combat Meritorious Service Me 38");
}

#[test]
fn tag_fallback_uses_letters_and_stays_within_32_chars() {
    let id = "b".repeat(30);
    let mut pairs: Vec<(String, String)> = vec![(id.clone(), "x".into()), ("q".into(), "x".into())];
    pairs.push(("t".into(), format!("x {id}")));
    for d in 0..10 {
        pairs.push((format!("d{d}"), format!("{d} {id}")));
    }
    let plan = plan_dedupe(&pairs);
    assert_eq!(plan.renames[0].new_name, format!("a {id}"));
    assert_eq!(plan.renames[0].new_name.chars().count(), 32);
    assert!(plan.unresolved.is_empty());
}

#[test]
fn a_name_that_cannot_fit_is_reported_unresolved() {
    let id = "1".repeat(31);
    let trophies = input(&[(id.as_str(), "x"), ("b", "x"), ("c", id.as_str())]);
    let plan = plan_dedupe(&trophies);
    assert_eq!(plan.unresolved, vec![(id.clone(), "x".to_string())]);
    assert_eq!(
        plan.renames,
        vec![Rename { legacy_id: "b".into(), old_name: "x".into(), new_name: "x b".into() }]
    );
    assert!(plan_renames(&trophies).iter().all(|r| r.new_name.chars().count() <= 32));
}
