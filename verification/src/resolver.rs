//! Trophy autocomplete: prefix match on normalized names, input order kept,
//! capped at Discord's choice limit.

use vstd::prelude::*;

use crate::normalize::{normalize_chars, normalize_spec};
use crate::text::{has_prefix, starts_with, str_chars, trim, trim_spec};

verus! {

/// Discord's hard cap on autocomplete choices.
pub const MAX_CHOICES: usize = 25;

/// What the normalized names are matched against: the normalized partial
/// input, or nothing at all (every name matches) when the input is blank.
pub open spec fn needle_spec(partial: Seq<char>) -> Seq<char> {
    if trim_spec(partial).len() == 0 {
        Seq::empty()
    } else {
        normalize_spec(partial)
    }
}

/// Display names whose normalized form starts with `needle`, in input order.
pub open spec fn matching_names(names: Seq<(String, String)>, needle: Seq<char>) -> Seq<Seq<char>>
    decreases names.len(),
{
    if names.len() == 0 {
        Seq::empty()
    } else {
        let before = matching_names(names.drop_last(), needle);
        if has_prefix(names.last().1@, needle) {
            before.push(names.last().0@)
        } else {
            before
        }
    }
}

/// The first `MAX_CHOICES` matches.
pub open spec fn choices_spec(names: Seq<(String, String)>, partial: Seq<char>) -> Seq<Seq<char>> {
    let all = matching_names(names, needle_spec(partial));
    if all.len() <= MAX_CHOICES {
        all
    } else {
        all.take(MAX_CHOICES as int)
    }
}

/// Pure choice filter behind trophy autocomplete: keeps the `(name,
/// normalized)` pairs whose normalized name starts with the normalized
/// partial input, preserving the caller's order, capped at [`MAX_CHOICES`].
/// A blank partial matches every trophy.
pub fn prefix_choices(names: &[(String, String)], partial: &str) -> (choices: Vec<String>)
    ensures
        choices@.map_values(|c: String| c@) == choices_spec(names@, partial@),
{
    let partial_chars = str_chars(partial);
    let needle: Vec<char> = if trim(&partial_chars).len() == 0 {
        Vec::new()
    } else {
        normalize_chars(&partial_chars)
    };
    let ghost all = matching_names(names@, needle@);
    let mut choices: Vec<String> = Vec::new();
    let mut i: usize = 0;
    while i < names.len() && choices.len() < MAX_CHOICES
        invariant
            i <= names.len(),
            needle@ == needle_spec(partial@),
            choices@.map_values(|c: String| c@) == matching_names(names@.take(i as int), needle@),
            choices@.len() <= MAX_CHOICES,
        decreases names.len() - i,
    {
        let normalized = str_chars(names[i].1.as_str());
        assert(names@.take(i + 1).drop_last() =~= names@.take(i as int));
        let ghost before = choices@;
        if starts_with(&normalized, &needle) {
            choices.push(names[i].0.clone());
            assert(choices@.map_values(|c: String| c@) =~= before.map_values(|c: String| c@).push(
                names@[i as int].0@,
            ));
        }
        i = i + 1;
    }
    proof {
        lemma_matching_prefix(names@, needle@, i as int);
        if i == names.len() {
            assert(names@.take(i as int) =~= names@);
        }
    }
    choices
}

/// Matching a longer prefix of the list only appends: the matches of the
/// first `k` names are a prefix of all matches, and once `MAX_CHOICES`
/// matches are found the cap is reached.
proof fn lemma_matching_prefix(names: Seq<(String, String)>, needle: Seq<char>, k: int)
    requires
        0 <= k <= names.len(),
    ensures
        matching_names(names.take(k), needle).len() <= matching_names(names, needle).len(),
        matching_names(names, needle).take(matching_names(names.take(k), needle).len() as int)
            == matching_names(names.take(k), needle),
    decreases names.len() - k,
{
    if k < names.len() {
        lemma_matching_prefix(names, needle, k + 1);
        let a = matching_names(names.take(k), needle);
        let b = matching_names(names.take(k + 1), needle);
        assert(names.take(k + 1).drop_last() =~= names.take(k));
        let all = matching_names(names, needle);
        assert(all.take(b.len() as int).take(a.len() as int) =~= all.take(a.len() as int));
        assert(b.take(a.len() as int) =~= a);
    } else {
        assert(names.take(k) =~= names);
        assert(matching_names(names, needle).take(matching_names(names, needle).len() as int)
            =~= matching_names(names, needle));
    }
}

/// A blank partial input matches every trophy: the choices are the first
/// `MAX_CHOICES` names in input order.
pub proof fn lemma_blank_partial_lists_everything(names: Seq<(String, String)>, partial: Seq<char>)
    requires
        trim_spec(partial).len() == 0,
    ensures
        matching_names(names, needle_spec(partial)) == names.map_values(|p: (String, String)| p.0@),
    decreases names.len(),
{
    if names.len() > 0 {
        lemma_blank_partial_lists_everything(names.drop_last(), partial);
        assert(names.last().1@.take(0) =~= Seq::<char>::empty());
        assert(names.drop_last().map_values(|p: (String, String)| p.0@).push(names.last().0@)
            =~= names.map_values(|p: (String, String)| p.0@));
    } else {
        assert(names.map_values(|p: (String, String)| p.0@) =~= Seq::<Seq<char>>::empty());
    }
}

} // verus!
