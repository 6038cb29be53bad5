//! Locale resolution: exact catalog tag, else a catalog of the same primary
//! language, else the English fallback.

use vstd::prelude::*;

use crate::messages::owned;

verus! {

/// A locale by its canonical tag text and its primary language subtag.
#[derive(Debug, Clone, PartialEq, Eq)]
pub struct LocaleTag {
    pub tag: String,
    pub language: String,
}

/// A locale by value.
pub open spec fn locale_view(l: LocaleTag) -> (Seq<char>, Seq<char>) {
    (l.tag@, l.language@)
}

/// What `LanguageIdentifier::from_str` makes of a tag, as its canonical
/// text and language subtag.
pub uninterp spec fn langid_parse(s: Seq<char>) -> Option<(Seq<char>, Seq<char>)>;

/// `s.parse::<fluent_templates::LanguageIdentifier>()` (the unic-langid
/// parser), with the identifier taken as its `Display` text and
/// `language.as_str()`. The result is named [`langid_parse`]; which texts
/// parse, and to what, is left unsaid.
#[verifier::external_body]
pub(crate) fn parse_locale(tag: &str) -> (r: Option<LocaleTag>)
    ensures
        match r {
            Some(l) => langid_parse(tag@) == Some(locale_view(l)),
            None => langid_parse(tag@) is None,
        },
{
    match tag.parse::<fluent_templates::LanguageIdentifier>() {
        Ok(id) => Some(LocaleTag { tag: id.to_string(), language: id.language.as_str().to_string() }),
        Err(_) => None,
    }
}

/// Position of the first catalog whose tag is `tag`, or `-1`.
pub open spec fn first_tag(available: Seq<(Seq<char>, Seq<char>)>, tag: Seq<char>) -> int
    decreases available.len(),
{
    if available.len() == 0 {
        -1
    } else if available[0].0 == tag {
        0
    } else {
        let r = first_tag(available.drop_first(), tag);
        if r < 0 {
            -1
        } else {
            r + 1
        }
    }
}

/// Position of the first catalog of primary language `language`, or `-1`.
pub open spec fn first_language(available: Seq<(Seq<char>, Seq<char>)>, language: Seq<char>) -> int
    decreases available.len(),
{
    if available.len() == 0 {
        -1
    } else if available[0].1 == language {
        0
    } else {
        let r = first_language(available.drop_first(), language);
        if r < 0 {
            -1
        } else {
            r + 1
        }
    }
}

/// The catalog a wanted locale resolves to (`None` = the fallback).
pub open spec fn resolve_spec(wanted: Option<(Seq<char>, Seq<char>)>, available: Seq<(Seq<char>, Seq<char>)>) -> Option<int> {
    match wanted {
        None => None,
        Some((tag, language)) => if first_tag(available, tag) >= 0 {
            Some(first_tag(available, tag))
        } else if first_language(available, language) >= 0 {
            Some(first_language(available, language))
        } else {
            None
        },
    }
}

/// Picks the catalog for a parsed locale among the available ones: the
/// position of an exact match, else of the first catalog with the same
/// primary language; `None` means the English fallback.
pub fn pick_catalog(wanted: Option<&LocaleTag>, available: &[LocaleTag]) -> (r: Option<usize>)
    ensures
        match resolve_spec(
            match wanted {
                Some(w) => Some(locale_view(*w)),
                None => None,
            },
            available@.map_values(|l: LocaleTag| locale_view(l)),
        ) {
            Some(i) => r == Some(i as usize),
            None => r is None,
        },
{
    let w = match wanted {
        Some(w) => w,
        None => return None,
    };
    let ghost avail = available@.map_values(|l: LocaleTag| locale_view(l));
    let mut language_match: Option<usize> = None;
    let mut i: usize = 0;
    while i < available.len()
        invariant
            i <= available.len(),
            wanted == Some(w),
            avail == available@.map_values(|l: LocaleTag| locale_view(l)),
            first_tag(avail, w.tag@) < 0 || first_tag(avail, w.tag@) >= i,
            match language_match {
                Some(k) => k < i && first_language(avail, w.language@) == k,
                None => first_language(avail, w.language@) < 0 || first_language(avail, w.language@) >= i,
            },
        decreases available.len() - i,
    {
        proof {
            assert(avail[i as int] == locale_view(available@[i as int]));
            lemma_first_tag_at(avail, w.tag@, i as int);
            if language_match is None {
                lemma_first_language_at(avail, w.language@, i as int);
            }
        }
        if available[i].tag == w.tag {
            assert(avail[i as int].0 == w.tag@);
            assert(first_tag(avail, w.tag@) == i);
            return Some(i);
        }
        if available[i].language == w.language && language_match.is_none() {
            language_match = Some(i);
        }
        i = i + 1;
    }
    proof {
        lemma_first_bounds(avail, w.tag@, w.language@);
    }
    language_match
}

/// Both searches answer `-1` or a position inside the list.
proof fn lemma_first_bounds(available: Seq<(Seq<char>, Seq<char>)>, tag: Seq<char>, language: Seq<char>)
    ensures
        -1 <= first_tag(available, tag) < available.len(),
        -1 <= first_language(available, language) < available.len(),
    decreases available.len(),
{
    if available.len() > 0 {
        lemma_first_bounds(available.drop_first(), tag, language);
    }
}

/// `first_tag` past `i` when no earlier catalog matched, and exactly `i`
/// when catalog `i` matches.
proof fn lemma_first_tag_at(available: Seq<(Seq<char>, Seq<char>)>, tag: Seq<char>, i: int)
    requires
        0 <= i < available.len(),
        first_tag(available, tag) < 0 || first_tag(available, tag) >= i,
    ensures
        available[i].0 == tag ==> first_tag(available, tag) == i,
        available[i].0 != tag ==> (first_tag(available, tag) < 0 || first_tag(available, tag) > i),
    decreases i,
{
    if i > 0 {
        let rest = available.drop_first();
        assert(available[0].0 != tag);
        assert(rest[i - 1] == available[i]);
        lemma_first_tag_at(rest, tag, i - 1);
    }
}

/// The same for `first_language`.
proof fn lemma_first_language_at(available: Seq<(Seq<char>, Seq<char>)>, language: Seq<char>, i: int)
    requires
        0 <= i < available.len(),
        first_language(available, language) < 0 || first_language(available, language) >= i,
    ensures
        available[i].1 == language ==> first_language(available, language) == i,
        available[i].1 != language ==> (first_language(available, language) < 0 || first_language(
            available,
            language,
        ) > i),
    decreases i,
{
    if i > 0 {
        let rest = available.drop_first();
        assert(available[0].1 != language);
        assert(rest[i - 1] == available[i]);
        lemma_first_language_at(rest, language, i - 1);
    }
}

/// Resolves a locale tag (e.g. `es-ES`, `pt-BR`) against the available
/// catalogs: exact match, then same primary language, then the fallback
/// (`None`). A missing or unparsable tag gets the fallback.
pub fn resolve(locale: Option<&str>, available: &[LocaleTag]) -> (r: Option<usize>)
    ensures
        match resolve_spec(
            match locale {
                Some(tag) => langid_parse(tag@),
                None => None,
            },
            available@.map_values(|l: LocaleTag| locale_view(l)),
        ) {
            Some(i) => r == Some(i as usize),
            None => r is None,
        },
{
    let tag = match locale {
        Some(tag) => tag,
        None => return None,
    };
    match parse_locale(tag) {
        Some(wanted) => pick_catalog(Some(&wanted), available),
        None => None,
    }
}

/// The English fallback locale.
pub fn fallback() -> (l: LocaleTag)
    ensures
        l.tag@ == "en-US"@,
        l.language@ == "en"@,
{
    LocaleTag { tag: owned("en-US"), language: owned("en") }
}

} // verus!
