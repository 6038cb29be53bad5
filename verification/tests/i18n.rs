use trophy_bot::i18n::{fallback, resolve, LocaleTag};

fn tag(tag: &str, language: &str) -> LocaleTag {
    LocaleTag { tag: tag.to_string(), language: language.to_string() }
}

/// The tag a resolution ends on: the chosen catalog, or the fallback.
fn chosen(locale: Option<&str>, available: &[LocaleTag]) -> String {
    match resolve(locale, available) {
        Some(i) => available[i].tag.clone(),
        None => fallback().tag,
    }
}

#[test]
fn resolves_exact_locale() {
    let available = [tag("en-US", "en")];
    assert_eq!(chosen(Some("en-US"), &available), "en-US");
}

#[test]
fn falls_back_to_english_for_unknown_locale() {
    let available = [tag("en-US", "en")];
    assert_eq!(chosen(Some("zz-ZZ"), &available), "en-US");
    assert_eq!(chosen(Some("not a tag !!"), &available), "en-US");
    assert_eq!(chosen(None, &available), "en-US");
}

#[test]
fn same_language_catalog_is_the_second_choice() {
    let available = [tag("en-US", "en"), tag("es-ES", "es"), tag("pt-BR", "pt")];
    assert_eq!(chosen(Some("es-MX"), &available), "es-ES");
    assert_eq!(chosen(Some("pt-BR"), &available), "pt-BR");
    assert_eq!(chosen(Some("de"), &available), "en-US");
}

#[test]
fn an_exact_match_later_in_the_list_beats_an_earlier_language_match() {
    let available = [tag("es-ES", "es"), tag("es-MX", "es")];
    assert_eq!(resolve(Some("es-MX"), &available), Some(1));
    assert_eq!(resolve(Some("es-AR"), &available), Some(0));
}
