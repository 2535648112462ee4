use reinschrift::i18n::{base_language, parse_catalog, set_language, t, Catalog, CatalogError, LanguageOverride};

fn catalogs() -> Vec<Catalog> {
    vec![
        parse_catalog("de".to_string(), r#"{"app_title": "Aufgaben", "only_de": "Nur Deutsch"}"#).unwrap(),
        parse_catalog("en".to_string(), r#"{"app_title": "Tasks"}"#).unwrap(),
        parse_catalog("fr_CA".to_string(), r#"{"app_title": "Tâches (CA)"}"#).unwrap(),
    ]
}

#[test]
fn set_language_overrides_system_languages() {
    let mut setting = LanguageOverride { lang: None };
    set_language(&mut setting, "en".to_string());
    assert_eq!(setting.lang.as_deref(), Some("en"));
    let system = vec!["de_DE.UTF-8".to_string()];
    assert_eq!(t(&setting, &catalogs(), &system, "app_title"), "Tasks");
}

#[test]
fn system_locale_falls_back_to_its_language_code() {
    let setting = LanguageOverride { lang: None };
    let system = vec!["en_GB.UTF-8".to_string(), "de".to_string()];
    assert_eq!(t(&setting, &catalogs(), &system, "app_title"), "Tasks");
}

#[test]
fn exact_locale_is_tried_before_its_code() {
    let setting = LanguageOverride { lang: Some("fr_CA".to_string()) };
    assert_eq!(t(&setting, &catalogs(), &Vec::new(), "app_title"), "Tâches (CA)");
}

#[test]
fn missing_text_falls_back_to_german_then_to_the_key() {
    let setting = LanguageOverride { lang: Some("en".to_string()) };
    assert_eq!(t(&setting, &catalogs(), &Vec::new(), "only_de"), "Nur Deutsch");
    assert_eq!(t(&setting, &catalogs(), &Vec::new(), "no_such_key"), "no_such_key");
}

#[test]
fn unknown_language_uses_default() {
    let setting = LanguageOverride { lang: Some("ja_JP".to_string()) };
    assert_eq!(t(&setting, &catalogs(), &Vec::new(), "app_title"), "Aufgaben");
}

#[test]
fn base_language_strips_region_and_encoding() {
    assert_eq!(base_language("de_DE.UTF-8"), "de");
    assert_eq!(base_language("sv.UTF-8"), "sv");
    assert_eq!(base_language("ja"), "ja");
    assert_eq!(base_language(""), "");
}

#[test]
fn catalog_entries_come_in_key_order() {
    let c = parse_catalog("en".to_string(), r#"{"b": "2", "a": "1"}"#).unwrap();
    assert_eq!(c.lang, "en");
    assert_eq!(c.entries, vec![("a".to_string(), "1".to_string()), ("b".to_string(), "2".to_string())]);
}

#[test]
fn catalog_that_is_not_a_string_table_is_refused() {
    assert_eq!(parse_catalog("en".to_string(), r#"{"a": 1}"#).err(), Some(CatalogError::NotAStringTable));
    assert_eq!(parse_catalog("en".to_string(), "not json").err(), Some(CatalogError::NotAStringTable));
}
