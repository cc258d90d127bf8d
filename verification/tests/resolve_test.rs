use i18n_status_core::resolve;

fn make_resource(value: &str) -> resolve::ResourceItemInput {
    resolve::ResourceItemInput {
        value: Some(value.to_string()),
        file: None,
        priority: 0,
    }
}

fn make_item(key: &str, ns: &str) -> resolve::ScanItemInput {
    let raw = key.split_once(':').map(|(_, k)| k).unwrap_or(key);
    resolve::ScanItemInput {
        key: key.to_string(),
        raw: raw.to_string(),
        namespace: ns.to_string(),
        fallback: false,
    }
}

fn lang_rows(lang: &str, rows: Vec<(&str, resolve::ResourceItemInput)>) -> resolve::LangRows {
    resolve::LangRows {
        lang: lang.to_string(),
        rows: rows
            .into_iter()
            .map(|(k, item)| resolve::KeyRow { key: k.to_string(), item })
            .collect(),
    }
}

fn compute(
    items: Vec<resolve::ScanItemInput>,
    index: Vec<resolve::LangRows>,
    languages: Vec<&str>,
) -> Vec<resolve::ResolvedItem> {
    let params = resolve::ComputeParams {
        items,
        primary_lang: "en".to_string(),
        languages: languages.into_iter().map(|s| s.to_string()).collect(),
        index,
        current_lang: None,
    };
    resolve::compute(&params)
}

#[test]
fn status_synced_when_all_langs_same_value() {
    let index = vec![
        lang_rows("en", vec![("common:hello", make_resource("Hello"))]),
        lang_rows("ja", vec![("common:hello", make_resource("Hello"))]),
    ];

    let items = vec![make_item("common:hello", "common")];
    let resolved = compute(items, index, vec!["en", "ja"]);

    assert_eq!(resolved.len(), 1);
    assert_eq!(resolved[0].status, "=");
}

#[test]
fn status_localized_when_different_value() {
    let index = vec![
        lang_rows("en", vec![("common:hello", make_resource("Hello"))]),
        lang_rows("ja", vec![("common:hello", make_resource("こんにちは"))]),
    ];

    let items = vec![make_item("common:hello", "common")];
    let resolved = compute(items, index, vec!["en", "ja"]);

    assert_eq!(resolved[0].status, "\u{2260}"); // ≠
}

#[test]
fn status_fallback_when_lang_missing() {
    let index = vec![
        lang_rows("en", vec![("common:hello", make_resource("Hello"))]),
        // ja has no entry for this key
        lang_rows("ja", vec![]),
    ];

    let items = vec![make_item("common:hello", "common")];
    let resolved = compute(items, index, vec!["en", "ja"]);

    assert_eq!(resolved[0].status, "?");
}

#[test]
fn status_missing_primary_when_en_missing() {
    let index = vec![
        // en has no entry
        lang_rows("en", vec![]),
        lang_rows("ja", vec![("common:hello", make_resource("こんにちは"))]),
    ];

    let items = vec![make_item("common:hello", "common")];
    let resolved = compute(items, index, vec!["en", "ja"]);

    assert_eq!(resolved[0].status, "\u{00d7}"); // ×
}

#[test]
fn status_placeholder_mismatch() {
    let index = vec![
        lang_rows("en", vec![("common:greeting", make_resource("Hello {{name}}"))]),
        // Missing the {{name}} placeholder
        lang_rows("ja", vec![("common:greeting", make_resource("こんにちは"))]),
    ];

    let items = vec![make_item("common:greeting", "common")];
    let resolved = compute(items, index, vec!["en", "ja"]);

    assert_eq!(resolved[0].status, "!");
}

#[test]
fn status_placeholder_match_is_localized() {
    let index = vec![
        lang_rows("en", vec![("common:greeting", make_resource("Hello {{name}}"))]),
        lang_rows("ja", vec![("common:greeting", make_resource("こんにちは {{name}}"))]),
    ];

    let items = vec![make_item("common:greeting", "common")];
    let resolved = compute(items, index, vec!["en", "ja"]);

    // Placeholders match and values differ, so it should be localized
    assert_eq!(resolved[0].status, "\u{2260}"); // ≠
}

#[test]
fn value_equal_to_key_counts_as_missing() {
    let index = vec![
        lang_rows("en", vec![("common:hello", make_resource("hello"))]),
        lang_rows("ja", vec![("common:hello", make_resource("x"))]),
    ];
    // the primary value equals the raw key text, so the key is missing
    let items = vec![make_item("common:hello", "common")];
    let resolved = compute(items, index, vec!["en", "ja"]);
    assert_eq!(resolved[0].status, "\u{00d7}");
    assert_eq!(resolved[0].hover.reason.as_deref(), Some("missing_primary"));
}

#[test]
fn hover_lists_languages_in_order() {
    let index = vec![
        lang_rows("en", vec![("common:a", make_resource("A"))]),
        lang_rows("ja", vec![("common:a", make_resource("B"))]),
        lang_rows("fr", vec![("common:a", make_resource("C"))]),
    ];
    let items = vec![make_item("common:a", "common")];
    let resolved = compute(items, index, vec!["en", "ja", "fr"]);
    let order: Vec<&str> = resolved[0]
        .hover
        .lang_order
        .iter()
        .map(|s| s.as_str())
        .collect();
    assert_eq!(order, vec!["en", "ja", "fr"]);
    let localized = resolved[0].hover.localized_langs.as_ref().unwrap();
    assert_eq!(localized.len(), 2);
    assert_eq!(localized[0], "ja");
    assert_eq!(localized[1], "fr");
}
