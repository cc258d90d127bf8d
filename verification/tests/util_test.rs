use i18n_status_core::index;
use i18n_status_core::json;
use i18n_status_core::util;

#[test]
fn test_flatten_simple() {
    let source = r#"{
        "login": {
            "title": "Login",
            "button": "Submit"
        }
    }"#;
    let chars: Vec<char> = source.chars().collect();
    let value = json::parse_json(&chars).expect("resource should parse");
    let result = util::flatten_table(&value, "");
    assert_eq!(util::flat_get(&result, "login.title").unwrap(), "Login");
    assert_eq!(util::flat_get(&result, "login.button").unwrap(), "Submit");
}

#[test]
fn test_extract_placeholders_i18next() {
    let result = util::extract_placeholders("Hello {{name}}, you have {{count}} items");
    assert_eq!(result, vec!["count", "name"]);
}

#[test]
fn test_extract_placeholders_icu() {
    let result = util::extract_placeholders("Hello {name}, you have {count} items");
    assert_eq!(result, vec!["count", "name"]);
}

#[test]
fn test_placeholder_equal() {
    assert!(util::placeholder_equal(
        &util::extract_placeholders("Hello {{name}}"),
        &util::extract_placeholders("こんにちは {{name}}")
    ));
    assert!(!util::placeholder_equal(
        &util::extract_placeholders("Hello {{name}}"),
        &util::extract_placeholders("Hello {{user}}")
    ));
}

#[test]
fn placeholders_are_sorted_and_deduplicated() {
    let result = util::extract_placeholders("{b} and {a} and {b}");
    assert_eq!(result, vec!["a", "b"]);
}

#[test]
fn placeholder_names_with_spaces_are_dropped() {
    let result = util::extract_placeholders("{not a name} {ok}");
    assert_eq!(result, vec!["ok"]);
}

#[test]
fn flatten_keeps_scalar_texts() {
    let source = r#"{"n": 3, "b": true, "z": null, "s": "x"}"#;
    let chars: Vec<char> = source.chars().collect();
    let value = json::parse_json(&chars).expect("resource should parse");
    let result = util::flatten_table(&value, "");
    assert_eq!(util::flat_get(&result, "n").unwrap(), "3");
    assert_eq!(util::flat_get(&result, "b").unwrap(), "true");
    assert_eq!(util::flat_get(&result, "z").unwrap(), "null");
    assert_eq!(util::flat_get(&result, "s").unwrap(), "x");
}

#[test]
fn insert_items_prefers_lower_priority() {
    let flat = vec![util::FlatEntry {
        key: "title".to_string(),
        value: "First".to_string(),
    }];
    let idx = index::insert_items(
        Vec::new(),
        &"en".to_string(),
        &"common".to_string(),
        &flat,
        &"a.json".to_string(),
        30,
    );
    // a higher priority value for the same key does not replace
    let flat2 = vec![util::FlatEntry {
        key: "title".to_string(),
        value: "Second".to_string(),
    }];
    let idx = index::insert_items(
        idx,
        &"en".to_string(),
        &"common".to_string(),
        &flat2,
        &"b.json".to_string(),
        50,
    );
    assert_eq!(idx.len(), 1);
    assert_eq!(idx[0].entries.len(), 1);
    assert_eq!(idx[0].entries[0].key, "common:title");
    assert_eq!(idx[0].entries[0].item.value.as_deref(), Some("First"));
    // a lower priority value replaces
    let flat3 = vec![util::FlatEntry {
        key: "title".to_string(),
        value: "Third".to_string(),
    }];
    let idx = index::insert_items(
        idx,
        &"en".to_string(),
        &"common".to_string(),
        &flat3,
        &"c.json".to_string(),
        10,
    );
    assert_eq!(idx[0].entries[0].item.value.as_deref(), Some("Third"));
}

#[test]
fn index_cache_round_trip() {
    let mut cache = index::IndexCache::new();
    assert!(cache.get(&"k".to_string()).is_none());
    let result = index::IndexResult {
        index: Vec::new(),
        files: Vec::new(),
        languages: vec!["en".to_string()],
        errors: Vec::new(),
        namespaces: Vec::new(),
    };
    cache.set(index::CacheRow {
        key: "k".to_string(),
        result,
    });
    let got = cache.get(&"k".to_string()).expect("cached result should be found");
    assert_eq!(got.languages, vec!["en".to_string()]);
}

#[test]
fn resource_values_decode_unicode_escapes() {
    // the escape é names the character e-acute
    let source = "{\"k\": \"caf\\u00e9\"}";
    let chars: Vec<char> = source.chars().collect();
    let value = json::parse_json(&chars).expect("resource should parse");
    let result = util::flatten_table(&value, "");
    assert_eq!(util::flat_get(&result, "k").unwrap(), "café");
}
