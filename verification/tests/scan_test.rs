use i18n_status_core::scan;

fn extract(source: &str, lang: &str, fallback_ns: &str) -> Vec<scan::ScanItem> {
    let params = scan::ExtractParams {
        source: source.to_string(),
        lang: lang.to_string(),
        fallback_namespace: fallback_ns.to_string(),
        range: None,
    };
    scan::extract(params).expect("extract should succeed")
}

fn extract_with_range(
    source: &str,
    lang: &str,
    fallback_ns: &str,
    start_line: u32,
    end_line: u32,
) -> Vec<scan::ScanItem> {
    let params = scan::ExtractParams {
        source: source.to_string(),
        lang: lang.to_string(),
        fallback_namespace: fallback_ns.to_string(),
        range: Some(scan::Range {
            start_line,
            end_line,
        }),
    };
    scan::extract(params).expect("extract should succeed")
}

#[test]
fn simple_t_call() {
    let source = r#"
const { t } = useTranslation("common");
t("hello");
"#;
    let items = extract(source, "tsx", "translation");
    assert_eq!(items.len(), 1);
    assert_eq!(items[0].key, "common:hello");
    assert_eq!(items[0].namespace, "common");
    assert_eq!(items[0].fallback, false);
}

#[test]
fn namespaced_key_with_colon() {
    let source = r#"
const { t } = useTranslation("common");
t("errors:not_found");
"#;
    let items = extract(source, "tsx", "translation");
    assert_eq!(items.len(), 1);
    assert_eq!(items[0].key, "errors:not_found");
    assert_eq!(items[0].namespace, "errors");
    assert_eq!(items[0].fallback, false);
}

#[test]
fn use_translation_scope_detection() {
    let source = r#"
function MyComponent() {
  const { t } = useTranslation("dashboard");
  return t("title");
}
"#;
    let items = extract(source, "tsx", "translation");
    assert_eq!(items.len(), 1);
    assert_eq!(items[0].key, "dashboard:title");
    assert_eq!(items[0].namespace, "dashboard");
}

#[test]
fn use_translations_next_intl_style() {
    let source = r#"
function MyComponent() {
  const t = useTranslations("settings");
  return t("theme");
}
"#;
    let items = extract(source, "tsx", "translation");
    assert_eq!(items.len(), 1);
    assert_eq!(items[0].key, "settings:theme");
    assert_eq!(items[0].namespace, "settings");
}

#[test]
fn member_call_i18n_t() {
    let source = r#"
i18n.t("greeting");
"#;
    let items = extract(source, "tsx", "translation");
    assert_eq!(items.len(), 1);
    assert_eq!(items[0].key, "translation:greeting");
    assert_eq!(items[0].raw, "greeting");
}

#[test]
fn template_literal_key() {
    let source = r#"
const { t } = useTranslation("common");
t(`welcome`);
"#;
    let items = extract(source, "tsx", "translation");
    assert_eq!(items.len(), 1);
    assert_eq!(items[0].key, "common:welcome");
}

#[test]
fn const_reference_resolution() {
    let source = r#"
const KEY = "my_key";
const { t } = useTranslation("common");
t(KEY);
"#;
    let items = extract(source, "tsx", "translation");
    assert_eq!(items.len(), 1);
    assert_eq!(items[0].key, "common:my_key");
    assert_eq!(items[0].raw, "my_key");
}

#[test]
fn fallback_namespace_applied_when_no_explicit_ns() {
    let source = r#"
t("orphan_key");
"#;
    let items = extract(source, "tsx", "fallback_ns");
    assert_eq!(items.len(), 1);
    assert_eq!(items[0].key, "fallback_ns:orphan_key");
    assert_eq!(items[0].namespace, "fallback_ns");
    assert_eq!(items[0].fallback, true);
}

#[test]
fn scan_test_range_filtering() {
    // Line numbers are 0-indexed in the output.
    // Line 0: (empty)
    // Line 1: t("first");
    // Line 2: t("second");
    // Line 3: t("third");
    let source = r#"
t("first");
t("second");
t("third");
"#;
    // Only extract line 2 (0-indexed)
    let items = extract_with_range(source, "tsx", "ns", 2, 2);
    assert_eq!(items.len(), 1);
    assert_eq!(items[0].raw, "second");
}

#[test]
fn translation_context_at_basic() {
    let source = r#"
function Page() {
  const { t } = useTranslation("home");
  return t("title");
}
"#;
    let params = scan::TranslationContextParams {
        source: source.to_string(),
        lang: "tsx".to_string(),
        row: 3,
        fallback_namespace: "translation".to_string(),
    };
    let result = scan::translation_context_at(params).expect("should succeed");
    assert_eq!(result.namespace, "home");
    assert_eq!(result.t_func, "t");
    assert_eq!(result.found_hook, true);
    assert_eq!(result.has_any_hook, true);
}

#[test]
fn translation_context_at_outside_scope() {
    let source = r#"
function Page() {
  const { t } = useTranslation("home");
  return t("title");
}
"#;
    // Row 0 is outside the function body scope
    let params = scan::TranslationContextParams {
        source: source.to_string(),
        lang: "tsx".to_string(),
        row: 0,
        fallback_namespace: "default_ns".to_string(),
    };
    let result = scan::translation_context_at(params).expect("should succeed");
    assert_eq!(result.namespace, "default_ns");
    assert_eq!(result.found_hook, false);
    assert_eq!(result.has_any_hook, true);
}

#[test]
fn const_reference_resolution_inside_function_scope() {
    let source = r#"
function Page() {
  const KEY = "inner.title";
  return t(KEY);
}
"#;
    let items = extract(source, "tsx", "common");
    assert_eq!(items.len(), 1);
    assert_eq!(items[0].key, "common:inner.title");
    assert_eq!(items[0].raw, "inner.title");
}

#[test]
fn const_shadowing_uses_nearest_scope() {
    let source = r#"
const KEY = "outer.title";
function Page() {
  const KEY = "inner.title";
  t(KEY);
}
t(KEY);
"#;
    let items = extract(source, "tsx", "common");
    assert_eq!(items.len(), 2);
    assert_eq!(items[0].key, "common:inner.title");
    assert_eq!(items[0].raw, "inner.title");
    assert_eq!(items[1].key, "common:outer.title");
    assert_eq!(items[1].raw, "outer.title");
}

#[test]
fn ts_as_const_literal() {
    let source = r#"
const { t } = useTranslation("common");
t("hello" as const);
"#;
    let items = extract(source, "tsx", "translation");
    assert_eq!(items.len(), 1);
    assert_eq!(items[0].key, "common:hello");
}

#[test]
fn ts_satisfies_literal() {
    let source = r#"
const { t } = useTranslation("common");
t("hello" satisfies string);
"#;
    let items = extract(source, "tsx", "translation");
    assert_eq!(items.len(), 1);
    assert_eq!(items[0].key, "common:hello");
}

#[test]
fn ts_non_null_assertion() {
    let source = r#"
const KEY = "hello";
const { t } = useTranslation("common");
t(KEY!);
"#;
    let items = extract(source, "tsx", "translation");
    assert_eq!(items.len(), 1);
    assert_eq!(items[0].key, "common:hello");
}

#[test]
fn const_with_as_const() {
    let source = r#"
const KEY = "hello" as const;
const { t } = useTranslation("common");
t(KEY);
"#;
    let items = extract(source, "tsx", "translation");
    assert_eq!(items.len(), 1);
    assert_eq!(items[0].key, "common:hello");
}

#[test]
fn template_literal_with_const_expr() {
    let source = r#"
const prefix = "errors";
const { t } = useTranslation("common");
t(`${prefix}.not_found`);
"#;
    let items = extract(source, "tsx", "translation");
    assert_eq!(items.len(), 1);
    assert_eq!(items[0].key, "common:errors.not_found");
}

#[test]
fn template_literal_mixed() {
    let source = r#"
const a = "errors";
const b = "validation";
const { t } = useTranslation("common");
t(`${a}.${b}.required`);
"#;
    let items = extract(source, "tsx", "translation");
    assert_eq!(items.len(), 1);
    assert_eq!(items[0].key, "common:errors.validation.required");
}

#[test]
fn template_literal_with_unresolvable_expr() {
    let source = r#"
const { t } = useTranslation("common");
t(`${dynamic}.key`);
"#;
    let items = extract(source, "tsx", "translation");
    assert_eq!(items.len(), 0);
}

#[test]
fn extract_resource_preserves_source_line_locations() {
    let source = r#"{
  "login": {
    "title": "Login",
    "desc": "Description"
  },
  "plain": "OK"
}"#;
    let params = i18n_status_core::resource_scan::ExtractResourceParams {
        source: source.to_string(),
        namespace: "common".to_string(),
        is_root: false,
        range: None,
    };

    let items = i18n_status_core::resource_scan::extract_resource(params)
        .expect("extract_resource should succeed");

    let mut lnums = std::collections::HashMap::new();
    for item in &items {
        lnums.insert(item.key.clone(), item.lnum);
    }

    assert_eq!(lnums.get("common:login.title"), Some(&2));
    assert_eq!(lnums.get("common:login.desc"), Some(&3));
    assert_eq!(lnums.get("common:plain"), Some(&5));
}

#[test]
fn extract_twice_gives_identical_output() {
    let source = r#"
const { t } = useTranslation("common");
t("hello");
i18n.t("greeting");
t(`${missing}.x`);
"#;
    let params = || scan::ExtractParams {
        source: source.to_string(),
        lang: "tsx".to_string(),
        fallback_namespace: "fb".to_string(),
        range: None,
    };
    let a = scan::extract(params()).expect("first run should succeed");
    let b = scan::extract(params()).expect("second run should succeed");
    assert_eq!(a.len(), b.len());
    for (x, y) in a.iter().zip(b.iter()) {
        assert_eq!(x.key, y.key);
        assert_eq!(x.raw, y.raw);
        assert_eq!(x.namespace, y.namespace);
        assert_eq!(x.lnum, y.lnum);
        assert_eq!(x.col, y.col);
        assert_eq!(x.end_col, y.end_col);
        assert_eq!(x.fallback, y.fallback);
    }
}

#[test]
fn parse_failure_is_reported() {
    let source = "const = = =;";
    let params = scan::ExtractParams {
        source: source.to_string(),
        lang: "typescript".to_string(),
        fallback_namespace: "ns".to_string(),
        range: None,
    };
    let r = scan::extract(params);
    assert!(r.is_err(), "broken source should fail to parse");
}

#[test]
fn positions_of_first_argument() {
    // Line 1 (0-indexed): t("hello"); with the argument starting at column 2.
    let source = "\nt(\"hello\");\n";
    let items = extract(source, "tsx", "ns");
    assert_eq!(items.len(), 1);
    assert_eq!(items[0].lnum, 1);
    assert_eq!(items[0].col, 2);
    assert_eq!(items[0].end_col, 9);
}

#[test]
fn extract_resource_root_mode_uses_first_segment() {
    let source = r#"{
  "common": {
    "title": "Login"
  },
  "other": {
    "x": { "y": "Z" }
  },
  "toplevel": "skipped"
}"#;
    let params = i18n_status_core::resource_scan::ExtractResourceParams {
        source: source.to_string(),
        namespace: "ignored".to_string(),
        is_root: true,
        range: None,
    };
    let items = i18n_status_core::resource_scan::extract_resource(params)
        .expect("extract_resource should succeed");
    let keys: Vec<&str> = items.iter().map(|i| i.key.as_str()).collect();
    assert!(keys.contains(&"common:title"));
    assert!(keys.contains(&"other:x.y"));
    // a top-level scalar has no key below its namespace and is skipped
    assert_eq!(keys.len(), 2);
}

#[test]
fn extract_resource_rejects_non_object() {
    let params = i18n_status_core::resource_scan::ExtractResourceParams {
        source: "[1, 2, 3]".to_string(),
        namespace: "ns".to_string(),
        is_root: false,
        range: None,
    };
    let r = i18n_status_core::resource_scan::extract_resource(params);
    assert!(r.is_err());
}

#[test]
fn empty_source_yields_no_records() {
    let items = extract("", "tsx", "ns");
    assert_eq!(items.len(), 0);
}

#[test]
fn destructured_alias_is_recognized() {
    let source = r#"
function Page() {
  const { t: tr } = useTranslation("ns");
  return tr("key");
}
"#;
    let items = extract(source, "tsx", "fb");
    assert_eq!(items.len(), 1);
    assert_eq!(items[0].key, "ns:key");
    assert_eq!(items[0].namespace, "ns");
}

#[test]
fn array_pattern_alias_is_recognized() {
    let source = r#"
function Page() {
  const [tt] = useTranslation("arr");
  return tt("key");
}
"#;
    let items = extract(source, "tsx", "fb");
    assert_eq!(items.len(), 1);
    assert_eq!(items[0].key, "arr:key");
}

#[test]
fn awaited_hook_establishes_scope() {
    let source = r#"
async function Page() {
  const t = await getTranslations("srv");
  return t("x");
}
"#;
    let items = extract(source, "tsx", "fb");
    assert_eq!(items.len(), 1);
    assert_eq!(items[0].key, "srv:x");
    assert_eq!(items[0].fallback, false);
}

#[test]
fn alias_outside_its_scope_is_not_a_translation_call() {
    let source = r#"
function A() {
  const { t: tr } = useTranslation("ns");
}
tr("free");
"#;
    let items = extract(source, "tsx", "fb");
    assert_eq!(items.len(), 0, "the alias binds only inside its scope");
}

#[test]
fn calls_inside_control_flow_are_found() {
    let source = r#"
function Page() {
  while (x) { t("w"); }
  try { t("a"); } catch (e) { t("b"); } finally { t("c"); }
  switch (y) { case 1: t("d"); }
  for (;;) { t("e"); }
}
"#;
    let items = extract(source, "tsx", "fb");
    let raws: Vec<&str> = items.iter().map(|i| i.raw.as_str()).collect();
    assert_eq!(raws, vec!["w", "a", "b", "c", "d", "e"]);
}

#[test]
fn call_inside_jsx_attribute_is_found() {
    let source = r#"const App = () => <div title={t("attr.key")} />;"#;
    let items = extract(source, "tsx", "fb");
    assert_eq!(items.len(), 1);
    assert_eq!(items[0].key, "fb:attr.key");
}

#[test]
fn hook_invocation_itself_is_never_a_usage() {
    let source = r#"
const { t } = useTranslation("only");
"#;
    let items = extract(source, "tsx", "fb");
    assert_eq!(items.len(), 0);
}

#[test]
fn string_concatenation_argument_resolves() {
    let source = r#"
const P = "errors";
t(P + "." + "deep");
"#;
    let items = extract(source, "tsx", "fb");
    assert_eq!(items.len(), 1);
    assert_eq!(items[0].raw, "errors.deep");
}
