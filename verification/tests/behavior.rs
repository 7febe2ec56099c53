use lang_lib::{
    ChangeKind, Lang, LangError, is_toml_file, parse_toml, resolve_accept_language,
    resolve_accept_language_owned, table_from_document, validate_locale,
};

fn store_with(files: &[(&str, &str)]) -> Lang {
    let mut lang = Lang::new();
    for (locale, content) in files {
        lang.load(locale, Ok(content.to_string())).unwrap();
    }
    lang
}

// ---------------------------------------------------------------------------
// Configuration
// ---------------------------------------------------------------------------

#[test]
fn new_store_has_default_configuration() {
    let lang = Lang::new();
    assert_eq!(lang.path(), "locales");
    assert_eq!(lang.locale(), "en");
    assert!(lang.loaded().is_empty());
}

#[test]
fn set_path_and_locale_are_read_back() {
    let mut lang = Lang::new();
    lang.set_path("assets/lang");
    lang.set_locale("fr");
    assert_eq!(lang.path(), "assets/lang");
    assert_eq!(lang.locale(), "fr");
}

#[test]
fn default_fallback_chain_is_english() {
    let mut lang = store_with(&[("en", "only_en = \"English\""), ("es", "x = \"y\"")]);
    lang.set_locale("es");
    assert_eq!(lang.translate("only_en", None, None), "English");
}

#[test]
fn unload_keeps_active_locale_and_fallbacks() {
    let mut lang = store_with(&[("en", "k = \"en\""), ("es", "k = \"es\"")]);
    lang.set_locale("es");
    let _ = lang.unload("es");
    assert_eq!(lang.locale(), "es");
    // The unloaded active locale is skipped; the fallback chain still answers.
    assert_eq!(lang.translate("k", None, None), "en");
}

#[test]
fn fallback_equal_to_requested_locale_is_harmless() {
    let mut lang = store_with(&[("es", "a = \"A\"")]);
    lang.set_fallbacks(vec!["es".to_string(), "es".to_string()]);
    assert_eq!(lang.translate("b", Some("es"), None), "b");
    assert_eq!(lang.translate("a", Some("es"), None), "A");
}

#[test]
fn fallbacks_are_consulted_in_order() {
    let mut lang = store_with(&[("a", "k = \"from a\""), ("b", "k = \"from b\""), ("c", "z = \"1\"")]);
    lang.set_fallbacks(vec!["b".to_string(), "a".to_string()]);
    assert_eq!(lang.translate("k", Some("c"), None), "from b");
    lang.set_fallbacks(vec!["a".to_string(), "b".to_string()]);
    assert_eq!(lang.translate("k", Some("c"), None), "from a");
}

#[test]
fn unknown_requested_locale_uses_fallbacks() {
    let lang = store_with(&[("en", "k = \"v\"")]);
    assert_eq!(lang.translate("k", Some("xx"), None), "v");
}

#[test]
fn loaded_lists_every_locale_in_order() {
    let lang = store_with(&[("pt_BR", ""), ("en-US", ""), ("en", ""), ("de", "")]);
    assert_eq!(
        lang.loaded(),
        vec!["de".to_string(), "en".to_string(), "en-US".to_string(), "pt_BR".to_string()]
    );
}

#[test]
fn clone_is_an_independent_copy() {
    let mut lang = store_with(&[("en", "k = \"v\"")]);
    let snapshot = lang.clone();
    let _ = lang.unload("en");
    assert!(snapshot.is_loaded("en"));
    assert!(!lang.is_loaded("en"));
}

// ---------------------------------------------------------------------------
// Locale names
// ---------------------------------------------------------------------------

#[test]
fn plain_locale_names_are_accepted() {
    for name in ["en", "en-US", "pt_BR", "...", ".en", "zh-Hant-TW", "en:US", "x-:y"] {
        assert!(validate_locale(name).is_ok(), "{name} should be accepted");
    }
}

#[test]
fn path_like_locale_names_are_rejected() {
    for name in [
        "", ".", "..", "../en", "./en", "/en", "a/b", "en/..", "/", "en/", "en/.", "en//",
        "a\\b", "..\\en", "C:x", "C:\\en", "z:", "D:",
    ] {
        match validate_locale(name) {
            Err(LangError::InvalidLocale { locale }) => assert_eq!(locale, name),
            other => panic!("{name} should be rejected, got {other:?}"),
        }
    }
}

#[test]
fn invalid_locale_is_rejected_before_the_file_is_considered() {
    let mut lang = Lang::new();
    match lang.load("a/b", Err("unreadable".to_string())) {
        Err(LangError::InvalidLocale { locale }) => assert_eq!(locale, "a/b"),
        other => panic!("unexpected {other:?}"),
    }
    assert!(lang.loaded().is_empty());
}

// ---------------------------------------------------------------------------
// Parsing
// ---------------------------------------------------------------------------

#[test]
fn parse_keeps_only_top_level_strings() {
    let raw = "a = \"1\"\nb = 2\nc = [\"x\"]\n[section]\nd = \"4\"\n";
    let mut lang = Lang::new();
    lang.load("en", Ok(raw.to_string())).unwrap();
    assert_eq!(lang.translate("a", Some("en"), None), "1");
    assert_eq!(lang.translate("b", Some("en"), None), "b");
    assert_eq!(lang.translate("c", Some("en"), None), "c");
    assert_eq!(lang.translate("d", Some("en"), None), "d");
    assert_eq!(lang.translate("section", Some("en"), None), "section");
}

#[test]
fn document_entries_build_the_table_in_order() {
    let document = Ok(vec![
        ("a".to_string(), Some("1".to_string())),
        ("b".to_string(), None),
        ("a".to_string(), Some("2".to_string())),
        ("c".to_string(), Some(String::new())),
    ]);
    let table = table_from_document("en", document).unwrap();
    assert_eq!(table.get("a").map(String::as_str), Some("2"));
    assert_eq!(table.get("b"), None);
    assert_eq!(table.get("c").map(String::as_str), Some(""));
    assert_eq!(table.len(), 2);
}

#[test]
fn document_error_becomes_parse_error() {
    match table_from_document("de", Err("expected `=`".to_string())) {
        Err(LangError::Parse { locale, cause }) => {
            assert_eq!(locale, "de");
            assert_eq!(cause, "expected `=`");
        }
        other => panic!("unexpected {other:?}"),
    }
}

#[test]
fn load_document_installs_entries_and_reports_kind() {
    let mut lang = Lang::new();
    let first = lang.load_document("fr", Ok(vec![("k".to_string(), Some("v".to_string()))])).unwrap();
    assert_eq!(first.kind, ChangeKind::Loaded);
    assert_eq!(lang.translate("k", Some("fr"), None), "v");
    let second = lang.load_document("fr", Ok(vec![("k".to_string(), None)])).unwrap();
    assert_eq!(second.kind, ChangeKind::Reloaded);
    assert_eq!(lang.translate("k", Some("fr"), Some("none")), "none");
    assert!(lang.load_document("a/b", Ok(vec![])).is_err());
    assert!(lang.load_document("fr", Err("bad".to_string())).is_err());
    assert_eq!(lang.loaded(), vec!["fr".to_string()]);
}

#[test]
fn parse_error_names_locale_and_cause() {
    match parse_toml("bad", "x = ") {
        Err(LangError::Parse { locale, cause }) => {
            assert_eq!(locale, "bad");
            assert!(!cause.is_empty());
        }
        Err(other) => panic!("unexpected {other:?}"),
        Ok(_) => panic!("invalid TOML accepted"),
    }
}

#[test]
fn io_error_carries_cause() {
    let mut lang = Lang::new();
    match lang.load("en", Err("permission denied".to_string())) {
        Err(LangError::Io { locale, cause }) => {
            assert_eq!(locale, "en");
            assert_eq!(cause, "permission denied");
        }
        other => panic!("unexpected {other:?}"),
    }
}

// ---------------------------------------------------------------------------
// Error messages
// ---------------------------------------------------------------------------

#[test]
fn error_messages_are_exact() {
    let io = LangError::Io { locale: "en".to_string(), cause: "gone".to_string() };
    assert_eq!(io.to_string(), "failed to read language file for 'en': gone");
    let parse = LangError::Parse { locale: "es".to_string(), cause: "bad".to_string() };
    assert_eq!(parse.to_string(), "failed to parse language file for 'es': bad");
    let not_loaded = LangError::NotLoaded { locale: "de".to_string() };
    assert_eq!(not_loaded.to_string(), "locale 'de' has not been loaded");
    let invalid = LangError::InvalidLocale { locale: "../x".to_string() };
    assert_eq!(
        invalid.to_string(),
        "locale '../x' is invalid; expected a single locale name without path separators"
    );
}

// ---------------------------------------------------------------------------
// Accept-Language
// ---------------------------------------------------------------------------

#[test]
fn quality_one_and_decimals() {
    assert_eq!(resolve_accept_language("de;q=1.000,en;q=0.999", &["en", "de"], "x"), "de");
    assert_eq!(resolve_accept_language("de;q=0.5,en;q=0.50", &["en", "de"], "x"), "de");
    assert_eq!(resolve_accept_language("de;q=0.1234,en;q=0.124", &["en", "de"], "x"), "en");
}

#[test]
fn malformed_quality_drops_the_entry() {
    assert_eq!(resolve_accept_language("de;q=1.5,en;q=0.1", &["en", "de"], "x"), "en");
    assert_eq!(resolve_accept_language("de;q=abc", &["de"], "x"), "x");
    assert_eq!(resolve_accept_language("de;q=0.", &["de"], "x"), "x");
    assert_eq!(resolve_accept_language("de;q=2", &["de"], "x"), "x");
}

#[test]
fn quality_zero_still_matches() {
    assert_eq!(resolve_accept_language("de;q=0", &["de"], "x"), "de");
}

#[test]
fn only_the_first_q_parameter_counts() {
    assert_eq!(resolve_accept_language("de;level=1;q=0.2;q=0.9,en;q=0.5", &["en", "de"], "x"), "en");
}

#[test]
fn matching_ignores_ascii_case_and_separator_style() {
    assert_eq!(resolve_accept_language("PT-br", &["en", "pt_BR"], "en"), "pt_BR");
    assert_eq!(resolve_accept_language("pt_PT", &["en", "PT"], "en"), "PT");
}

#[test]
fn ties_go_to_the_earlier_entry_then_earlier_locale() {
    assert_eq!(resolve_accept_language("es,en", &["en", "es"], "x"), "es");
    assert_eq!(resolve_accept_language("en", &["en-GB", "en-US"], "x"), "en-GB");
}

#[test]
fn blank_entries_are_ignored() {
    assert_eq!(resolve_accept_language(" , ;q=1, es ", &["es"], "en"), "es");
    assert_eq!(resolve_accept_language("", &["es"], "en"), "en");
}

#[test]
fn owned_variant_agrees_with_borrowed_variant() {
    let header = "fr-CA;q=0.7,de;q=0.8,en-US";
    let supported = ["de", "en", "fr"];
    let owned: Vec<String> = supported.iter().map(|s| s.to_string()).collect();
    assert_eq!(
        resolve_accept_language_owned(header, &owned, "fr"),
        resolve_accept_language(header, &supported, "fr")
    );
    assert_eq!(resolve_accept_language(header, &supported, "fr"), "en");
}

// ---------------------------------------------------------------------------
// Watched files
// ---------------------------------------------------------------------------

#[test]
fn toml_file_names_are_recognised() {
    assert!(is_toml_file("en.toml"));
    assert!(is_toml_file("pt_BR.toml"));
    assert!(is_toml_file("a.b.toml"));
    assert!(!is_toml_file(".toml"));
    assert!(!is_toml_file("en.TOML"));
    assert!(!is_toml_file("en.toml.bak"));
    assert!(!is_toml_file("toml"));
}

// ---------------------------------------------------------------------------
// Laws, on concrete values
// ---------------------------------------------------------------------------

#[test]
fn loaded_value_is_returned_whatever_the_fallbacks() {
    let mut lang = store_with(&[("en", "k = \"en\"")]);
    lang.set_fallbacks(vec!["en".to_string()]);
    lang.load("es", Ok("k = \"es\"".to_string())).unwrap();
    assert_eq!(lang.translate("k", Some("es"), Some("inline")), "es");
}

#[test]
fn unload_after_first_load_restores_loaded_list() {
    let mut lang = store_with(&[("en", "k = \"v\"")]);
    let before = lang.loaded();
    lang.load("fr", Ok("k = \"w\"".to_string())).unwrap();
    let _ = lang.unload("fr");
    assert_eq!(lang.loaded(), before);
}

#[test]
fn translation_is_never_empty_for_non_empty_inputs() {
    let mut lang = store_with(&[("en", "k = \"v\"")]);
    lang.set_fallbacks(vec![]);
    assert!(!lang.translate("missing", Some("xx"), None).is_empty());
    assert!(!lang.translate("missing", None, Some("f")).is_empty());
}

#[test]
fn empty_values_are_passed_over() {
    let mut lang = store_with(&[("en", "k = \"\"\nj = \"J\""), ("es", "k = \"K\"\nj = \"\"")]);
    assert_eq!(lang.translate("k", Some("en"), Some("inline")), "inline");
    assert_eq!(lang.translate("k", Some("en"), Some("")), "k");
    assert_eq!(lang.translate("missing", Some("en"), Some("")), "missing");
    lang.set_fallbacks(vec!["es".to_string(), "en".to_string()]);
    assert_eq!(lang.translate("k", Some("en"), None), "K");
    assert_eq!(lang.translate("j", Some("es"), None), "J");
}

#[test]
fn loaded_state_follows_the_latest_load_and_unload() {
    let mut lang = Lang::new();
    assert!(!lang.is_loaded("en"));
    lang.load("en", Ok("a = \"1\"".to_string())).unwrap();
    let _ = lang.unload("en");
    assert!(!lang.is_loaded("en"));
    assert!(lang.load("en", Ok("= =".to_string())).is_err());
    assert!(!lang.is_loaded("en"));
    lang.load("en", Ok("a = \"2\"".to_string())).unwrap();
    lang.set_path("p");
    lang.set_locale("fr");
    assert!(lang.is_loaded("en"));
    assert_eq!(lang.path(), "p");
    assert_eq!(lang.locale(), "fr");
    let t = Lang::translator("en");
    assert_eq!(t.translate(&lang, "a"), "2");
    assert_eq!(lang.locale(), "fr");
}
