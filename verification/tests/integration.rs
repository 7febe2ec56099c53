use lang_lib::{Lang, LangChangeEvent, LangError, Translator, resolve_accept_language, resolve_accept_language_owned};

/// Loads `locale` with `content` as the text of its language file.
fn load_text(lang: &mut Lang, locale: &str, content: &str) -> Result<LangChangeEvent, LangError> {
    lang.load(locale, Ok(content.to_string()))
}

/// A store with each `(locale, content)` loaded.
fn store_with(files: &[(&str, &str)]) -> Lang {
    let mut lang = Lang::new();
    for (locale, content) in files {
        load_text(&mut lang, locale, content).unwrap();
    }
    lang
}

// ---------------------------------------------------------------------------
// set_path and load
// ---------------------------------------------------------------------------

#[test]
fn test_load_valid_file() {
    let mut lang = Lang::new();
    lang.set_path("/tmp/some/locales");
    load_text(&mut lang, "en", "greeting = \"Hello\"\nfarewell = \"Goodbye\"").unwrap();
    assert!(lang.is_loaded("en"));
}

#[test]
fn test_load_missing_file_returns_error() {
    let mut lang = Lang::new();
    lang.set_path("/nonexistent/path/that/does/not/exist");
    let result = lang.load("xx", Err("No such file or directory (os error 2)".to_string()));
    assert!(result.is_err());
    let msg = result.unwrap_err().to_string();
    assert!(msg.contains("xx"));
}

#[test]
fn test_load_invalid_toml_returns_parse_error() {
    let mut lang = Lang::new();
    let result = load_text(&mut lang, "bad", "this is not = valid = toml !!!");
    assert!(result.is_err());
}

#[test]
fn test_load_from_custom_path() {
    let mut lang = Lang::new();
    load_text(&mut lang, "fr", "hello = \"Bonjour\"").unwrap();
    assert!(lang.is_loaded("fr"));
}

#[test]
fn test_load_rejects_path_traversal_locale() {
    let mut lang = Lang::new();
    let result = load_text(&mut lang, "../en", "hello = \"Hello\"");
    assert!(result.is_err());
    assert!(result.unwrap_err().to_string().contains("invalid"));
}

// ---------------------------------------------------------------------------
// Basic translation
// ---------------------------------------------------------------------------

#[test]
fn test_translate_active_locale() {
    let mut lang = store_with(&[("en", "key = \"value\"")]);
    lang.set_locale("en");
    assert_eq!(lang.translate("key", None, None), "value");
}

#[test]
fn test_translate_specific_locale() {
    let lang = store_with(&[("en_specific", "msg = \"Hello\""), ("es_specific", "msg = \"Hola\"")]);
    assert_eq!(lang.translate("msg", Some("es_specific"), None), "Hola");
    assert_eq!(lang.translate("msg", Some("en_specific"), None), "Hello");
}

#[test]
fn test_resolve_accept_language_prefers_supported_primary_match() {
    assert_eq!(resolve_accept_language("es-ES,es;q=0.9,en;q=0.8", &["en", "es"], "en"), "es");
}

#[test]
fn test_resolve_accept_language_honors_q_values() {
    assert_eq!(resolve_accept_language("es;q=0.4,en;q=0.9", &["en", "es"], "en"), "en");
}

#[test]
fn test_resolve_accept_language_returns_default_when_no_match_exists() {
    assert_eq!(resolve_accept_language("fr-FR,fr;q=0.9", &["en", "es"], "en"), "en");
}

#[test]
fn test_resolve_accept_language_prefers_exact_match_over_primary_match() {
    assert_eq!(resolve_accept_language("en-GB,en;q=0.8", &["en", "en-GB"], "en"), "en-GB");
}

#[test]
fn test_resolve_accept_language_owned_accepts_runtime_locale_list() {
    let supported = vec!["en".to_string(), "es".to_string()];
    assert_eq!(resolve_accept_language_owned("es-MX,es;q=0.9,en;q=0.7", &supported, "en"), "es");
}

#[test]
fn test_resolve_accept_language_owned_returns_owned_default() {
    let supported = vec!["en".to_string(), "es".to_string()];
    assert_eq!(
        resolve_accept_language_owned("fr-CA,fr;q=0.9", &supported, "en"),
        "en".to_string()
    );
}

#[test]
fn test_translator_uses_explicit_locale_without_touching_active_locale() {
    let mut lang = store_with(&[("en", "title = \"Hello\""), ("es", "title = \"Hola\"")]);
    lang.set_locale("en");

    let translator = Lang::translator("es");

    assert_eq!(translator.locale(), "es");
    assert_eq!(translator.translate(&lang, "title"), "Hola");
    assert_eq!(lang.locale(), "en");
}

#[test]
fn test_translator_inline_fallback_is_used() {
    let lang = store_with(&[("en", "title = \"Hello\"")]);
    let translator = Translator::new("en");
    assert_eq!(
        translator.translate_with_fallback(&lang, "missing", "Default title"),
        "Default title"
    );
}

#[test]
fn test_missing_key_returns_key_itself() {
    let mut lang = store_with(&[("en", "existing = \"exists\"")]);
    lang.set_locale("en");
    lang.set_fallbacks(vec![]);
    assert_eq!(lang.translate("totally_missing", None, None), "totally_missing");
}

// ---------------------------------------------------------------------------
// Fallback chain
// ---------------------------------------------------------------------------

#[test]
fn test_fallback_chain_used_when_key_missing() {
    let mut lang = store_with(&[
        ("en_fb", "only_in_en = \"English only\""),
        ("es_fb", "other = \"other\""),
    ]);
    lang.set_locale("es_fb");
    lang.set_fallbacks(vec!["en_fb".to_string()]);
    assert_eq!(lang.translate("only_in_en", None, None), "English only");
}

#[test]
fn test_inline_fallback_used_last() {
    let mut lang = store_with(&[("en", "real_key = \"real\"")]);
    lang.set_locale("en");
    lang.set_fallbacks(vec![]);
    assert_eq!(lang.translate("ghost_key", None, Some("fallback text")), "fallback text");
}

#[test]
fn test_fallback_does_not_override_found_translation() {
    let mut lang = store_with(&[
        ("en_nofb", "shared = \"English\""),
        ("es_nofb", "shared = \"Español\""),
    ]);
    lang.set_locale("es_nofb");
    lang.set_fallbacks(vec!["en_nofb".to_string()]);
    assert_eq!(lang.translate("shared", None, None), "Español");
}

// ---------------------------------------------------------------------------
// The four lookup forms
// ---------------------------------------------------------------------------

#[test]
fn test_t_macro_active_locale() {
    let mut lang = store_with(&[("en", "hi = \"Hi there\"")]);
    lang.set_locale("en");
    assert_eq!(lang.translate("hi", None, None), "Hi there");
}

#[test]
fn test_t_macro_explicit_locale() {
    let lang = store_with(&[("de", "hi = \"Hallo\"")]);
    assert_eq!(lang.translate("hi", Some("de"), None), "Hallo");
}

#[test]
fn test_t_macro_inline_fallback() {
    let mut lang = store_with(&[("en", "other = \"something\"")]);
    lang.set_locale("en");
    assert_eq!(lang.translate("no_such_key", None, Some("default")), "default");
}

#[test]
fn test_t_macro_locale_and_fallback() {
    let lang = store_with(&[("en", "other = \"something\"")]);
    assert_eq!(lang.translate("missing", Some("en"), Some("nope")), "nope");
}

// ---------------------------------------------------------------------------
// Edge cases
// ---------------------------------------------------------------------------

#[test]
fn test_non_string_toml_values_are_skipped() {
    let mut lang = store_with(&[("en", "name = \"Alice\"\ncount = 42\nflag = true")]);
    lang.set_locale("en");
    assert_eq!(lang.translate("name", None, None), "Alice");
    assert_eq!(lang.translate("count", None, None), "count");
    assert_eq!(lang.translate("flag", None, None), "flag");
}

#[test]
fn test_empty_lang_file_loads_without_error() {
    let mut lang = Lang::new();
    assert!(load_text(&mut lang, "empty", "").is_ok());
}

#[test]
fn test_unload_removes_locale() {
    let mut lang = store_with(&[("en", "x = \"y\"")]);
    assert!(lang.is_loaded("en"));
    let _ = lang.unload("en");
    assert!(!lang.is_loaded("en"));
}

#[test]
fn test_reload_replaces_translations() {
    let mut lang = store_with(&[("en_reload", "val = \"first\"")]);
    assert_eq!(lang.translate("val", Some("en_reload"), None), "first");
    load_text(&mut lang, "en_reload", "val = \"second\"").unwrap();
    assert_eq!(lang.translate("val", Some("en_reload"), None), "second");
}

#[test]
fn test_loaded_locales_are_sorted() {
    let lang = store_with(&[("z_sorted", "value = \"z\""), ("a_sorted", "value = \"a\"")]);
    assert_eq!(lang.loaded(), vec!["a_sorted".to_string(), "z_sorted".to_string()]);
}

#[test]
fn test_duplicate_fallbacks_do_not_change_resolution() {
    let mut lang = store_with(&[("en_dup", "hello = \"Hello\""), ("es_dup", "other = \"Other\"")]);
    lang.set_locale("es_dup");
    lang.set_fallbacks(vec!["en_dup".to_string(), "en_dup".to_string(), "en_dup".to_string()]);
    assert_eq!(lang.translate("hello", None, None), "Hello");
}
