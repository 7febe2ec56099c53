use lang_lib::{ChangeKind, Lang, LangError, reload_event};

#[test]
fn first_load_emits_loaded_event() {
    let mut lang = Lang::new();
    lang.set_path("/tmp/reg");
    let event = lang.load("reg_load_a", Ok("hello = \"Hi\"".to_string())).expect("load");
    assert_eq!(event.locale, "reg_load_a");
    assert_eq!(event.kind, ChangeKind::Loaded);
}

#[test]
fn second_load_emits_reloaded_event() {
    let mut lang = Lang::new();
    lang.load("reg_reload_b", Ok("greeting = \"Hello\"".to_string())).expect("load 1");
    let event = lang.load("reg_reload_b", Ok("greeting = \"Hello\"".to_string())).expect("load 2");
    assert_eq!(event.locale, "reg_reload_b");
    assert_eq!(event.kind, ChangeKind::Reloaded);
}

#[test]
fn unload_emits_unloaded_event_when_locale_was_present() {
    let mut lang = Lang::new();
    lang.load("reg_unload_c", Ok("a = \"b\"".to_string())).expect("load");
    let event = lang.unload("reg_unload_c");
    let event = event.expect("an event");
    assert_eq!(event.locale, "reg_unload_c");
    assert_eq!(event.kind, ChangeKind::Unloaded);
}

#[test]
fn unload_emits_nothing_when_locale_not_present() {
    let mut lang = Lang::new();
    let event = lang.unload("reg_never_loaded");
    assert!(event.is_none(), "unload of absent locale should not emit, got {event:?}");
}

#[test]
fn failed_load_emits_nothing_and_keeps_store() {
    let mut lang = Lang::new();
    lang.load("keep", Ok("k = \"v\"".to_string())).expect("load");
    assert!(lang.load("keep", Ok("not = valid = toml".to_string())).is_err());
    assert_eq!(lang.translate("k", Some("keep"), None), "v");
    assert!(lang.load("keep", Err("permission denied".to_string())).is_err());
    assert_eq!(lang.translate("k", Some("keep"), None), "v");
}

#[test]
fn reload_event_publishes_load_event_on_success() {
    let mut lang = Lang::new();
    let outcome = lang.load("watch_a", Ok("greeting = \"v1\"".to_string()));
    let event = reload_event("watch_a", outcome).expect("event");
    assert_eq!(event.locale, "watch_a");
    assert_eq!(event.kind, ChangeKind::Loaded);
    let outcome = lang.load("watch_a", Ok("greeting = \"v2\"".to_string()));
    assert_eq!(reload_event("watch_a", outcome).expect("event").kind, ChangeKind::Reloaded);
}

#[test]
fn reload_event_reports_missing_file() {
    let mut lang = Lang::new();
    let outcome = lang.load("gone", Err("No such file or directory".to_string()));
    let event = reload_event("gone", outcome).expect("event");
    assert_eq!(event.locale, "gone");
    assert_eq!(event.kind, ChangeKind::FileMissing);
}

#[test]
fn reload_event_reports_parse_failure() {
    let mut lang = Lang::new();
    let outcome = lang.load("broken", Ok("= = =".to_string()));
    let event = reload_event("broken", outcome).expect("event");
    assert_eq!(event.locale, "broken");
    assert_eq!(event.kind, ChangeKind::ParseFailed);
}

#[test]
fn reload_event_is_silent_for_rejected_locales() {
    let invalid = Err(LangError::InvalidLocale { locale: "../x".to_string() });
    assert!(reload_event("../x", invalid).is_none());
    let not_loaded = Err(LangError::NotLoaded { locale: "x".to_string() });
    assert!(reload_event("x", not_loaded).is_none());
}
