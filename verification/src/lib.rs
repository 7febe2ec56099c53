//! A localization store: TOML language files loaded per locale, lookups that
//! walk a configurable fallback chain, and resolution of HTTP
//! `Accept-Language` headers against the supported locales.
//!
//! Lookup order is deterministic: the requested locale (or the active one),
//! then each fallback locale in order, then the inline fallback, then the key
//! itself. Non-string TOML values are ignored.

pub mod change;
pub mod error;
pub mod laws;
pub mod loader;
pub mod order;
pub mod request;
pub mod store;
pub mod table;
pub mod text;
pub mod watch;

pub use change::{ChangeKind, LangChangeEvent};
pub use error::{LangError, LangErrorView};
pub use laws::{
    law_fallback_equal_to_target_is_ignored, law_loaded_value_is_returned, law_reload_replaces,
    law_repeated_fallbacks_are_ignored, law_translation_is_never_empty, law_unload_undoes_first_load,
    law_unloaded_locale_is_skipped, law_path_is_latest_set, law_locale_is_latest_set,
    law_loaded_iff_loaded_since_unload, law_inline_fallback_answers_a_miss,
    law_fallbacks_are_latest_set,
};
pub use loader::{
    law_last_string_entry_is_kept, law_table_keys_are_string_entries, parse_toml,
    table_from_document, validate_locale,
};
pub use request::{
    law_q_one_is_full_quality, law_resolve_outcome, resolve_accept_language, resolve_accept_language_owned,
};
pub use store::{Lang, LangOp, LangView, Translator};
pub use table::TranslationTable;
pub use watch::{
    DEBOUNCE_MICROS, PendingReloads, is_toml_file, law_locale_file_is_stem_and_extension,
    reload_event,
};
