# lang_lib

A localization store verified with Verus. Language files are TOML
documents with one string per key; the store keeps one table per locale and
answers lookups through a fixed order: the requested (or active) locale, the
fallback chain, the inline fallback, the key itself.

Layout:

- `src/` — the verified library: the store (`store.rs`), loading and locale
  names (`loader.rs`), `Accept-Language` resolution (`request.rs`), the
  file-watcher decisions (`watch.rs`), change events and errors, laws that
  span operations (`laws.rs`), and the trusted boundary to `rustc_hash` and
  `toml` (`table.rs`, and the parser call in `loader.rs`).
- `app/` — the process-wide store behind `arc_swap`, file reading, the
  `registry-io` event delivery, the `notify` watcher, and the `t!` macro.
- `tests/` — tests run against the compiled library.
