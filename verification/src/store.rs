//! The translation store: configuration, loaded locales and key lookup.
use std::sync::Arc;

use rustc_hash::FxHashMap;
use vstd::prelude::*;

use crate::change::{ChangeKind, LangChangeEvent};
use crate::error::{err_view, LangError, LangErrorView};
use crate::loader::{
    document_view, is_locale_name, read_toml_document, table_from_document, table_from_entries,
    toml_document, validate_locale,
};
use crate::order::{sort_names, strictly_sorted};
use crate::table::{
    locale_contents, locales_clone, locales_contains, locales_get, locales_insert, locales_keys, locales_remove,
    new_locales, table_contents, table_get,
};
use crate::text::{chars_equal, chars_of, string_views};

verus! {

broadcast use vstd::string::group_string_axioms;

/// The state of a [`Lang`] store, its strings taken by their characters.
pub struct LangView {
    /// Directory that language files are read from.
    pub path: Seq<char>,
    /// Locale used when a lookup names none.
    pub active: Seq<char>,
    /// Locales consulted, in order, when the requested locale lacks a key.
    pub fallbacks: Seq<Seq<char>>,
    /// Each loaded locale with its translations.
    pub locales: Map<Seq<char>, Map<Seq<char>, Seq<char>>>,
}

/// The translation stored for `key` under `locale`, if that locale is loaded
/// and holds a non-empty value for the key; an empty value counts as missing.
pub open spec fn table_lookup(
    locales: Map<Seq<char>, Map<Seq<char>, Seq<char>>>,
    locale: Seq<char>,
    key: Seq<char>,
) -> Option<Seq<char>> {
    if locales.contains_key(locale) && locales[locale].contains_key(key)
        && locales[locale][key].len() > 0 {
        Some(locales[locale][key])
    } else {
        None
    }
}

/// The translation of `key` in the first locale of `chain` that holds it.
pub open spec fn first_hit(
    locales: Map<Seq<char>, Map<Seq<char>, Seq<char>>>,
    chain: Seq<Seq<char>>,
    key: Seq<char>,
) -> Option<Seq<char>>
    decreases chain.len(),
{
    if chain.len() == 0 {
        None
    } else if table_lookup(locales, chain[0], key) is Some {
        table_lookup(locales, chain[0], key)
    } else {
        first_hit(locales, chain.drop_first(), key)
    }
}

/// The locale a lookup starts from: the requested one, else the active one.
pub open spec fn target_locale(v: LangView, locale: Option<Seq<char>>) -> Seq<char> {
    match locale {
        Some(l) => l,
        None => v.active,
    }
}

/// The locales a lookup consults, in order: the target, then the fallbacks.
pub open spec fn lookup_chain(v: LangView, locale: Option<Seq<char>>) -> Seq<Seq<char>> {
    seq![target_locale(v, locale)] + v.fallbacks
}

/// What a lookup returns: the non-empty value that the first locale of the
/// lookup chain holding one stores for `key`; else the inline `fallback` when
/// it is non-empty; else `key`.
pub open spec fn translate_spec(
    v: LangView,
    key: Seq<char>,
    locale: Option<Seq<char>>,
    fallback: Option<Seq<char>>,
) -> Seq<char> {
    match first_hit(v.locales, lookup_chain(v, locale), key) {
        Some(t) => t,
        None => match fallback {
            Some(f) => if f.len() > 0 {
                f
            } else {
                key
            },
            None => key,
        },
    }
}

/// A change of the store's state, as made by one successful call of a
/// method that takes `&mut self`.
pub enum LangOp {
    /// `set_path`.
    SetPath(Seq<char>),
    /// `set_locale`.
    SetLocale(Seq<char>),
    /// `set_fallbacks`.
    SetFallbacks(Seq<Seq<char>>),
    /// A successful `load` or `load_document`: the locale and its new table.
    Install(Seq<char>, Map<Seq<char>, Seq<char>>),
    /// `unload`.
    Remove(Seq<char>),
}

/// The state of a new store.
pub open spec fn initial_view() -> LangView {
    LangView {
        path: "locales"@,
        active: "en"@,
        fallbacks: seq!["en"@],
        locales: Map::empty(),
    }
}

/// The state after `op`.
pub open spec fn apply(v: LangView, op: LangOp) -> LangView {
    match op {
        LangOp::SetPath(p) => LangView { path: p, ..v },
        LangOp::SetLocale(l) => LangView { active: l, ..v },
        LangOp::SetFallbacks(f) => LangView { fallbacks: f, ..v },
        LangOp::Install(l, t) => LangView { locales: v.locales.insert(l, t), ..v },
        LangOp::Remove(l) => LangView { locales: v.locales.remove(l), ..v },
    }
}

/// The state of a new store after `ops`, in order.
pub open spec fn run(ops: Seq<LangOp>) -> LangView
    decreases ops.len(),
{
    if ops.len() == 0 {
        initial_view()
    } else {
        apply(run(ops.drop_last()), ops.last())
    }
}

/// `after` is `before` with `locale` holding the string entries of
/// `entries`, and `r` is the event of that load: `Reloaded` when the locale
/// was loaded before, `Loaded` when it was not.
pub open spec fn loaded_as(
    before: LangView,
    after: LangView,
    locale: Seq<char>,
    entries: Seq<(Seq<char>, Option<Seq<char>>)>,
    r: Result<LangChangeEvent, LangError>,
) -> bool {
    &&& r matches Ok(ev) && ev@ == (
        locale,
        if before.locales.contains_key(locale) {
            ChangeKind::Reloaded
        } else {
            ChangeKind::Loaded
        },
    )
    &&& after == apply(before, LangOp::Install(locale, table_from_entries(entries)))
}

pub open spec fn opt_view(o: Option<&str>) -> Option<Seq<char>> {
    match o {
        Some(s) => Some(s@),
        None => None,
    }
}

/// A store of translations: where language files live, which locale is
/// active, the fallback chain, and the loaded locales.
///
/// Writers take `&mut self`; lookups take `&self` and hand back text that
/// borrows from the store or from their arguments.
pub struct Lang {
    path: String,
    active: String,
    fallbacks: Vec<String>,
    locales: FxHashMap<String, Arc<FxHashMap<String, String>>>,
}

impl View for Lang {
    type V = LangView;

    closed spec fn view(&self) -> LangView {
        LangView {
            path: self.path@,
            active: self.active@,
            fallbacks: string_views(self.fallbacks@),
            locales: locale_contents(self.locales),
        }
    }
}

impl Clone for Lang {
    /// A store with the same state; the loaded tables are shared.
    fn clone(&self) -> (r: Self)
        ensures
            r@ == self@,
    {
        let fallbacks = self.fallbacks.clone();
        assert(string_views(fallbacks@) =~= string_views(self.fallbacks@)) by {
            assert forall|i: int| 0 <= i < fallbacks@.len() implies fallbacks@[i] == self.fallbacks@[i] by {
                assert(cloned::<String>(self.fallbacks@[i], fallbacks@[i]));
            }
        }
        Lang {
            path: self.path.clone(),
            active: self.active.clone(),
            fallbacks,
            locales: locales_clone(&self.locales),
        }
    }
}

/// Whether two strings hold the same characters.
fn str_eq(a: &str, b: &str) -> (r: bool)
    ensures
        r == (a@ == b@),
{
    let x = chars_of(a);
    let y = chars_of(b);
    chars_equal(&x, &y)
}

/// Whether `s` occurs in `items`.
fn contains_str(items: &Vec<&str>, s: &str) -> (r: bool)
    ensures
        r == exists|i: int| 0 <= i < items@.len() && #[trigger] items@[i]@ == s@,
{
    let mut i: usize = 0;
    while i < items.len()
        invariant
            0 <= i <= items@.len(),
            forall|k: int| 0 <= k < i ==> #[trigger] items@[k]@ != s@,
        decreases items@.len() - i,
    {
        if str_eq(items[i], s) {
            return true;
        }
        i = i + 1;
    }
    false
}

impl Lang {
    /// A store with the default configuration: files under `locales`, active
    /// locale `en`, fallback chain `["en"]`, and nothing loaded.
    pub fn new() -> (r: Lang)
        ensures
            r@ == initial_view(),
    {
        let fallbacks: Vec<String> = vec![String::from_str("en")];
        let r = Lang {
            path: String::from_str("locales"),
            active: String::from_str("en"),
            fallbacks,
            locales: new_locales(),
        };
        assert(r@.fallbacks =~= seq!["en"@]);
        r
    }

    /// Sets the directory where language files are looked up.
    pub fn set_path(&mut self, path: &str)
        ensures
            final(self)@ == apply(old(self)@, LangOp::SetPath(path@)),
    {
        self.path = path.to_owned();
    }

    /// The directory where language files are looked up.
    pub fn path(&self) -> (r: &str)
        ensures
            r@ == self@.path,
    {
        self.path.as_str()
    }

    /// Sets the active locale, used when a lookup names no locale.
    ///
    /// The locale need not be loaded; lookups simply miss in it until it is.
    pub fn set_locale(&mut self, locale: &str)
        ensures
            final(self)@ == apply(old(self)@, LangOp::SetLocale(locale@)),
    {
        self.active = locale.to_owned();
    }

    /// The active locale.
    pub fn locale(&self) -> (r: &str)
        ensures
            r@ == self@.active,
    {
        self.active.as_str()
    }

    /// Sets the fallback chain, consulted in order when the requested locale
    /// lacks a key.
    pub fn set_fallbacks(&mut self, chain: Vec<String>)
        ensures
            final(self)@ == apply(old(self)@, LangOp::SetFallbacks(string_views(chain@))),
    {
        self.fallbacks = chain;
    }

    /// Loads `locale` from a parsed language file (what `toml_document`
    /// describes): the locale name is checked first
    /// ([`LangError::InvalidLocale`]), then the document
    /// ([`LangError::Parse`]); on any error the store is unchanged. On success
    /// the locale's table is replaced by the document's string entries, and
    /// the event says whether the locale was new ([`ChangeKind::Loaded`]) or
    /// replaced ([`ChangeKind::Reloaded`]).
    pub fn load_document(
        &mut self,
        locale: &str,
        document: Result<Vec<(String, Option<String>)>, String>,
    ) -> (r: Result<LangChangeEvent, LangError>)
        ensures
            !is_locale_name(locale@) ==> err_view(r) == Some(
                LangErrorView::InvalidLocale { locale: locale@ },
            ),
            is_locale_name(locale@) ==> match document_view(document) {
                Err(m) => err_view(r) == Some(LangErrorView::Parse { locale: locale@, cause: m }),
                Ok(entries) => loaded_as(old(self)@, final(self)@, locale@, entries, r),
            },
            r is Err ==> final(self)@ == old(self)@,
    {
        match validate_locale(locale) {
            Err(e) => {
                return Err(e);
            },
            Ok(()) => {},
        }
        let table = match table_from_document(locale, document) {
            Ok(table) => table,
            Err(e) => {
                return Err(e);
            },
        };
        let kind = if locales_contains(&self.locales, locale) {
            ChangeKind::Reloaded
        } else {
            ChangeKind::Loaded
        };
        locales_insert(&mut self.locales, locale.to_owned(), table);
        Ok(LangChangeEvent { locale: locale.to_owned(), kind })
    }

    /// Loads `locale` from `source`, the outcome of reading its language file
    /// (`{path}/{locale}.toml`): the text, or the read error's message.
    ///
    /// The locale name is checked first ([`LangError::InvalidLocale`]), then
    /// the read ([`LangError::Io`]), then the TOML ([`LangError::Parse`]); on
    /// any error the store is unchanged. On success the locale's table is
    /// replaced by the file's string entries, and the event says whether the
    /// locale was new ([`ChangeKind::Loaded`]) or replaced
    /// ([`ChangeKind::Reloaded`]).
    pub fn load(&mut self, locale: &str, source: Result<String, String>) -> (r: Result<
        LangChangeEvent,
        LangError,
    >)
        ensures
            !is_locale_name(locale@) ==> err_view(r) == Some(
                LangErrorView::InvalidLocale { locale: locale@ },
            ),
            is_locale_name(locale@) ==> match source {
                Err(cause) => err_view(r) == Some(
                    LangErrorView::Io { locale: locale@, cause: cause@ },
                ),
                Ok(raw) => match toml_document(raw@) {
                    Err(m) => err_view(r) == Some(
                        LangErrorView::Parse { locale: locale@, cause: m },
                    ),
                    Ok(entries) => loaded_as(old(self)@, final(self)@, locale@, entries, r),
                },
            },
            r is Err ==> final(self)@ == old(self)@,
    {
        match validate_locale(locale) {
            Err(e) => {
                return Err(e);
            },
            Ok(()) => {},
        }
        match source {
            Err(cause) => Err(LangError::Io { locale: locale.to_owned(), cause }),
            Ok(raw) => self.load_document(locale, read_toml_document(raw.as_str())),
        }
    }

    /// Whether `locale` is loaded.
    pub fn is_loaded(&self, locale: &str) -> (r: bool)
        ensures
            r == self@.locales.contains_key(locale@),
    {
        locales_contains(&self.locales, locale)
    }

    /// The loaded locales, in increasing order.
    pub fn loaded(&self) -> (r: Vec<String>)
        ensures
            strictly_sorted(string_views(r@)),
            forall|l: Seq<char>| string_views(r@).contains(l) <==> self@.locales.contains_key(l),
    {
        let names = locales_keys(&self.locales);
        let r = sort_names(names);
        proof {
            let nv = string_views(names@);
            assert forall|l: Seq<char>| nv.contains(l) <==> self@.locales.contains_key(l) by {
                if self@.locales.contains_key(l) {
                    let i = choose|i: int| 0 <= i < names@.len() && #[trigger] names@[i]@ == l;
                    assert(nv[i] == l);
                }
                if nv.contains(l) {
                    let i = choose|i: int| 0 <= i < nv.len() && nv[i] == l;
                    assert(names@[i]@ == l);
                }
            }
        }
        r
    }

    /// Removes `locale` from the store; the active locale and the fallback
    /// chain are left as they are. Gives the [`ChangeKind::Unloaded`] event
    /// when the locale was loaded, and nothing otherwise.
    pub fn unload(&mut self, locale: &str) -> (r: Option<LangChangeEvent>)
        ensures
            final(self)@ == apply(old(self)@, LangOp::Remove(locale@)),
            r is Some <==> old(self)@.locales.contains_key(locale@),
            r matches Some(ev) ==> ev@ == (locale@, ChangeKind::Unloaded),
    {
        let present = locales_contains(&self.locales, locale);
        locales_remove(&mut self.locales, locale);
        if present {
            Some(LangChangeEvent { locale: locale.to_owned(), kind: ChangeKind::Unloaded })
        } else {
            None
        }
    }

    /// A request-scoped [`Translator`] for `locale`.
    pub fn translator(locale: &str) -> (r: Translator)
        ensures
            r@ == locale@,
    {
        Translator::new(locale)
    }

    /// The translation stored for `key` under `locale`.
    fn lookup_in<'a>(&'a self, locale: &str, key: &str) -> (r: Option<&'a str>)
        ensures
            opt_view(r) == table_lookup(self@.locales, locale@, key@),
    {
        match locales_get(&self.locales, locale) {
            None => None,
            Some(table) => match table_get(&**table, key) {
                None => None,
                Some(value) => if value.as_str().is_empty() {
                    None
                } else {
                    Some(value.as_str())
                },
            },
        }
    }

    /// Translates `key`.
    ///
    /// Lookup order: the requested locale (the active one when `locale` is
    /// `None`), then each locale of the fallback chain in order, then the
    /// inline `fallback`, then `key` itself. Empty stored values and an empty
    /// inline fallback are passed over, so a non-empty key never gives an
    /// empty string. A fallback locale equal to the requested one, or
    /// repeated in the chain, is consulted once.
    pub fn translate<'a>(
        &'a self,
        key: &'a str,
        locale: Option<&'a str>,
        fallback: Option<&'a str>,
    ) -> (r: &'a str)
        ensures
            r@ == translate_spec(self@, key@, opt_view(locale), opt_view(fallback)),
    {
        let target: &str = match locale {
            Some(l) => l,
            None => self.active.as_str(),
        };
        let ghost chain = lookup_chain(self@, opt_view(locale));
        let ghost fbs = self@.fallbacks;
        if let Some(value) = self.lookup_in(target, key) {
            return value;
        }
        assert(chain.drop_first() =~= fbs);
        assert(fbs.skip(0) =~= fbs);
        let mut seen: Vec<&str> = Vec::new();
        let mut i: usize = 0;
        while i < self.fallbacks.len()
            invariant
                fbs == self@.fallbacks,
                fbs == string_views(self.fallbacks@),
                chain == lookup_chain(self@, opt_view(locale)),
                target@ == target_locale(self@, opt_view(locale)),
                0 <= i <= self.fallbacks@.len(),
                table_lookup(self@.locales, target@, key@) is None,
                forall|k: int|
                    0 <= k < seen@.len() ==> table_lookup(self@.locales, #[trigger] seen@[k]@, key@)
                        is None,
                first_hit(self@.locales, chain, key@) == first_hit(
                    self@.locales,
                    fbs.skip(i as int),
                    key@,
                ),
            decreases self.fallbacks@.len() - i,
        {
            let fb: &str = self.fallbacks[i].as_str();
            assert(fbs.skip(i as int)[0] == fb@);
            assert(fbs.skip(i as int).drop_first() =~= fbs.skip(i + 1));
            if !str_eq(fb, target) && !contains_str(&seen, fb) {
                if let Some(value) = self.lookup_in(fb, key) {
                    return value;
                }
                seen.push(fb);
            }
            i = i + 1;
        }
        match fallback {
            Some(f) => if f.is_empty() {
                key
            } else {
                f
            },
            None => key,
        }
    }
}

/// A request-scoped translation helper: a locale that lookups use without
/// touching the store's active locale.
#[derive(Clone, Debug, PartialEq, Eq)]
pub struct Translator {
    locale: String,
}

impl View for Translator {
    type V = Seq<char>;

    closed spec fn view(&self) -> Seq<char> {
        self.locale@
    }
}

impl Translator {
    /// A translator bound to `locale`.
    pub fn new(locale: &str) -> (r: Translator)
        ensures
            r@ == locale@,
    {
        Translator { locale: locale.to_owned() }
    }

    /// The locale this translator uses.
    pub fn locale(&self) -> (r: &str)
        ensures
            r@ == self@,
    {
        self.locale.as_str()
    }

    /// Translates `key` in this translator's locale.
    pub fn translate<'a>(&'a self, lang: &'a Lang, key: &'a str) -> (r: &'a str)
        ensures
            r@ == translate_spec(lang@, key@, Some(self@), None),
    {
        lang.translate(key, Some(self.locale.as_str()), None)
    }

    /// Translates `key` in this translator's locale, with an inline fallback.
    pub fn translate_with_fallback<'a>(&'a self, lang: &'a Lang, key: &'a str, fallback: &'a str) -> (r:
        &'a str)
        ensures
            r@ == translate_spec(lang@, key@, Some(self@), Some(fallback@)),
    {
        lang.translate(key, Some(self.locale.as_str()), Some(fallback))
    }
}

} // verus!
