//! Locale identifiers and the translation files behind them: which locale
//! names are accepted, and how a TOML document becomes a translation table.
use rustc_hash::FxHashMap;
use toml::Value;
use vstd::prelude::*;

use crate::error::{err_view, LangError, LangErrorView};
use crate::table::{new_table, no_translations, table_contents, table_insert};
use crate::text::{chars_equal, chars_of};

verus! {

broadcast use vstd::string::group_string_axioms;

/// A character that separates path components (`/`, `\`).
pub open spec fn is_path_char(c: char) -> bool {
    c == '/' || c == '\\'
}

/// `s` starts with a drive prefix: an ASCII letter followed by `:`.
pub open spec fn has_drive_prefix(s: Seq<char>) -> bool {
    &&& s.len() >= 2
    &&& (('a' <= s[0] && s[0] <= 'z') || ('A' <= s[0] && s[0] <= 'Z'))
    &&& s[1] == ':'
}

/// A locale identifier is a single file stem (`en`, `en-US`, `pt_BR`): it is
/// not empty, it is neither `.` nor `..`, it holds no path separator (`/`
/// or `\`), and it does not start with a drive prefix such as `C:`.
pub open spec fn is_locale_name(s: Seq<char>) -> bool {
    &&& s.len() > 0
    &&& s != seq!['.']
    &&& s != seq!['.', '.']
    &&& !has_drive_prefix(s)
    &&& forall|i: int| 0 <= i < s.len() ==> !is_path_char(#[trigger] s[i])
}

/// Accepts `locale` when it is a single locale name, and rejects it with
/// [`LangError::InvalidLocale`] otherwise, before any file is touched.
pub fn validate_locale(locale: &str) -> (r: Result<(), LangError>)
    ensures
        r is Ok <==> is_locale_name(locale@),
        r matches Err(e) ==> e@ == (LangErrorView::InvalidLocale { locale: locale@ }),
{
    let chars = chars_of(locale);
    let dot: Vec<char> = vec!['.'];
    let dot_dot: Vec<char> = vec!['.', '.'];
    assert(dot@ =~= seq!['.']);
    assert(dot_dot@ =~= seq!['.', '.']);
    let drive = chars.len() >= 2 && (('a' <= chars[0] && chars[0] <= 'z') || ('A' <= chars[0]
        && chars[0] <= 'Z')) && chars[1] == ':';
    let mut ok = chars.len() > 0 && !chars_equal(&chars, &dot) && !chars_equal(&chars, &dot_dot)
        && !drive;
    let mut i: usize = 0;
    while i < chars.len()
        invariant
            chars@ == locale@,
            0 <= i <= chars@.len(),
            ok == (chars@.len() > 0 && chars@ != seq!['.'] && chars@ != seq!['.', '.']
                && !has_drive_prefix(chars@) && forall|
                k: int,
            |
                0 <= k < i ==> !is_path_char(#[trigger] chars@[k])),
        decreases chars@.len() - i,
    {
        let c = chars[i];
        if c == '/' || c == '\\' {
            ok = false;
        }
        i = i + 1;
    }
    if ok {
        Ok(())
    } else {
        Err(LangError::InvalidLocale { locale: locale.to_owned() })
    }
}

/// What a TOML document holds at its top level, as the `toml` crate parses
/// it: each key with its value when that value is a string (`None` for any
/// other kind of value), or the parser's error message.
pub uninterp spec fn toml_document(raw: Seq<char>) -> Result<
    Seq<(Seq<char>, Option<Seq<char>>)>,
    Seq<char>,
>;

pub open spec fn entry_view(e: (String, Option<String>)) -> (Seq<char>, Option<Seq<char>>) {
    (
        e.0@,
        match e.1 {
            Some(s) => Some(s@),
            None => None,
        },
    )
}

pub open spec fn document_view(r: Result<Vec<(String, Option<String>)>, String>) -> Result<
    Seq<(Seq<char>, Option<Seq<char>>)>,
    Seq<char>,
> {
    match r {
        Ok(v) => Ok(v@.map_values(|e: (String, Option<String>)| entry_view(e))),
        Err(m) => Err(m@),
    }
}

/// Parses `raw` as a `toml::Table` (`str::parse`) and lists its top-level
/// entries, keeping string values and marking every other value as `None`;
/// a parse error becomes its message (`Display` of `toml::de::Error`).
/// The contract names the outcome `toml_document(raw)` and says no more.
#[verifier::external_body]
pub(crate) fn read_toml_document(raw: &str) -> (r: Result<Vec<(String, Option<String>)>, String>)
    ensures
        document_view(r) == toml_document(raw@),
{
    match raw.parse::<toml::Table>() {
        Err(e) => Err(e.to_string()),
        Ok(table) => Ok(table.into_iter().map(|(key, value)| (key, match value {
            Value::String(s) => Some(s),
            Value::Integer(_) => None,
            Value::Float(_) => None,
            Value::Boolean(_) => None,
            Value::Datetime(_) => None,
            Value::Array(_) => None,
            Value::Table(_) => None,
        })).collect()),
    }
}

/// The translation table that a list of top-level entries gives: every
/// string entry, in order, a later entry for a key replacing an earlier one;
/// entries whose value is not a string are skipped.
pub open spec fn table_from_entries(e: Seq<(Seq<char>, Option<Seq<char>>)>) -> Map<
    Seq<char>,
    Seq<char>,
>
    decreases e.len(),
{
    if e.len() == 0 {
        no_translations()
    } else {
        let m = table_from_entries(e.drop_last());
        match e.last().1 {
            Some(v) => m.insert(e.last().0, v),
            None => m,
        }
    }
}

/// A string entry that no later entry for the same key overrides is in the
/// table, under its own key and with its own value, whatever characters the
/// key holds.
pub proof fn law_last_string_entry_is_kept(e: Seq<(Seq<char>, Option<Seq<char>>)>, i: int)
    requires
        0 <= i < e.len(),
        e[i].1 is Some,
        forall|j: int| i < j < e.len() && #[trigger] e[j].0 == e[i].0 ==> e[j].1 is None,
    ensures
        table_from_entries(e).contains_key(e[i].0),
        table_from_entries(e)[e[i].0] == e[i].1->0,
    decreases e.len(),
{
    let n = e.len() - 1;
    assert(e.last() == e[n]);
    if i < n {
        let d = e.drop_last();
        assert(d[i] == e[i]);
        assert forall|j: int| i < j < d.len() && #[trigger] d[j].0 == d[i].0 implies d[j].1 is None by {
            assert(d[j] == e[j]);
        }
        law_last_string_entry_is_kept(d, i);
        if e[n].0 == e[i].0 {
            assert(e[n].1 is None);
        }
    }
}

/// Every key of the table comes from a string entry for that key: nothing
/// else is in its domain.
pub proof fn law_table_keys_are_string_entries(e: Seq<(Seq<char>, Option<Seq<char>>)>, k: Seq<char>)
    ensures
        table_from_entries(e).contains_key(k) ==> exists|i: int|
            0 <= i < e.len() && #[trigger] e[i].0 == k && e[i].1 is Some,
    decreases e.len(),
{
    if e.len() > 0 {
        let n = e.len() - 1;
        let d = e.drop_last();
        assert(e.last() == e[n]);
        law_table_keys_are_string_entries(d, k);
        if table_from_entries(e).contains_key(k) {
            if e[n].0 == k && e[n].1 is Some {
                assert(e[n].0 == k);
            } else {
                assert(table_from_entries(d).contains_key(k));
                let i = choose|i: int| 0 <= i < d.len() && #[trigger] d[i].0 == k && d[i].1 is Some;
                assert(d[i] == e[i]);
                assert(e[i].0 == k);
            }
        }
    }
}

/// Builds the translation table of `locale` from a parsed document (what
/// `toml_document` describes): the string entries of its top level, or
/// [`LangError::Parse`] carrying the parser's message.
pub fn table_from_document(
    locale: &str,
    document: Result<Vec<(String, Option<String>)>, String>,
) -> (r: Result<FxHashMap<String, String>, LangError>)
    ensures
        match document_view(document) {
            Err(m) => err_view(r) == Some(LangErrorView::Parse { locale: locale@, cause: m }),
            Ok(entries) => r matches Ok(t) && table_contents(t) == table_from_entries(entries),
        },
{
    match document {
        Err(cause) => Err(LangError::Parse { locale: locale.to_owned(), cause }),
        Ok(entries) => {
            let ghost ev = entries@.map_values(|e: (String, Option<String>)| entry_view(e));
            let mut table = new_table();
            let mut i: usize = 0;
            while i < entries.len()
                invariant
                    ev == entries@.map_values(|e: (String, Option<String>)| entry_view(e)),
                    0 <= i <= entries@.len(),
                    table_contents(table) == table_from_entries(ev.take(i as int)),
                decreases entries@.len() - i,
            {
                assert(ev.take(i + 1).drop_last() =~= ev.take(i as int));
                assert(ev.take(i + 1).last() == entry_view(entries@[i as int]));
                match &entries[i].1 {
                    Some(value) => {
                        table_insert(&mut table, entries[i].0.clone(), value.clone());
                    },
                    None => {},
                }
                i = i + 1;
            }
            assert(ev.take(entries@.len() as int) =~= ev);
            Ok(table)
        },
    }
}

/// Parses the contents of a language file into a translation table.
///
/// Only top-level string values are kept; tables, arrays, numbers and other
/// values are skipped without error. Invalid TOML gives
/// [`LangError::Parse`] with the parser's message.
pub fn parse_toml(locale: &str, raw: &str) -> (r: Result<FxHashMap<String, String>, LangError>)
    ensures
        match toml_document(raw@) {
            Err(m) => err_view(r) == Some(LangErrorView::Parse { locale: locale@, cause: m }),
            Ok(entries) => r matches Ok(t) && table_contents(t) == table_from_entries(entries),
        },
{
    table_from_document(locale, read_toml_document(raw))
}

} // verus!
