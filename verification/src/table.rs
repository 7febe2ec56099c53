//! The hash tables of the store, `rustc_hash::FxHashMap`s, with what each
//! operation the store uses does to their contents.
use std::sync::Arc;

use rustc_hash::{FxBuildHasher, FxHashMap};
use vstd::prelude::*;

verus! {

broadcast use vstd::string::group_string_axioms;

/// `rustc_hash::FxBuildHasher`, the hasher of the tables, declared as an
/// opaque type so that the tables can stand in signatures.
#[verifier::external_type_specification]
#[verifier::external_body]
pub struct ExFxBuildHasher(FxBuildHasher);

/// One locale's translations: key to value.
pub type TranslationTable = FxHashMap<String, String>;

/// What a translation table holds, keys and values taken by their characters.
pub uninterp spec fn table_contents(t: FxHashMap<String, String>) -> Map<Seq<char>, Seq<char>>;

/// What the locale table holds: each locale with the contents of its table.
pub uninterp spec fn locale_contents(m: FxHashMap<String, Arc<FxHashMap<String, String>>>) -> Map<
    Seq<char>,
    Map<Seq<char>, Seq<char>>,
>;

pub open spec fn no_translations() -> Map<Seq<char>, Seq<char>> {
    Map::empty()
}

pub open spec fn no_locales() -> Map<Seq<char>, Map<Seq<char>, Seq<char>>> {
    Map::empty()
}

/// `HashMap::default`: an empty table.
#[verifier::external_body]
pub(crate) fn new_table() -> (r: FxHashMap<String, String>)
    ensures
        table_contents(r) == no_translations(),
{
    FxHashMap::default()
}

/// `HashMap::insert`: maps `key` to `value`, replacing an earlier value.
#[verifier::external_body]
pub(crate) fn table_insert(t: &mut FxHashMap<String, String>, key: String, value: String)
    ensures
        table_contents(*final(t)) == table_contents(*old(t)).insert(key@, value@),
{
    let _ = t.insert(key, value);
}

/// `HashMap::get`: the value stored under `key`, if any.
#[verifier::external_body]
pub(crate) fn table_get<'a>(t: &'a FxHashMap<String, String>, key: &str) -> (r: Option<&'a String>)
    ensures
        r is Some <==> table_contents(*t).contains_key(key@),
        r matches Some(v) ==> v@ == table_contents(*t)[key@],
{
    t.get(key)
}

/// `HashMap::default`: an empty locale table.
#[verifier::external_body]
pub(crate) fn new_locales() -> (r: FxHashMap<String, Arc<FxHashMap<String, String>>>)
    ensures
        locale_contents(r) == no_locales(),
{
    FxHashMap::default()
}

/// `HashMap::insert`: maps `locale` to `table`, replacing an earlier table.
#[verifier::external_body]
pub(crate) fn locales_insert(
    m: &mut FxHashMap<String, Arc<FxHashMap<String, String>>>,
    locale: String,
    table: FxHashMap<String, String>,
)
    ensures
        locale_contents(*final(m)) == locale_contents(*old(m)).insert(
            locale@,
            table_contents(table),
        ),
{
    let _ = m.insert(locale, Arc::new(table));
}

/// `HashMap::get`: the table stored under `locale`, if any.
#[verifier::external_body]
pub(crate) fn locales_get<'a>(m: &'a FxHashMap<String, Arc<FxHashMap<String, String>>>, locale: &str) -> (r:
    Option<&'a Arc<FxHashMap<String, String>>>)
    ensures
        r is Some <==> locale_contents(*m).contains_key(locale@),
        r matches Some(t) ==> table_contents(**t) == locale_contents(*m)[locale@],
{
    m.get(locale)
}

/// `HashMap::contains_key`.
#[verifier::external_body]
pub(crate) fn locales_contains(m: &FxHashMap<String, Arc<FxHashMap<String, String>>>, locale: &str) -> (r:
    bool)
    ensures
        r == locale_contents(*m).contains_key(locale@),
{
    m.contains_key(locale)
}

/// `HashMap::remove`: drops the table stored under `locale`, if any.
#[verifier::external_body]
pub(crate) fn locales_remove(m: &mut FxHashMap<String, Arc<FxHashMap<String, String>>>, locale: &str)
    ensures
        locale_contents(*final(m)) == locale_contents(*old(m)).remove(locale@),
{
    let _ = m.remove(locale);
}

/// `HashMap::clone`: a table with the same locales, sharing their tables.
#[verifier::external_body]
pub(crate) fn locales_clone(m: &FxHashMap<String, Arc<FxHashMap<String, String>>>) -> (r: FxHashMap<
    String,
    Arc<FxHashMap<String, String>>,
>)
    ensures
        locale_contents(r) == locale_contents(*m),
{
    m.clone()
}

/// `HashMap::keys`: each stored locale once, in the table's own order.
#[verifier::external_body]
pub(crate) fn locales_keys(m: &FxHashMap<String, Arc<FxHashMap<String, String>>>) -> (r: Vec<String>)
    ensures
        forall|i: int| 0 <= i < r@.len() ==> locale_contents(*m).contains_key(#[trigger] r@[i]@),
        forall|i: int, j: int| 0 <= i < j < r@.len() ==> #[trigger] r@[i]@ != #[trigger] r@[j]@,
        forall|k: Seq<char>|
            #[trigger] locale_contents(*m).contains_key(k) ==> exists|i: int|
                0 <= i < r@.len() && #[trigger] r@[i]@ == k,
{
    m.keys().cloned().collect()
}

} // verus!
