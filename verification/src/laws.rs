//! Properties of the store that span its operations.
use vstd::prelude::*;

use crate::store::{
    apply, first_hit, lookup_chain, run, table_lookup, target_locale, translate_spec, LangOp, LangView,
};

verus! {

/// Dropping a locale that does not hold `key` from a chain leaves the
/// lookup unchanged.
pub proof fn lemma_first_hit_remove_miss(
    locales: Map<Seq<char>, Map<Seq<char>, Seq<char>>>,
    chain: Seq<Seq<char>>,
    key: Seq<char>,
    k: int,
)
    requires
        0 <= k < chain.len(),
        table_lookup(locales, chain[k], key) is None,
    ensures
        first_hit(locales, chain, key) == first_hit(locales, chain.remove(k), key),
    decreases k,
{
    if k == 0 {
        assert(chain.remove(0) =~= chain.drop_first());
    } else {
        let rest = chain.remove(k);
        assert(rest[0] == chain[0]);
        if table_lookup(locales, chain[0], key) is None {
            assert(rest.drop_first() =~= chain.drop_first().remove(k - 1));
            lemma_first_hit_remove_miss(locales, chain.drop_first(), key, k - 1);
        }
    }
}

/// Dropping a later repetition of a locale from a chain leaves the lookup
/// unchanged.
pub proof fn lemma_first_hit_remove_duplicate(
    locales: Map<Seq<char>, Map<Seq<char>, Seq<char>>>,
    chain: Seq<Seq<char>>,
    key: Seq<char>,
    i: int,
    k: int,
)
    requires
        0 <= i < k < chain.len(),
        chain[i] == chain[k],
    ensures
        first_hit(locales, chain, key) == first_hit(locales, chain.remove(k), key),
    decreases i,
{
    let rest = chain.remove(k);
    assert(rest[0] == chain[0]);
    if table_lookup(locales, chain[0], key) is None {
        if i == 0 {
            lemma_first_hit_remove_miss(locales, chain, key, k);
        } else {
            assert(rest.drop_first() =~= chain.drop_first().remove(k - 1));
            lemma_first_hit_remove_duplicate(locales, chain.drop_first(), key, i - 1, k - 1);
        }
    }
}

/// A hit is never empty.
pub proof fn lemma_first_hit_nonempty(
    locales: Map<Seq<char>, Map<Seq<char>, Seq<char>>>,
    chain: Seq<Seq<char>>,
    key: Seq<char>,
)
    ensures
        first_hit(locales, chain, key) matches Some(t) ==> t.len() > 0,
    decreases chain.len(),
{
    if chain.len() > 0 {
        lemma_first_hit_nonempty(locales, chain.drop_first(), key);
    }
}

/// Appending a locale to a chain only matters when nothing before it hits.
pub proof fn lemma_first_hit_push(
    locales: Map<Seq<char>, Map<Seq<char>, Seq<char>>>,
    chain: Seq<Seq<char>>,
    x: Seq<char>,
    key: Seq<char>,
)
    ensures
        first_hit(locales, chain.push(x), key) == (if first_hit(locales, chain, key) is Some {
            first_hit(locales, chain, key)
        } else {
            table_lookup(locales, x, key)
        }),
    decreases chain.len(),
{
    let c = chain.push(x);
    if chain.len() == 0 {
        assert(c.drop_first() =~= Seq::<Seq<char>>::empty());
        assert(first_hit(locales, c.drop_first(), key) is None);
        assert(c[0] == x);
    } else {
        assert(c[0] == chain[0]);
        assert(c.drop_first() =~= chain.drop_first().push(x));
        lemma_first_hit_push(locales, chain.drop_first(), x, key);
    }
}

/// When nothing in a chain hits, no locale of the chain holds the key.
pub proof fn lemma_first_hit_none(
    locales: Map<Seq<char>, Map<Seq<char>, Seq<char>>>,
    chain: Seq<Seq<char>>,
    key: Seq<char>,
    k: int,
)
    requires
        first_hit(locales, chain, key) is None,
        0 <= k < chain.len(),
    ensures
        table_lookup(locales, chain[k], key) is None,
    decreases k,
{
    if k > 0 {
        assert(chain.drop_first()[k - 1] == chain[k]);
        lemma_first_hit_none(locales, chain.drop_first(), key, k - 1);
    }
}

/// `s` with every repetition of an element after its first occurrence
/// removed.
pub open spec fn without_repeats(s: Seq<Seq<char>>) -> Seq<Seq<char>>
    decreases s.len(),
{
    if s.len() == 0 {
        s
    } else if s.drop_last().contains(s.last()) {
        without_repeats(s.drop_last())
    } else {
        without_repeats(s.drop_last()).push(s.last())
    }
}

proof fn lemma_chain_without_repeats(
    locales: Map<Seq<char>, Map<Seq<char>, Seq<char>>>,
    t: Seq<char>,
    f: Seq<Seq<char>>,
    key: Seq<char>,
)
    ensures
        first_hit(locales, seq![t] + f, key) == first_hit(locales, seq![t] + without_repeats(f), key),
    decreases f.len(),
{
    if f.len() == 0 {
        assert(without_repeats(f) =~= f);
    } else {
        let d = f.drop_last();
        let x = f.last();
        lemma_chain_without_repeats(locales, t, d, key);
        assert(seq![t] + f =~= (seq![t] + d).push(x));
        lemma_first_hit_push(locales, seq![t] + d, x, key);
        if d.contains(x) {
            if first_hit(locales, seq![t] + d, key) is None {
                let k = choose|k: int| 0 <= k < d.len() && d[k] == x;
                assert((seq![t] + d)[k + 1] == x);
                lemma_first_hit_none(locales, seq![t] + d, key, k + 1);
            }
        } else {
            assert(seq![t] + without_repeats(f) =~= (seq![t] + without_repeats(d)).push(x));
            lemma_first_hit_push(locales, seq![t] + without_repeats(d), x, key);
        }
    }
}

/// Repeats in the fallback chain change no lookup: the chain and the chain
/// with every repeat removed give the same result for every key, requested
/// locale and inline fallback.
pub proof fn law_repeated_fallbacks_are_ignored(
    v: LangView,
    key: Seq<char>,
    locale: Option<Seq<char>>,
    fallback: Option<Seq<char>>,
)
    ensures
        translate_spec(v, key, locale, fallback) == translate_spec(
            LangView { fallbacks: without_repeats(v.fallbacks), ..v },
            key,
            locale,
            fallback,
        ),
{
    lemma_chain_without_repeats(v.locales, target_locale(v, locale), v.fallbacks, key);
}

/// A fallback locale equal to the requested locale changes no lookup.
pub proof fn law_fallback_equal_to_target_is_ignored(
    v: LangView,
    key: Seq<char>,
    locale: Option<Seq<char>>,
    fallback: Option<Seq<char>>,
    k: int,
)
    requires
        0 <= k < v.fallbacks.len(),
        v.fallbacks[k] == target_locale(v, locale),
    ensures
        translate_spec(v, key, locale, fallback) == translate_spec(
            LangView { fallbacks: v.fallbacks.remove(k), ..v },
            key,
            locale,
            fallback,
        ),
{
    let w = LangView { fallbacks: v.fallbacks.remove(k), ..v };
    let chain = lookup_chain(v, locale);
    assert(chain.remove(k + 1) =~= lookup_chain(w, locale));
    lemma_first_hit_remove_duplicate(v.locales, chain, key, 0, k + 1);
}

/// After a locale is (re)loaded with table `t`, looking up a key of `t` in
/// that locale gives `t`'s value, whatever the fallbacks and inline fallback.
pub proof fn law_loaded_value_is_returned(
    v: LangView,
    locale: Seq<char>,
    t: Map<Seq<char>, Seq<char>>,
    key: Seq<char>,
    fallback: Option<Seq<char>>,
)
    requires
        t.contains_key(key),
        t[key].len() > 0,
    ensures
        translate_spec(
            LangView { locales: v.locales.insert(locale, t), ..v },
            key,
            Some(locale),
            fallback,
        ) == t[key],
{
}

/// Loading a locale a second time replaces its first table.
pub proof fn law_reload_replaces(
    v: LangView,
    locale: Seq<char>,
    first: Map<Seq<char>, Seq<char>>,
    second: Map<Seq<char>, Seq<char>>,
)
    ensures
        v.locales.insert(locale, first).insert(locale, second) == v.locales.insert(
            locale,
            second,
        ),
{
    assert(v.locales.insert(locale, first).insert(locale, second) =~= v.locales.insert(
        locale,
        second,
    ));
}

/// Unloading a locale that was loaded for the first time restores the
/// locales as they were before the load.
pub proof fn law_unload_undoes_first_load(
    v: LangView,
    locale: Seq<char>,
    t: Map<Seq<char>, Seq<char>>,
)
    requires
        !v.locales.contains_key(locale),
    ensures
        v.locales.insert(locale, t).remove(locale) == v.locales,
{
    assert(v.locales.insert(locale, t).remove(locale) =~= v.locales);
}

/// An unloaded locale that is still requested is skipped: the lookup goes
/// on with the fallback chain alone.
pub proof fn law_unloaded_locale_is_skipped(v: LangView, locale: Seq<char>, key: Seq<char>)
    ensures
        ({
            let w = LangView { locales: v.locales.remove(locale), ..v };
            first_hit(w.locales, lookup_chain(w, Some(locale)), key) == first_hit(
                w.locales,
                v.fallbacks,
                key,
            )
        }),
{
    let w = LangView { locales: v.locales.remove(locale), ..v };
    assert(lookup_chain(w, Some(locale)).drop_first() =~= v.fallbacks);
}

/// A lookup of a non-empty key never gives an empty string: empty stored
/// values and an empty inline fallback are passed over, and the key itself
/// is the last resort.
pub proof fn law_translation_is_never_empty(
    v: LangView,
    key: Seq<char>,
    locale: Option<Seq<char>>,
    fallback: Option<Seq<char>>,
)
    requires
        key.len() > 0,
    ensures
        translate_spec(v, key, locale, fallback).len() > 0,
{
    lemma_first_hit_nonempty(v.locales, lookup_chain(v, locale), key);
}

pub open spec fn sets_path(op: LangOp) -> bool {
    op is SetPath
}

pub open spec fn sets_locale(op: LangOp) -> bool {
    op is SetLocale
}

/// `op` is a successful load of locale `l`.
pub open spec fn installs(op: LangOp, l: Seq<char>) -> bool {
    op matches LangOp::Install(m, _) && m == l
}

/// `op` unloads locale `l`.
pub open spec fn removes(op: LangOp, l: Seq<char>) -> bool {
    op matches LangOp::Remove(m) && m == l
}

/// After any sequence of calls on a new store, `path()` is the argument of
/// the latest `set_path`, or `locales` when there was none. (Failed loads
/// change nothing, and lookups, `is_loaded`, `loaded` and translators take
/// the store by shared reference, so `ops` lists every change.)
pub proof fn law_path_is_latest_set(ops: Seq<LangOp>)
    ensures
        (forall|i: int| 0 <= i < ops.len() ==> !sets_path(#[trigger] ops[i])) ==> run(ops).path
            == "locales"@,
        forall|i: int|
            0 <= i < ops.len() && sets_path(#[trigger] ops[i]) && (forall|j: int|
                i < j < ops.len() ==> !sets_path(ops[j])) ==> run(ops).path == ops[i]->SetPath_0,
    decreases ops.len(),
{
    if ops.len() > 0 {
        let d = ops.drop_last();
        law_path_is_latest_set(d);
        assert forall|i: int| 0 <= i < d.len() implies #[trigger] d[i] == ops[i] by {}
        let n = ops.len() - 1;
        assert(ops[n] == ops.last());
        if !sets_path(ops.last()) {
            assert(run(ops).path == run(d).path);
        }
        assert forall|i: int|
            0 <= i < ops.len() && sets_path(#[trigger] ops[i]) && (forall|j: int|
                i < j < ops.len() ==> !sets_path(ops[j])) implies run(ops).path == ops[i]->SetPath_0 by {
            if i < n {
                assert(!sets_path(ops[n]));
                assert(sets_path(d[i]));
                assert forall|j: int| i < j < d.len() implies !sets_path(d[j]) by {
                    assert(ops[j] == d[j]);
                }
            }
        }
    }
}

/// After any sequence of calls on a new store, `locale()` is the argument of
/// the latest `set_locale`, or `en` when there was none.
pub proof fn law_locale_is_latest_set(ops: Seq<LangOp>)
    ensures
        (forall|i: int| 0 <= i < ops.len() ==> !sets_locale(#[trigger] ops[i])) ==> run(ops).active
            == "en"@,
        forall|i: int|
            0 <= i < ops.len() && sets_locale(#[trigger] ops[i]) && (forall|j: int|
                i < j < ops.len() ==> !sets_locale(ops[j])) ==> run(ops).active
                == ops[i]->SetLocale_0,
    decreases ops.len(),
{
    if ops.len() > 0 {
        let d = ops.drop_last();
        law_locale_is_latest_set(d);
        assert forall|i: int| 0 <= i < d.len() implies #[trigger] d[i] == ops[i] by {}
        let n = ops.len() - 1;
        assert(ops[n] == ops.last());
        if !sets_locale(ops.last()) {
            assert(run(ops).active == run(d).active);
        }
        assert forall|i: int|
            0 <= i < ops.len() && sets_locale(#[trigger] ops[i]) && (forall|j: int|
                i < j < ops.len() ==> !sets_locale(ops[j])) implies run(ops).active == ops[i]->SetLocale_0 by {
            if i < n {
                assert(!sets_locale(ops[n]));
                assert(sets_locale(d[i]));
                assert forall|j: int| i < j < d.len() implies !sets_locale(d[j]) by {
                    assert(ops[j] == d[j]);
                }
            }
        }
    }
}

/// After any sequence of calls on a new store, `is_loaded(l)` holds exactly
/// when some successful load of `l` came after every unload of `l`.
pub proof fn law_loaded_iff_loaded_since_unload(ops: Seq<LangOp>, l: Seq<char>)
    ensures
        run(ops).locales.contains_key(l) <==> exists|i: int|
            0 <= i < ops.len() && installs(#[trigger] ops[i], l) && forall|j: int|
                i < j < ops.len() ==> !removes(ops[j], l),
    decreases ops.len(),
{
    if ops.len() > 0 {
        let d = ops.drop_last();
        let n = ops.len() - 1;
        law_loaded_iff_loaded_since_unload(d, l);
        assert forall|i: int| 0 <= i < d.len() implies #[trigger] d[i] == ops[i] by {}
        assert(ops[n] == ops.last());
        if installs(ops.last(), l) {
            assert(run(ops).locales.contains_key(l));
        } else if removes(ops.last(), l) {
            assert(!run(ops).locales.contains_key(l));
            assert forall|i: int| 0 <= i < ops.len() && installs(#[trigger] ops[i], l) implies !(
            forall|j: int| i < j < ops.len() ==> !removes(ops[j], l)) by {
                assert(i < n);
                assert(removes(ops[n], l));
            }
        } else {
            assert(run(ops).locales.contains_key(l) == run(d).locales.contains_key(l));
            if run(d).locales.contains_key(l) {
                let i = choose|i: int|
                    0 <= i < d.len() && installs(#[trigger] d[i], l) && forall|j: int|
                        i < j < d.len() ==> !removes(d[j], l);
                assert(installs(ops[i], l));
                assert forall|j: int| i < j < ops.len() implies !removes(ops[j], l) by {
                    if j < n {
                        assert(ops[j] == d[j]);
                    }
                }
            }
            if exists|i: int|
                0 <= i < ops.len() && installs(#[trigger] ops[i], l) && forall|j: int|
                    i < j < ops.len() ==> !removes(ops[j], l) {
                let i = choose|i: int|
                    0 <= i < ops.len() && installs(#[trigger] ops[i], l) && forall|j: int|
                        i < j < ops.len() ==> !removes(ops[j], l);
                assert(i < n);
                assert(installs(d[i], l));
                assert forall|j: int| i < j < d.len() implies !removes(d[j], l) by {
                    assert(ops[j] == d[j]);
                }
            }
        }
    }
}

/// When no locale of a chain holds a non-empty value for the key, the
/// chain yields nothing.
pub proof fn lemma_first_hit_all_miss(
    locales: Map<Seq<char>, Map<Seq<char>, Seq<char>>>,
    chain: Seq<Seq<char>>,
    key: Seq<char>,
)
    requires
        forall|k: int|
            0 <= k < chain.len() ==> !(locales.contains_key(#[trigger] chain[k])
                && locales[chain[k]].contains_key(key) && locales[chain[k]][key].len() > 0),
    ensures
        first_hit(locales, chain, key) is None,
    decreases chain.len(),
{
    if chain.len() > 0 {
        assert(!(locales.contains_key(chain[0]) && locales[chain[0]].contains_key(key)
            && locales[chain[0]][key].len() > 0));
        assert forall|k: int| 0 <= k < chain.drop_first().len() implies !(locales.contains_key(
            #[trigger] chain.drop_first()[k],
        ) && locales[chain.drop_first()[k]].contains_key(key)
            && locales[chain.drop_first()[k]][key].len() > 0) by {
            assert(chain.drop_first()[k] == chain[k + 1]);
        }
        lemma_first_hit_all_miss(locales, chain.drop_first(), key);
    }
}

/// When neither the requested (or active) locale nor any fallback locale
/// holds a non-empty value for `key`, a non-empty inline fallback is the
/// answer, whichever locales are loaded.
pub proof fn law_inline_fallback_answers_a_miss(
    v: LangView,
    key: Seq<char>,
    locale: Option<Seq<char>>,
    f: Seq<char>,
)
    requires
        f.len() > 0,
        forall|c: Seq<char>|
            #![trigger v.locales.contains_key(c)]
            (c == target_locale(v, locale) || v.fallbacks.contains(c)) ==> !(v.locales.contains_key(c)
                && v.locales[c].contains_key(key) && v.locales[c][key].len() > 0),
    ensures
        translate_spec(v, key, locale, Some(f)) == f,
{
    let chain = lookup_chain(v, locale);
    assert forall|k: int| 0 <= k < chain.len() implies !(v.locales.contains_key(#[trigger] chain[k])
        && v.locales[chain[k]].contains_key(key) && v.locales[chain[k]][key].len() > 0) by {
        if k > 0 {
            assert(chain[k] == v.fallbacks[k - 1]);
            assert(v.fallbacks.contains(chain[k]));
        }
        assert(v.locales.contains_key(chain[k]) == v.locales.contains_key(chain[k]));
    }
    lemma_first_hit_all_miss(v.locales, chain, key);
}

pub open spec fn sets_fallbacks(op: LangOp) -> bool {
    op is SetFallbacks
}

/// After any sequence of calls on a new store, the fallback chain is exactly
/// the argument of the latest `set_fallbacks`, the empty chain included, or
/// `["en"]` when there was none.
pub proof fn law_fallbacks_are_latest_set(ops: Seq<LangOp>)
    ensures
        (forall|i: int| 0 <= i < ops.len() ==> !sets_fallbacks(#[trigger] ops[i])) ==> run(
            ops,
        ).fallbacks == seq!["en"@],
        forall|i: int|
            0 <= i < ops.len() && sets_fallbacks(#[trigger] ops[i]) && (forall|j: int|
                i < j < ops.len() ==> !sets_fallbacks(ops[j])) ==> run(ops).fallbacks
                == ops[i]->SetFallbacks_0,
    decreases ops.len(),
{
    if ops.len() > 0 {
        let d = ops.drop_last();
        law_fallbacks_are_latest_set(d);
        assert forall|i: int| 0 <= i < d.len() implies #[trigger] d[i] == ops[i] by {}
        let n = ops.len() - 1;
        assert(ops[n] == ops.last());
        if !sets_fallbacks(ops.last()) {
            assert(run(ops).fallbacks == run(d).fallbacks);
        }
        assert forall|i: int|
            0 <= i < ops.len() && sets_fallbacks(#[trigger] ops[i]) && (forall|j: int|
                i < j < ops.len() ==> !sets_fallbacks(ops[j])) implies run(ops).fallbacks
                == ops[i]->SetFallbacks_0 by {
            if i < n {
                assert(!sets_fallbacks(ops[n]));
                assert(sets_fallbacks(d[i]));
                assert forall|j: int| i < j < d.len() implies !sets_fallbacks(d[j]) by {
                    assert(ops[j] == d[j]);
                }
            }
        }
    }
}

} // verus!
