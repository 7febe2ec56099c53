//! Resolution of an HTTP `Accept-Language` header against the locales an
//! application supports.
use vstd::prelude::*;

use crate::text::{
    ascii_lower, chars_equal, chars_of, copy_range, find_first, find_last, has_prefix,
    lemma_find_first, lemma_find_last, lemma_split_append, lemma_split_without_sep, not_white,
    split_chars, split_on, starts_with, string_views, to_ascii_lower, trim, trim_chars,
};

verus! {

broadcast use vstd::string::group_string_axioms;

// ---------------------------------------------------------------------------
// Specification
// ---------------------------------------------------------------------------

pub open spec fn is_digit(c: char) -> bool {
    '0' <= c && c <= '9'
}

/// Value of the `i`-th digit of `f`, a missing digit counting as zero.
pub open spec fn digit_at(f: Seq<char>, i: int) -> int {
    if 0 <= i < f.len() {
        f[i] as int - '0' as int
    } else {
        0
    }
}

/// A quality written as `0.` followed by `f`, in thousandths: the first
/// three digits of `f`, padded with zeros.
pub open spec fn thousandths(f: Seq<char>) -> int {
    100 * digit_at(f, 0) + 10 * digit_at(f, 1) + digit_at(f, 2)
}

/// The quality, in thousandths, that a trimmed `q` value denotes; `None` for
/// a value outside the accepted forms `1`, `0`, `1.000…` and `0.ddd…`.
pub open spec fn quality_of_value(v: Seq<char>) -> Option<u16> {
    if v == seq!['1'] {
        Some(1000)
    } else if v == seq!['0'] {
        Some(0)
    } else if starts_with(v, seq!['1', '.']) {
        if forall|i: int| 2 <= i < v.len() ==> v[i] == '0' {
            Some(1000)
        } else {
            None
        }
    } else if starts_with(v, seq!['0', '.']) {
        if v.len() > 2 && forall|i: int| 2 <= i < v.len() ==> is_digit(#[trigger] v[i]) {
            Some(thousandths(v.skip(2)) as u16)
        } else {
            None
        }
    } else {
        None
    }
}

pub open spec fn is_equals() -> spec_fn(char) -> bool {
    |c: char| c == '='
}

/// The quality of a `name=value` parameter: the trimmed text after the first
/// `=`, read by `quality_of_value`; `None` when there is no `=`.
pub open spec fn param_quality(param: Seq<char>) -> Option<u16> {
    match find_first(param, is_equals()) {
        None => None,
        Some(k) => quality_of_value(trim(param.skip(k + 1int))),
    }
}

/// The quality given by the first parameter that starts with `q=` once
/// trimmed, or 1000 when no parameter does.
pub open spec fn params_quality(params: Seq<Seq<char>>) -> Option<u16>
    decreases params.len(),
{
    if params.len() == 0 {
        Some(1000)
    } else if starts_with(trim(params[0]), seq!['q', '=']) {
        param_quality(trim(params[0]))
    } else {
        params_quality(params.drop_first())
    }
}

/// One comma-separated entry of the header: its lower-cased language tag and
/// its quality, or `None` when the tag is blank or the `q` value is malformed.
pub open spec fn weighted_language(token: Seq<char>) -> Option<(Seq<char>, u16)> {
    let parts = split_on(token, ';');
    let language = trim(parts[0]);
    if language.len() == 0 {
        None
    } else {
        match params_quality(parts.drop_first()) {
            Some(q) => Some((ascii_lower(language), q)),
            None => None,
        }
    }
}

pub open spec fn is_subtag_sep() -> spec_fn(char) -> bool {
    |c: char| c == '-' || c == '_'
}

/// The part of a locale before its first `-` or `_`.
pub open spec fn primary_subtag(s: Seq<char>) -> Seq<char> {
    match find_first(s, is_subtag_sep()) {
        None => s,
        Some(k) => s.take(k as int),
    }
}

/// 2 for an exact (ASCII case-insensitive) match, 1 for a match of the
/// primary subtags only, 0 otherwise.
pub open spec fn match_score_of(requested: Seq<char>, supported: Seq<char>) -> u8 {
    let s = ascii_lower(supported);
    if requested == s {
        2
    } else if primary_subtag(requested) == primary_subtag(s) {
        1
    } else {
        0
    }
}

pub open spec fn header_tokens(header: Seq<char>) -> Seq<Seq<char>> {
    split_on(header, ',')
}

pub open spec fn quality_at(tokens: Seq<Seq<char>>, i: int) -> u16 {
    weighted_language(tokens[i]).unwrap().1
}

pub open spec fn score_at(tokens: Seq<Seq<char>>, sup: Seq<Seq<char>>, i: int, j: int) -> u8 {
    match_score_of(weighted_language(tokens[i]).unwrap().0, sup[j])
}

/// Entry `i` of the header matches supported locale `j`.
pub open spec fn is_candidate(tokens: Seq<Seq<char>>, sup: Seq<Seq<char>>, i: int, j: int) -> bool {
    &&& 0 <= i < tokens.len()
    &&& 0 <= j < sup.len()
    &&& weighted_language(tokens[i]) is Some
    &&& score_at(tokens, sup, i, j) > 0
}

/// Candidate `(i2, j2)` ranks above `(i, j)`: higher quality, then better
/// score, then earlier header entry, then earlier supported locale.
pub open spec fn outranks(
    tokens: Seq<Seq<char>>,
    sup: Seq<Seq<char>>,
    i2: int,
    j2: int,
    i: int,
    j: int,
) -> bool {
    let q2 = quality_at(tokens, i2);
    let q = quality_at(tokens, i);
    let s2 = score_at(tokens, sup, i2, j2);
    let s = score_at(tokens, sup, i, j);
    ||| q2 > q
    ||| (q2 == q && s2 > s)
    ||| (q2 == q && s2 == s && i2 < i)
    ||| (q2 == q && s2 == s && i2 == i && j2 < j)
}

pub open spec fn is_best(tokens: Seq<Seq<char>>, sup: Seq<Seq<char>>, i: int, j: int) -> bool {
    &&& is_candidate(tokens, sup, i, j)
    &&& forall|i2: int, j2: int|
        #[trigger] is_candidate(tokens, sup, i2, j2) ==> !outranks(tokens, sup, i2, j2, i, j)
}

/// The locale that `header` selects among `sup`: the supported locale of the
/// top-ranked candidate, or `default` when no entry matches any locale.
pub open spec fn resolve_spec(header: Seq<char>, sup: Seq<Seq<char>>, default: Seq<char>) -> Seq<
    char,
> {
    let tokens = header_tokens(header);
    if exists|i: int, j: int| is_best(tokens, sup, i, j) {
        let (i, j) = choose|i: int, j: int| is_best(tokens, sup, i, j);
        sup[j]
    } else {
        default
    }
}

pub open spec fn str_views(s: Seq<&str>) -> Seq<Seq<char>> {
    s.map_values(|x: &str| x@)
}

pub proof fn lemma_best_unique(
    tokens: Seq<Seq<char>>,
    sup: Seq<Seq<char>>,
    i: int,
    j: int,
    i2: int,
    j2: int,
)
    requires
        is_best(tokens, sup, i, j),
        is_best(tokens, sup, i2, j2),
    ensures
        i == i2 && j == j2,
{
    assert(!outranks(tokens, sup, i2, j2, i, j));
    assert(!outranks(tokens, sup, i, j, i2, j2));
}

/// The top-ranked candidate decides the result.
pub proof fn lemma_resolve_best(
    header: Seq<char>,
    sup: Seq<Seq<char>>,
    default: Seq<char>,
    i: int,
    j: int,
)
    requires
        is_best(header_tokens(header), sup, i, j),
    ensures
        resolve_spec(header, sup, default) == sup[j],
{
    let tokens = header_tokens(header);
    let (i2, j2) = choose|i2: int, j2: int| is_best(tokens, sup, i2, j2);
    lemma_best_unique(tokens, sup, i, j, i2, j2);
}

/// Candidate `(i2, j2)` comes before the scan position `(i, n)`: an earlier
/// header entry, or entry `i` with a supported locale before `n`.
pub open spec fn scanned(sup: Seq<Seq<char>>, i: int, n: int, i2: int, j2: int) -> bool {
    (i2 < i && 0 <= j2 < sup.len()) || (i2 == i && 0 <= j2 < n)
}

/// The top-ranked candidate among those scanned before `(i, n)`, if any.
pub proof fn lemma_best_scanned(tokens: Seq<Seq<char>>, sup: Seq<Seq<char>>, i: int, n: int) -> (r:
    Option<(int, int)>)
    requires
        0 <= i <= tokens.len(),
        0 <= n <= sup.len(),
        i == tokens.len() ==> n == 0,
    ensures
        r is None ==> forall|i2: int, j2: int|
            scanned(sup, i, n, i2, j2) ==> !#[trigger] is_candidate(tokens, sup, i2, j2),
        r matches Some((a, b)) ==> {
            &&& scanned(sup, i, n, a, b)
            &&& is_candidate(tokens, sup, a, b)
            &&& forall|i2: int, j2: int|
                scanned(sup, i, n, i2, j2) && #[trigger] is_candidate(tokens, sup, i2, j2)
                    ==> !outranks(tokens, sup, i2, j2, a, b)
        },
    decreases i, n,
{
    if n > 0 {
        let prev = lemma_best_scanned(tokens, sup, i, n - 1);
        let j = n - 1;
        if !is_candidate(tokens, sup, i, j) {
            prev
        } else {
            match prev {
                None => Some((i, j)),
                Some((a, b)) => {
                    if outranks(tokens, sup, i, j, a, b) {
                        Some((i, j))
                    } else {
                        prev
                    }
                },
            }
        }
    } else if i > 0 {
        lemma_best_scanned(tokens, sup, i - 1, sup.len() as int)
    } else {
        None
    }
}

/// What resolution gives: `default` exactly when no header entry matches a
/// supported locale; otherwise the supported locale of a top-ranked
/// candidate (one that no other candidate outranks).
pub proof fn law_resolve_outcome(header: Seq<char>, sup: Seq<Seq<char>>, default: Seq<char>)
    ensures
        (forall|i: int, j: int| !#[trigger] is_candidate(header_tokens(header), sup, i, j))
            ==> resolve_spec(header, sup, default) == default,
        (exists|i: int, j: int| #[trigger] is_candidate(header_tokens(header), sup, i, j))
            ==> exists|i: int, j: int|
            #[trigger] is_best(header_tokens(header), sup, i, j) && resolve_spec(
                header,
                sup,
                default,
            ) == sup[j],
{
    let tokens = header_tokens(header);
    if exists|i: int, j: int| #[trigger] is_candidate(tokens, sup, i, j) {
        let (i0, j0) = choose|i: int, j: int| #[trigger] is_candidate(tokens, sup, i, j);
        let r = lemma_best_scanned(tokens, sup, tokens.len() as int, 0);
        assert(scanned(sup, tokens.len() as int, 0, i0, j0));
        let (a, b) = r.unwrap();
        assert forall|i2: int, j2: int| #[trigger] is_candidate(tokens, sup, i2, j2) implies !outranks(
            tokens,
            sup,
            i2,
            j2,
            a,
            b,
        ) by {
            assert(scanned(sup, tokens.len() as int, 0, i2, j2));
        }
        assert(is_best(tokens, sup, a, b));
        lemma_resolve_best(header, sup, default, a, b);
    } else {
        assert(!exists|i: int, j: int| is_best(tokens, sup, i, j));
    }
}

/// `q=1` is full quality: the value `1` reads as 1000 thousandths, and a
/// header entry `L;q=1` weighs exactly as much as `L` with no parameter, for
/// every language tag `L`.
pub proof fn law_q_one_is_full_quality(language: Seq<char>)
    requires
        forall|i: int| 0 <= i < language.len() ==> language[i] != ';',
    ensures
        quality_of_value(seq!['1']) == Some(1000u16),
        weighted_language(language.push(';') + seq!['q', '=', '1']) == weighted_language(
            language,
        ),
{
    let q = seq!['q', '=', '1'];
    lemma_split_without_sep(language, ';');
    lemma_split_without_sep(q, ';');
    lemma_split_append(language, ';', q);
    let parts = split_on(language.push(';') + q, ';');
    assert(parts == seq![language, q]);
    assert(parts.drop_first() =~= seq![q]);
    assert(seq![language].drop_first() =~= Seq::<Seq<char>>::empty());
    // `q=1` is already trimmed.
    lemma_find_first(q, not_white(), 0);
    lemma_find_last(q, not_white(), 3);
    assert(q.subrange(0, 3) =~= q);
    assert(trim(q) == q);
    assert(q.take(2) =~= seq!['q', '=']);
    // The value after `=` is `1`.
    lemma_find_first(q, is_equals(), 1);
    let one = seq!['1'];
    assert(q.skip(2) =~= one);
    lemma_find_first(one, not_white(), 0);
    lemma_find_last(one, not_white(), 1);
    assert(one.subrange(0, 1) =~= one);
    assert(param_quality(q) == Some(1000u16));
    assert(seq![q].drop_first() =~= Seq::<Seq<char>>::empty());
    assert(params_quality(seq![q]) == Some(1000u16));
}

// ---------------------------------------------------------------------------
// Implementation
// ---------------------------------------------------------------------------

fn quality_from_value(v: &[char]) -> (r: Option<u16>)
    ensures
        r == quality_of_value(v@),
{
    let n = v.len();
    if n == 1 && v[0] == '1' {
        assert(v@ =~= seq!['1']);
        return Some(1000);
    }
    if n == 1 && v[0] == '0' {
        assert(v@ =~= seq!['0']);
        return Some(0);
    }
    assert(v@ != seq!['1'] && v@ != seq!['0']) by {
        if n == 1 {
            assert(v@ == seq!['1'] ==> v@[0] == '1');
            assert(v@ == seq!['0'] ==> v@[0] == '0');
        }
    }
    if n >= 2 && v[0] == '1' && v[1] == '.' {
        assert(starts_with(v@, seq!['1', '.'])) by {
            assert(v@.take(2) =~= seq!['1', '.']);
        }
        let mut i: usize = 2;
        while i < n
            invariant
                n == v@.len(),
                2 <= i <= n,
                v@ != seq!['1'] && v@ != seq!['0'],
                starts_with(v@, seq!['1', '.']),
                forall|k: int| 2 <= k < i ==> v@[k] == '0',
            decreases n - i,
        {
            if v[i] != '0' {
                assert(v@[i as int] != '0');
                return None;
            }
            i = i + 1;
        }
        return Some(1000);
    }
    assert(!starts_with(v@, seq!['1', '.'])) by {
        if starts_with(v@, seq!['1', '.']) {
            assert(v@.take(2)[0] == '1' && v@.take(2)[1] == '.');
        }
    }
    if n >= 2 && v[0] == '0' && v[1] == '.' {
        assert(starts_with(v@, seq!['0', '.'])) by {
            assert(v@.take(2) =~= seq!['0', '.']);
        }
        if n == 2 {
            return None;
        }
        let mut i: usize = 2;
        while i < n
            invariant
                n == v@.len(),
                2 <= i <= n,
                v@ != seq!['1'] && v@ != seq!['0'],
                !starts_with(v@, seq!['1', '.']),
                starts_with(v@, seq!['0', '.']),
                forall|k: int| 2 <= k < i ==> is_digit(#[trigger] v@[k]),
            decreases n - i,
        {
            if !('0' <= v[i] && v[i] <= '9') {
                return None;
            }
            i = i + 1;
        }
        let d0 = (v[2] as u32) - ('0' as u32);
        let d1: u32 = if n > 3 {
            (v[3] as u32) - ('0' as u32)
        } else {
            0
        };
        let d2: u32 = if n > 4 {
            (v[4] as u32) - ('0' as u32)
        } else {
            0
        };
        let ghost f = v@.skip(2);
        assert(digit_at(f, 0) == d0);
        assert(digit_at(f, 1) == d1);
        assert(digit_at(f, 2) == d2);
        return Some((100 * d0 + 10 * d1 + d2) as u16);
    }
    assert(!starts_with(v@, seq!['0', '.'])) by {
        if starts_with(v@, seq!['0', '.']) {
            assert(v@.take(2)[0] == '0' && v@.take(2)[1] == '.');
        }
    }
    None
}

/// The quality of a `q=value` parameter.
fn parse_quality(param: &[char]) -> (r: Option<u16>)
    ensures
        r == param_quality(param@),
{
    let n = param.len();
    let mut k: usize = 0;
    while k < n && param[k] != '='
        invariant
            n == param@.len(),
            0 <= k <= n,
            forall|i: int| 0 <= i < k ==> !is_equals()(#[trigger] param@[i]),
        decreases n - k,
    {
        k = k + 1;
    }
    proof {
        lemma_find_first(param@, is_equals(), k as int);
    }
    if k == n {
        return None;
    }
    let rest = copy_range(param, k + 1, n);
    assert(rest@ =~= param@.skip(k + 1));
    let value = trim_chars(&rest);
    quality_from_value(&value)
}

/// The lower-cased language tag and quality of one header entry.
fn parse_weighted_language(token: &[char]) -> (r: Option<(Vec<char>, u16)>)
    ensures
        match r {
            None => weighted_language(token@) is None,
            Some((language, q)) => weighted_language(token@) == Some((language@, q)),
        },
{
    let parts = split_chars(token, ';');
    let ghost pv = split_on(token@, ';');
    let language = trim_chars(&parts[0]);
    assert(parts@[0]@ == pv[0]);
    assert(language@ == trim(pv[0]));
    if language.len() == 0 {
        return None;
    }
    let q_prefix: Vec<char> = vec!['q', '='];
    assert(q_prefix@ =~= seq!['q', '=']);
    let mut k: usize = 1;
    assert(pv.skip(1) =~= pv.drop_first());
    while k < parts.len()
        invariant
            parts@.len() == pv.len(),
            forall|i: int| 0 <= i < parts@.len() ==> #[trigger] parts@[i]@ == pv[i],
            1 <= k <= parts@.len(),
            q_prefix@ == seq!['q', '='],
            params_quality(pv.drop_first()) == params_quality(pv.skip(k as int)),
            pv == split_on(token@, ';'),
            language@ == trim(pv[0]),
            language@.len() > 0,
        decreases parts@.len() - k,
    {
        let part = trim_chars(&parts[k]);
        assert(parts@[k as int]@ == pv[k as int]);
        assert(pv.skip(k as int)[0] == pv[k as int]);
        assert(pv.skip(k as int).len() > 0);
        if has_prefix(&part, &q_prefix) {
            let lower = to_ascii_lower(&language);
            match parse_quality(&part) {
                None => {
                    return None;
                },
                Some(q) => {
                    return Some((lower, q));
                },
            }
        }
        assert(pv.skip(k as int).drop_first() =~= pv.skip(k + 1));
        k = k + 1;
    }
    assert(pv.skip(k as int).len() == 0);
    Some((to_ascii_lower(&language), 1000))
}

/// The part of a locale before its first `-` or `_`.
fn primary_subtag_of(locale: &[char]) -> (r: Vec<char>)
    ensures
        r@ == primary_subtag(locale@),
{
    let n = locale.len();
    let mut k: usize = 0;
    while k < n && locale[k] != '-' && locale[k] != '_'
        invariant
            n == locale@.len(),
            0 <= k <= n,
            forall|i: int| 0 <= i < k ==> !is_subtag_sep()(#[trigger] locale@[i]),
        decreases n - k,
    {
        k = k + 1;
    }
    proof {
        lemma_find_first(locale@, is_subtag_sep(), k as int);
    }
    if k == n {
        assert(locale@.take(n as int) =~= locale@);
    }
    copy_range(locale, 0, k)
}

fn match_score(requested: &[char], supported: &[char]) -> (r: u8)
    ensures
        r == match_score_of(requested@, supported@),
{
    let supported = to_ascii_lower(supported);
    if chars_equal(requested, &supported) {
        return 2;
    }
    let a = primary_subtag_of(requested);
    let b = primary_subtag_of(&supported);
    if chars_equal(&a, &b) {
        return 1;
    }
    0
}

fn resolve_accept_language_impl<'a>(
    header: &str,
    supported_locales: &[&'a str],
    default_locale: &'a str,
) -> (r: &'a str)
    ensures
        r@ == resolve_spec(header@, str_views(supported_locales@), default_locale@),
{
    let ghost sup = str_views(supported_locales@);
    let h = chars_of(header);
    let tokens = split_chars(&h, ',');
    let ghost tv = header_tokens(header@);
    let mut sup_chars: Vec<Vec<char>> = Vec::new();
    let mut j: usize = 0;
    while j < supported_locales.len()
        invariant
            sup == str_views(supported_locales@),
            0 <= j <= supported_locales@.len(),
            sup_chars@.len() == j,
            forall|k: int| 0 <= k < j ==> #[trigger] sup_chars@[k]@ == sup[k],
        decreases supported_locales@.len() - j,
    {
        sup_chars.push(chars_of(supported_locales[j]));
        j = j + 1;
    }
    // The best candidate so far: (supported index, quality, score, header index).
    let mut best: Option<(usize, u16, u8, usize)> = None;
    let mut order: usize = 0;
    while order < tokens.len()
        invariant
            sup == str_views(supported_locales@),
            sup.len() == supported_locales@.len(),
            sup_chars@.len() == sup.len(),
            forall|k: int| 0 <= k < sup.len() ==> #[trigger] sup_chars@[k]@ == sup[k],
            tokens@.len() == tv.len(),
            forall|k: int| 0 <= k < tv.len() ==> #[trigger] tokens@[k]@ == tv[k],
            0 <= order <= tokens@.len(),
            best is None ==> forall|i2: int, j2: int|
                i2 < order ==> !#[trigger] is_candidate(tv, sup, i2, j2),
            best matches Some((jb, qb, sb, ib)) ==> {
                &&& ib < order
                &&& is_candidate(tv, sup, ib as int, jb as int)
                &&& qb == quality_at(tv, ib as int)
                &&& sb == score_at(tv, sup, ib as int, jb as int)
                &&& forall|i2: int, j2: int|
                    i2 < order && #[trigger] is_candidate(tv, sup, i2, j2) ==> !outranks(
                        tv,
                        sup,
                        i2,
                        j2,
                        ib as int,
                        jb as int,
                    )
            },
        decreases tokens@.len() - order,
    {
        let parsed = parse_weighted_language(&tokens[order]);
        if let Some((language, quality)) = parsed {
            let mut j: usize = 0;
            while j < supported_locales.len()
                invariant
                    sup.len() == supported_locales@.len(),
                    sup_chars@.len() == sup.len(),
                    forall|k: int| 0 <= k < sup.len() ==> #[trigger] sup_chars@[k]@ == sup[k],
                    tokens@.len() == tv.len(),
                    0 <= order < tv.len(),
                    weighted_language(tv[order as int]) == Some((language@, quality)),
                    0 <= j <= sup.len(),
                    best is None ==> forall|i2: int, j2: int|
                        (i2 < order || (i2 == order && j2 < j)) ==> !#[trigger] is_candidate(
                            tv,
                            sup,
                            i2,
                            j2,
                        ),
                    best matches Some((jb, qb, sb, ib)) ==> {
                        &&& ib <= order
                        &&& (ib < order || jb < j)
                        &&& is_candidate(tv, sup, ib as int, jb as int)
                        &&& qb == quality_at(tv, ib as int)
                        &&& sb == score_at(tv, sup, ib as int, jb as int)
                        &&& forall|i2: int, j2: int|
                            (i2 < order || (i2 == order && j2 < j)) && #[trigger] is_candidate(
                                tv,
                                sup,
                                i2,
                                j2,
                            ) ==> !outranks(tv, sup, i2, j2, ib as int, jb as int)
                    },
                decreases sup.len() - j,
            {
                let score = match_score(&language, &sup_chars[j]);
                assert(score == score_at(tv, sup, order as int, j as int));
                if score != 0 {
                    let is_better = match best {
                        None => true,
                        Some((_, best_quality, best_score, best_order)) => {
                            quality > best_quality || (quality == best_quality && (score
                                > best_score || (score == best_score && order < best_order)))
                        },
                    };
                    if is_better {
                        best = Some((j, quality, score, order));
                    }
                }
                j = j + 1;
            }
        }
        order = order + 1;
    }
    match best {
        Some((jb, _, _, ib)) => {
            proof {
                assert forall|i2: int, j2: int| #[trigger]
                    is_candidate(tv, sup, i2, j2) implies !outranks(
                    tv,
                    sup,
                    i2,
                    j2,
                    ib as int,
                    jb as int,
                ) by {}
                lemma_resolve_best(header@, sup, default_locale@, ib as int, jb as int);
            }
            supported_locales[jb]
        },
        None => {
            assert(!exists|i: int, j: int| is_best(tv, sup, i, j)) by {
                assert forall|i: int, j: int| !is_best(tv, sup, i, j) by {
                    if is_best(tv, sup, i, j) {
                        assert(is_candidate(tv, sup, i, j));
                    }
                }
            }
            default_locale
        },
    }
}

/// Resolves an `Accept-Language` header against a supported locale list.
///
/// Entries with a higher `q` value win, then exact (ASCII case-insensitive)
/// matches over primary-language matches such as `es-ES` -> `es`, then the
/// earlier header entry, then the earlier supported locale. When no entry
/// matches any supported locale, `default_locale` is returned.
pub fn resolve_accept_language<'a>(
    header: &str,
    supported_locales: &[&'a str],
    default_locale: &'a str,
) -> (r: &'a str)
    ensures
        r@ == resolve_spec(header@, str_views(supported_locales@), default_locale@),
{
    resolve_accept_language_impl(header, supported_locales, default_locale)
}

/// Resolves an `Accept-Language` header against a runtime locale list and
/// returns the chosen locale as an owned `String`.
pub fn resolve_accept_language_owned(
    header: &str,
    supported_locales: &[String],
    default_locale: &str,
) -> (r: String)
    ensures
        r@ == resolve_spec(header@, string_views(supported_locales@), default_locale@),
{
    let mut refs: Vec<&str> = Vec::new();
    let mut i: usize = 0;
    while i < supported_locales.len()
        invariant
            0 <= i <= supported_locales@.len(),
            refs@.len() == i,
            forall|k: int| 0 <= k < i ==> #[trigger] refs@[k]@ == supported_locales@[k]@,
        decreases supported_locales@.len() - i,
    {
        refs.push(supported_locales[i].as_str());
        i = i + 1;
    }
    assert(str_views(refs@) =~= string_views(supported_locales@));
    let chosen = resolve_accept_language_impl(header, refs.as_slice(), default_locale);
    chosen.to_owned()
}

} // verus!
