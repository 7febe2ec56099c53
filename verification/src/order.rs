//! Lexicographic order on character sequences (code point by code point,
//! which is the byte order of their UTF-8 encodings), and sorting by it.
use vstd::prelude::*;

use crate::text::{chars_of, string_views};

verus! {

broadcast use vstd::string::group_string_axioms;

/// `a` comes strictly before `b`.
pub open spec fn seq_lt(a: Seq<char>, b: Seq<char>) -> bool
    decreases a.len(),
{
    if a.len() == 0 {
        b.len() > 0
    } else if b.len() == 0 {
        false
    } else if a[0] != b[0] {
        a[0] < b[0]
    } else {
        seq_lt(a.drop_first(), b.drop_first())
    }
}

/// Each element comes strictly before the next ones.
pub open spec fn strictly_sorted(s: Seq<Seq<char>>) -> bool {
    forall|i: int, j: int| 0 <= i < j < s.len() ==> seq_lt(#[trigger] s[i], #[trigger] s[j])
}

pub proof fn lemma_lt_transitive(a: Seq<char>, b: Seq<char>, c: Seq<char>)
    requires
        seq_lt(a, b),
        seq_lt(b, c),
    ensures
        seq_lt(a, c),
    decreases a.len(),
{
    if a.len() > 0 && b.len() > 0 && c.len() > 0 && a[0] == b[0] && b[0] == c[0] {
        lemma_lt_transitive(a.drop_first(), b.drop_first(), c.drop_first());
    }
}

pub proof fn lemma_lt_total(a: Seq<char>, b: Seq<char>)
    ensures
        a == b || seq_lt(a, b) || seq_lt(b, a),
    decreases a.len(),
{
    if a.len() > 0 && b.len() > 0 && a[0] == b[0] {
        lemma_lt_total(a.drop_first(), b.drop_first());
        if a.drop_first() == b.drop_first() {
            assert(a =~= seq![a[0]] + a.drop_first());
            assert(b =~= seq![b[0]] + b.drop_first());
        }
    } else if a.len() == 0 && b.len() == 0 {
        assert(a =~= b);
    }
}

/// Whether `a` comes strictly before `b`.
pub fn chars_lt(a: &[char], b: &[char]) -> (r: bool)
    ensures
        r == seq_lt(a@, b@),
{
    let mut i: usize = 0;
    assert(a@.skip(0) =~= a@);
    assert(b@.skip(0) =~= b@);
    while i < a.len() && i < b.len() && a[i] == b[i]
        invariant
            0 <= i <= a@.len(),
            i <= b@.len(),
            seq_lt(a@, b@) == seq_lt(a@.skip(i as int), b@.skip(i as int)),
        decreases a@.len() - i,
    {
        assert(a@.skip(i as int).drop_first() =~= a@.skip(i + 1));
        assert(b@.skip(i as int).drop_first() =~= b@.skip(i + 1));
        i = i + 1;
    }
    if i == a.len() {
        i < b.len()
    } else if i == b.len() {
        false
    } else {
        a[i] < b[i]
    }
}

/// Inserting `x` at the position that the order gives keeps a sorted
/// sequence sorted.
pub proof fn lemma_insert_sorted(s: Seq<Seq<char>>, x: Seq<char>, p: int)
    requires
        0 <= p <= s.len(),
        strictly_sorted(s),
        forall|k: int| 0 <= k < p ==> seq_lt(#[trigger] s[k], x),
        forall|k: int| p <= k < s.len() ==> seq_lt(x, #[trigger] s[k]),
    ensures
        strictly_sorted(s.insert(p, x)),
{
    let t = s.insert(p, x);
    assert forall|i: int, j: int| 0 <= i < j < t.len() implies seq_lt(
        #[trigger] t[i],
        #[trigger] t[j],
    ) by {
        if j < p {
            assert(t[i] == s[i] && t[j] == s[j]);
        } else if j == p {
            assert(t[i] == s[i]);
        } else if i == p {
            assert(t[j] == s[j - 1]);
        } else if i < p {
            assert(t[i] == s[i] && t[j] == s[j - 1]);
            lemma_lt_transitive(s[i], x, s[j - 1]);
        } else {
            assert(t[i] == s[i - 1] && t[j] == s[j - 1]);
        }
    }
}

/// In a sorted sequence that lacks `x`, everything from the first element
/// not below `x` on comes after `x`.
pub proof fn lemma_rest_above(s: Seq<Seq<char>>, x: Seq<char>, p: int)
    requires
        0 <= p <= s.len(),
        strictly_sorted(s),
        !s.contains(x),
        p < s.len() ==> !seq_lt(s[p], x),
    ensures
        forall|k: int| p <= k < s.len() ==> seq_lt(x, #[trigger] s[k]),
{
    assert forall|k: int| p <= k < s.len() implies seq_lt(x, #[trigger] s[k]) by {
        lemma_lt_total(x, s[p]);
        assert(s[p] != x);
        if k > p {
            assert(seq_lt(s[p], s[k]));
            lemma_lt_transitive(x, s[p], s[k]);
        }
    }
}

/// `names` in strictly increasing order; `names` holds no name twice.
pub fn sort_names(names: Vec<String>) -> (r: Vec<String>)
    requires
        forall|i: int, j: int|
            0 <= i < j < names@.len() ==> #[trigger] names@[i]@ != #[trigger] names@[j]@,
    ensures
        strictly_sorted(string_views(r@)),
        forall|x: Seq<char>| string_views(r@).contains(x) <==> string_views(names@).contains(x),
{
    let ghost nv = string_views(names@);
    let mut r: Vec<String> = Vec::new();
    let mut keys: Vec<Vec<char>> = Vec::new();
    let mut n: usize = 0;
    while n < names.len()
        invariant
            nv == string_views(names@),
            0 <= n <= names@.len(),
            forall|i: int, j: int| 0 <= i < j < nv.len() ==> #[trigger] nv[i] != #[trigger] nv[j],
            r@.len() == keys@.len(),
            forall|k: int| 0 <= k < keys@.len() ==> #[trigger] keys@[k]@ == r@[k]@,
            strictly_sorted(string_views(r@)),
            forall|x: Seq<char>| string_views(r@).contains(x) <==> nv.take(n as int).contains(x),
        decreases names@.len() - n,
    {
        let ghost sv = string_views(r@);
        let name = names[n].clone();
        let key = chars_of(name.as_str());
        assert(key@ == nv[n as int]);
        let mut p: usize = 0;
        while p < keys.len() && chars_lt(&keys[p], &key)
            invariant
                0 <= p <= keys@.len(),
                sv.len() == keys@.len(),
                forall|k: int| 0 <= k < keys@.len() ==> #[trigger] keys@[k]@ == sv[k],
                forall|k: int| 0 <= k < p ==> seq_lt(#[trigger] sv[k], key@),
            decreases keys@.len() - p,
        {
            p = p + 1;
        }
        proof {
            assert(!sv.contains(key@)) by {
                if sv.contains(key@) {
                    let i = choose|i: int| 0 <= i < n && nv.take(n as int)[i] == key@;
                    assert(nv[i] == nv[n as int]);
                }
            }
            lemma_rest_above(sv, key@, p as int);
            lemma_insert_sorted(sv, key@, p as int);
        }
        let ghost old_keys = keys@;
        r.insert(p, name);
        keys.insert(p, key);
        proof {
            assert(string_views(r@) =~= sv.insert(p as int, nv[n as int]));
            assert(nv.take(n + 1) =~= nv.take(n as int).push(nv[n as int]));
            assert forall|x: Seq<char>| string_views(r@).contains(x) <==> nv.take(
                n + 1,
            ).contains(x) by {
                if sv.insert(p as int, nv[n as int]).contains(x) && x != nv[n as int] {
                    let i = choose|i: int|
                        0 <= i < r@.len() && sv.insert(p as int, nv[n as int])[i] == x;
                    if i < p {
                        assert(sv[i] == x);
                    } else {
                        assert(sv[i - 1] == x);
                    }
                    assert(sv.contains(x));
                    let m = choose|m: int| 0 <= m < n && nv.take(n as int)[m] == x;
                    assert(nv.take(n + 1)[m] == x);
                }
                let t1 = nv.take(n + 1);
                if t1.contains(x) {
                    let m = choose|m: int| 0 <= m < t1.len() && t1[m] == x;
                    if m < n {
                        assert(nv.take(n as int)[m] == x);
                        assert(nv.take(n as int).contains(x));
                    }
                }
                if x == nv[n as int] {
                    assert(nv.take(n + 1)[n as int] == x);
                }
                if sv.contains(x) {
                    let i = choose|i: int| 0 <= i < sv.len() && sv[i] == x;
                    if i < p {
                        assert(string_views(r@)[i] == x);
                    } else {
                        assert(string_views(r@)[i + 1] == x);
                    }
                }
                if x == nv[n as int] {
                    assert(string_views(r@)[p as int] == x);
                }
            }
            assert forall|k: int| 0 <= k < keys@.len() implies #[trigger] keys@[k]@ == r@[k]@ by {
                if k < p {
                    assert(keys@[k] == old_keys[k]);
                } else if k > p {
                    assert(keys@[k] == old_keys[k - 1]);
                }
            }
        }
        n = n + 1;
    }
    assert(nv.take(names@.len() as int) =~= nv);
    r
}

} // verus!
