//! Small sequence vocabulary shared by the window-manager model.
use vstd::prelude::*;

use crate::ids::{TextKey, same_key};

verus! {

/// Some element of `s` has the text `t`.
pub open spec fn has_text<K: TextKey>(s: Seq<K>, t: Seq<char>) -> bool {
    exists|i: int| 0 <= i < s.len() && #[trigger] s[i].key_text() == t
}

/// The elements of `s` that satisfy `p`, in order.
pub open spec fn keep_where<T>(s: Seq<T>, p: spec_fn(T) -> bool) -> Seq<T>
    decreases s.len(),
{
    if s.len() == 0 {
        Seq::empty()
    } else {
        let r = keep_where(s.drop_last(), p);
        if p(s.last()) {
            r.push(s.last())
        } else {
            r
        }
    }
}

/// `acc` followed by the elements of `s` that satisfy `p` and whose text
/// is not already present, each added once, in order of first appearance.
pub open spec fn append_new<K: TextKey>(acc: Seq<K>, s: Seq<K>, p: spec_fn(K) -> bool) -> Seq<K>
    decreases s.len(),
{
    if s.len() == 0 {
        acc
    } else {
        let a = append_new(acc, s.drop_last(), p);
        let x = s.last();
        if p(x) && !has_text(a, x.key_text()) {
            a.push(x)
        } else {
            a
        }
    }
}

pub proof fn lemma_keep_where_step<T>(s: Seq<T>, p: spec_fn(T) -> bool, i: int)
    requires
        0 <= i < s.len(),
    ensures
        keep_where(s.take(i + 1), p) == (if p(s[i]) {
            keep_where(s.take(i), p).push(s[i])
        } else {
            keep_where(s.take(i), p)
        }),
{
    assert(s.take(i + 1).drop_last() =~= s.take(i));
    assert(s.take(i + 1).last() == s[i]);
}

pub proof fn lemma_append_new_step<K: TextKey>(acc: Seq<K>, s: Seq<K>, p: spec_fn(K) -> bool, i: int)
    requires
        0 <= i < s.len(),
    ensures
        append_new(acc, s.take(i + 1), p) == ({
            let a = append_new(acc, s.take(i), p);
            if p(s[i]) && !has_text(a, s[i].key_text()) {
                a.push(s[i])
            } else {
                a
            }
        }),
{
    assert(s.take(i + 1).drop_last() =~= s.take(i));
    assert(s.take(i + 1).last() == s[i]);
}

pub proof fn lemma_take_all<T>(s: Seq<T>)
    ensures
        s.take(s.len() as int) == s,
{
    assert(s.take(s.len() as int) =~= s);
}

/// Index of the first element satisfying `p`, or -1.
pub open spec fn first_index<T>(s: Seq<T>, p: spec_fn(T) -> bool) -> int
    decreases s.len(),
{
    if s.len() == 0 {
        -1
    } else if p(s[0]) {
        0
    } else {
        let r = first_index(s.drop_first(), p);
        if r < 0 {
            -1
        } else {
            r + 1
        }
    }
}

pub proof fn lemma_first_index<T>(s: Seq<T>, p: spec_fn(T) -> bool)
    ensures
        -1 <= first_index(s, p) < s.len(),
        first_index(s, p) == -1 <==> (forall|i: int| 0 <= i < s.len() ==> !p(#[trigger] s[i])),
        first_index(s, p) >= 0 ==> p(s[first_index(s, p)]),
        forall|j: int| 0 <= j < first_index(s, p) ==> !p(#[trigger] s[j]),
        forall|i: int|
            0 <= i < s.len() && p(#[trigger] s[i]) && (forall|j: int| 0 <= j < i ==> !p(s[j]))
                ==> i == first_index(s, p),
    decreases s.len(),
{
    if s.len() > 0 {
        lemma_first_index(s.drop_first(), p);
        let r = first_index(s.drop_first(), p);
        assert forall|i: int| 0 <= i < s.len() - 1 implies #[trigger] s.drop_first()[i] == s[i + 1] by {}
        if !p(s[0]) {
            if r < 0 {
                assert forall|i: int| 0 <= i < s.len() implies !p(#[trigger] s[i]) by {
                    if i > 0 {
                        assert(s.drop_first()[i - 1] == s[i]);
                    }
                }
            } else {
                assert forall|j: int| 0 <= j < r + 1 implies !p(#[trigger] s[j]) by {
                    if j > 0 {
                        assert(s.drop_first()[j - 1] == s[j]);
                    }
                }
                assert forall|i: int|
                    0 <= i < s.len() && p(#[trigger] s[i]) && (forall|j: int| 0 <= j < i ==> !p(s[j]))
                        implies i == r + 1 by {
                    assert(i > 0);
                    assert(s.drop_first()[i - 1] == s[i]);
                    assert forall|j: int| 0 <= j < i - 1 implies !p(#[trigger] s.drop_first()[j]) by {
                        assert(s.drop_first()[j] == s[j + 1]);
                    }
                }
            }
        }
    }
}

/// The first element satisfying `p`, if any.
pub open spec fn first_where<T>(s: Seq<T>, p: spec_fn(T) -> bool) -> Option<T> {
    if first_index(s, p) >= 0 {
        Some(s[first_index(s, p)])
    } else {
        None
    }
}

/// Whether `k`'s text occurs in `v`.
pub fn contains_text<K: TextKey>(v: &Vec<K>, k: &K) -> (r: bool)
    ensures
        r == has_text(v@, k.key_text()),
{
    let mut i: usize = 0;
    while i < v.len()
        invariant
            i <= v@.len(),
            forall|j: int| 0 <= j < i ==> (#[trigger] v@[j]).key_text() != k.key_text(),
        decreases v@.len() - i,
    {
        if same_key(&v[i], k) {
            return true;
        }
        i = i + 1;
    }
    false
}

/// Position of the first element of `v` whose text is `k`'s.
pub fn position_of<K: TextKey>(v: &Vec<K>, k: &K) -> (r: Option<usize>)
    ensures
        match r {
            Some(i) => i < v@.len() && v@[i as int].key_text() == k.key_text()
                && forall|j: int| 0 <= j < i ==> (#[trigger] v@[j]).key_text() != k.key_text(),
            None => !has_text(v@, k.key_text()),
        },
{
    let mut i: usize = 0;
    while i < v.len()
        invariant
            i <= v@.len(),
            forall|j: int| 0 <= j < i ==> (#[trigger] v@[j]).key_text() != k.key_text(),
        decreases v@.len() - i,
    {
        if same_key(&v[i], k) {
            return Some(i);
        }
        i = i + 1;
    }
    None
}

/// Copies every key of `v` exactly.
pub fn copy_keys<K: TextKey>(v: &Vec<K>) -> (r: Vec<K>)
    ensures
        r@ == v@,
{
    let mut out: Vec<K> = Vec::new();
    let mut i: usize = 0;
    while i < v.len()
        invariant
            i <= v@.len(),
            out@ == v@.take(i as int),
        decreases v@.len() - i,
    {
        out.push(v[i].copy_key());
        assert(v@.take(i + 1) =~= v@.take(i as int).push(v@[i as int]));
        i = i + 1;
    }
    assert(v@.take(v@.len() as int) =~= v@);
    out
}


pub proof fn lemma_has_text_push<K: TextKey>(s: Seq<K>, x: K, t: Seq<char>)
    ensures
        has_text(s.push(x), t) == (has_text(s, t) || x.key_text() == t),
{
    if has_text(s.push(x), t) {
        let k = choose|k: int| 0 <= k < s.push(x).len() && #[trigger] s.push(x)[k].key_text() == t;
        if k < s.len() {
            assert(s[k] == s.push(x)[k]);
        }
    }
    if has_text(s, t) {
        let k = choose|k: int| 0 <= k < s.len() && #[trigger] s[k].key_text() == t;
        assert(s.push(x)[k] == s[k]);
    }
    if x.key_text() == t {
        assert(s.push(x)[s.len() as int] == x);
    }
}

pub proof fn lemma_has_text_append<K: TextKey>(a: Seq<K>, b: Seq<K>, t: Seq<char>)
    ensures
        has_text(a + b, t) == (has_text(a, t) || has_text(b, t)),
{
    if has_text(a + b, t) {
        let k = choose|k: int| 0 <= k < (a + b).len() && #[trigger] (a + b)[k].key_text() == t;
        if k < a.len() {
            assert(a[k] == (a + b)[k]);
        } else {
            assert(b[k - a.len()] == (a + b)[k]);
        }
    }
    if has_text(a, t) {
        let k = choose|k: int| 0 <= k < a.len() && #[trigger] a[k].key_text() == t;
        assert((a + b)[k] == a[k]);
    }
    if has_text(b, t) {
        let k = choose|k: int| 0 <= k < b.len() && #[trigger] b[k].key_text() == t;
        assert((a + b)[a.len() + k] == b[k]);
    }
}


/// No two elements of `s` share a text.
pub open spec fn distinct_texts<K: TextKey>(s: Seq<K>) -> bool {
    forall|i: int, j: int| 0 <= i < j < s.len() ==> #[trigger] s[i].key_text() != #[trigger] s[j].key_text()
}

/// Some element of `s` that satisfies `p` has the text `t`.
pub open spec fn offers<K: TextKey>(s: Seq<K>, p: spec_fn(K) -> bool, t: Seq<char>) -> bool {
    exists|k: int| 0 <= k < s.len() && p(s[k]) && #[trigger] s[k].key_text() == t
}

/// What `append_new` builds: `acc` unchanged in front, then only elements
/// of `s` that satisfy `p`; each text that `acc` or such an element has
/// occurs, and none twice when `acc` has none twice.
pub proof fn lemma_append_new_shape<K: TextKey>(acc: Seq<K>, s: Seq<K>, p: spec_fn(K) -> bool)
    ensures
        acc.len() <= append_new(acc, s, p).len(),
        append_new(acc, s, p).take(acc.len() as int) == acc,
        forall|i: int|
            acc.len() <= i < append_new(acc, s, p).len() ==> p(#[trigger] append_new(acc, s, p)[i]),
        distinct_texts(acc) ==> distinct_texts(append_new(acc, s, p)),
        forall|t: Seq<char>| #[trigger] has_text(append_new(acc, s, p), t) <==> (has_text(acc, t) || offers(s, p, t)),
    decreases s.len(),
{
    let r = append_new(acc, s, p);
    if s.len() == 0 {
        assert(acc.take(acc.len() as int) =~= acc);
        assert forall|t: Seq<char>| #[trigger] has_text(r, t) <==> (has_text(acc, t) || offers(s, p, t)) by {}
    } else {
        let d = s.drop_last();
        let a = append_new(acc, d, p);
        let x = s.last();
        lemma_append_new_shape(acc, d, p);
        assert forall|t: Seq<char>| offers(s, p, t) <==> (offers(d, p, t) || (p(x) && x.key_text() == t)) by {
            if offers(s, p, t) {
                let k = choose|k: int| 0 <= k < s.len() && p(s[k]) && #[trigger] s[k].key_text() == t;
                if k < d.len() {
                    assert(d[k] == s[k]);
                }
            }
            if offers(d, p, t) {
                let k = choose|k: int| 0 <= k < d.len() && p(d[k]) && #[trigger] d[k].key_text() == t;
                assert(s[k] == d[k]);
            }
            if p(x) && x.key_text() == t {
                assert(s[s.len() - 1] == x);
            }
        }
        if p(x) && !has_text(a, x.key_text()) {
            assert(r == a.push(x));
            assert(r.take(acc.len() as int) =~= a.take(acc.len() as int));
            assert forall|t: Seq<char>| #[trigger] has_text(r, t) <==> (has_text(acc, t) || offers(s, p, t)) by {
                lemma_has_text_push(a, x, t);
            }
            if distinct_texts(acc) {
                assert forall|i: int, j: int| 0 <= i < j < r.len() implies #[trigger] r[i].key_text()
                    != #[trigger] r[j].key_text() by {
                    if j == a.len() {
                        assert(r[i] == a[i]);
                        if r[i].key_text() == x.key_text() {
                            assert(has_text(a, x.key_text()));
                        }
                    } else {
                        assert(r[i] == a[i] && r[j] == a[j]);
                    }
                }
            }
            assert forall|i: int| acc.len() <= i < r.len() implies p(#[trigger] r[i]) by {
                if i < a.len() {
                    assert(r[i] == a[i]);
                }
            }
        } else {
            assert(r == a);
            assert forall|t: Seq<char>| #[trigger] has_text(r, t) <==> (has_text(acc, t) || offers(s, p, t)) by {
                if p(x) && x.key_text() == t {
                    assert(has_text(a, t));
                }
            }
        }
    }
}


/// Every element `keep_where` keeps satisfies `p`.
pub proof fn lemma_keep_where_all<T>(s: Seq<T>, p: spec_fn(T) -> bool)
    ensures
        forall|i: int| 0 <= i < keep_where(s, p).len() ==> p(#[trigger] keep_where(s, p)[i]),
    decreases s.len(),
{
    if s.len() > 0 {
        lemma_keep_where_all(s.drop_last(), p);
        let r = keep_where(s.drop_last(), p);
        assert forall|i: int| 0 <= i < keep_where(s, p).len() implies p(#[trigger] keep_where(s, p)[i]) by {
            if i < r.len() {
                assert(keep_where(s, p)[i] == r[i]);
            }
        }
    }
}

} // verus!
