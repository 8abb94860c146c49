//! An associative table keyed by text identifiers, kept in ascending key
//! order so that walking it visits keys as an ordered map does.
use vstd::prelude::*;

use crate::ids::TextKey;
use crate::text::{compare_text, text_lt, TextOrder, lemma_text_lt_irreflexive,
    lemma_text_lt_transitive, lemma_text_lt_asymmetric};

verus! {

/// Entries in strictly ascending order of their key text.
#[derive(Debug)]
pub struct IdMap<K, V> {
    entries: Vec<(K, V)>,
}

impl<K: TextKey, V> IdMap<K, V> {
    /// The entries, in ascending key order.
    pub closed spec fn entries(self) -> Seq<(K, V)> {
        self.entries@
    }

    pub open spec fn size(self) -> nat {
        self.entries().len()
    }

    pub open spec fn text_at(self, i: int) -> Seq<char> {
        self.entries()[i].0.key_text()
    }

    /// Key texts in ascending order.
    pub open spec fn texts(self) -> Seq<Seq<char>> {
        Seq::new(self.size(), |i: int| self.text_at(i))
    }

    /// Keys are strictly ascending (hence distinct).
    pub open spec fn wf(self) -> bool {
        forall|i: int, j: int|
            0 <= i < j < self.size() ==> text_lt(#[trigger] self.text_at(i), #[trigger] self.text_at(j))
    }

    pub open spec fn contains(self, t: Seq<char>) -> bool {
        exists|i: int| 0 <= i < self.size() && #[trigger] self.text_at(i) == t
    }

    pub open spec fn index_of(self, t: Seq<char>) -> int {
        choose|i: int| 0 <= i < self.size() && #[trigger] self.text_at(i) == t
    }

    /// The value stored under the key text `t`.
    pub open spec fn spec_get(self, t: Seq<char>) -> Option<V> {
        if self.contains(t) {
            Some(self.entries()[self.index_of(t)].1)
        } else {
            None
        }
    }

    pub proof fn lemma_index_of(self, i: int)
        requires
            self.wf(),
            0 <= i < self.size(),
        ensures
            self.contains(self.text_at(i)),
            self.index_of(self.text_at(i)) == i,
            self.spec_get(self.text_at(i)) == Some(self.entries()[i].1),
    {
        let t = self.text_at(i);
        assert(self.contains(t));
        let j = self.index_of(t);
        if j < i {
            lemma_text_lt_irreflexive(t);
        } else if j > i {
            lemma_text_lt_irreflexive(t);
        }
    }

    /// The key texts as a set.
    pub open spec fn key_set(self) -> Set<Seq<char>> {
        self.texts().to_set()
    }

    pub proof fn lemma_key_set(self)
        ensures
            self.key_set().finite(),
            forall|t: Seq<char>| #[trigger] self.key_set().contains(t) <==> self.contains(t),
    {
        broadcast use vstd::seq_lib::seq_to_set_is_finite;
        assert forall|t: Seq<char>| #[trigger] self.key_set().contains(t) <==> self.contains(t) by {
            if self.contains(t) {
                let i = choose|i: int| 0 <= i < self.size() && #[trigger] self.text_at(i) == t;
                assert(self.texts()[i] == t);
            }
            if self.key_set().contains(t) {
                let i = choose|i: int| 0 <= i < self.texts().len() && self.texts()[i] == t;
                assert(self.text_at(i) == t);
            }
        }
    }

    pub proof fn lemma_get_at(self, i: int, t: Seq<char>)
        requires
            self.wf(),
            0 <= i < self.size(),
            self.text_at(i) == t,
        ensures
            self.spec_get(t) == Some(self.entries()[i].1),
            self.index_of(t) == i,
    {
        self.lemma_index_of(i);
    }

    pub fn new() -> (r: Self)
        ensures
            r.entries() == Seq::<(K, V)>::empty(),
            r.wf(),
    {
        IdMap { entries: Vec::new() }
    }

    pub fn len(&self) -> (r: usize)
        ensures
            r == self.size(),
    {
        self.entries.len()
    }

    pub fn is_empty(&self) -> (r: bool)
        ensures
            r == (self.size() == 0),
    {
        self.entries.len() == 0
    }

    pub fn key_at(&self, i: usize) -> (r: &K)
        requires
            i < self.size(),
        ensures
            *r == self.entries()[i as int].0,
    {
        &self.entries[i].0
    }

    pub fn value_at(&self, i: usize) -> (r: &V)
        requires
            i < self.size(),
        ensures
            *r == self.entries()[i as int].1,
    {
        &self.entries[i].1
    }

    /// Where the key text `k` stands or would stand.
    fn search(&self, k: &K) -> (r: (bool, usize))
        requires
            self.wf(),
        ensures
            r.1 <= self.size(),
            forall|j: int| 0 <= j < r.1 ==> text_lt(#[trigger] self.text_at(j), k.key_text()),
            r.0 ==> r.1 < self.size() && self.text_at(r.1 as int) == k.key_text(),
            !r.0 ==> forall|j: int| r.1 <= j < self.size() ==> text_lt(k.key_text(), #[trigger] self.text_at(j)),
            !r.0 ==> !self.contains(k.key_text()),
    {
        let n = self.entries.len();
        let mut i: usize = 0;
        while i < n
            invariant
                n == self.size(),
                i <= n,
                self.wf(),
                forall|j: int| 0 <= j < i ==> text_lt(#[trigger] self.text_at(j), k.key_text()),
            decreases n - i,
        {
            match self.entries[i].0.key_order(k) {
                TextOrder::Less => {
                    i = i + 1;
                },
                TextOrder::Equal => {
                    return (true, i);
                },
                TextOrder::Greater => {
                    proof {
                        crate::text::lemma_text_order_greater(self.text_at(i as int), k.key_text());
                        assert forall|j: int| i <= j < self.size() implies text_lt(k.key_text(), #[trigger] self.text_at(j)) by {
                            if j > i {
                                assert(text_lt(self.text_at(i as int), self.text_at(j)));
                                lemma_text_lt_transitive(k.key_text(), self.text_at(i as int), self.text_at(j));
                            }
                        }
                        if self.contains(k.key_text()) {
                            let j = choose|j: int| 0 <= j < self.size() && #[trigger] self.text_at(j) == k.key_text();
                            lemma_text_lt_irreflexive(k.key_text());
                        }
                    }
                    return (false, i);
                },
            }
        }
        proof {
            if self.contains(k.key_text()) {
                let j = choose|j: int| 0 <= j < self.size() && #[trigger] self.text_at(j) == k.key_text();
                lemma_text_lt_irreflexive(k.key_text());
            }
        }
        (false, i)
    }

    /// The position of the key, if present.
    pub fn find(&self, k: &K) -> (r: Option<usize>)
        requires
            self.wf(),
        ensures
            match r {
                Some(i) => i < self.size() && self.text_at(i as int) == k.key_text()
                    && self.index_of(k.key_text()) == i,
                None => !self.contains(k.key_text()),
            },
    {
        let (found, i) = self.search(k);
        if found {
            proof {
                self.lemma_index_of(i as int);
            }
            Some(i)
        } else {
            None
        }
    }

    pub fn contains_key(&self, k: &K) -> (r: bool)
        requires
            self.wf(),
        ensures
            r == self.contains(k.key_text()),
    {
        self.find(k).is_some()
    }

    pub fn get(&self, k: &K) -> (r: Option<&V>)
        requires
            self.wf(),
        ensures
            match r {
                Some(v) => self.spec_get(k.key_text()) == Some(*v),
                None => self.spec_get(k.key_text()) is None,
            },
    {
        match self.find(k) {
            Some(i) => {
                proof {
                    self.lemma_index_of(i as int);
                }
                Some(&self.entries[i].1)
            },
            None => None,
        }
    }

    /// Replacing the value at one position keeps the keys, so the map stays
    /// well formed and only that key's lookup changes.
    pub proof fn lemma_value_replaced(self, other: Self, i: int, v: V)
        requires
            self.wf(),
            0 <= i < self.size(),
            other.entries() == self.entries().update(i, (self.entries()[i].0, v)),
        ensures
            other.wf(),
            forall|t: Seq<char>|
                #[trigger] other.spec_get(t) == (if t == self.text_at(i) {
                    Some(v)
                } else {
                    self.spec_get(t)
                }),
    {
        assert forall|a: int, b: int| 0 <= a < b < other.size() implies text_lt(
            #[trigger] other.text_at(a),
            #[trigger] other.text_at(b),
        ) by {
            assert(other.text_at(a) == self.text_at(a));
            assert(other.text_at(b) == self.text_at(b));
        }
        assert forall|t: Seq<char>| #[trigger] other.spec_get(t) == (if t == self.text_at(i) {
            Some(v)
        } else {
            self.spec_get(t)
        }) by {
            assert forall|j: int| 0 <= j < other.size() implies #[trigger] other.text_at(j) == self.text_at(j) by {}
            self.lemma_index_of(i);
            if self.contains(t) {
                let j = self.index_of(t);
                assert(self.text_at(j) == t);
                self.lemma_index_of(j);
                other.lemma_index_of(j);
                assert(other.text_at(j) == t);
                assert(t == self.text_at(i) ==> j == i);
            } else {
                if other.contains(t) {
                    let j = other.index_of(t);
                    assert(self.text_at(j) == t);
                }
            }
        }
    }

    /// A mutable handle on the value stored under `k`'s text. Whatever is
    /// written through it ends up under that key; nothing else changes.
    pub fn get_mut(&mut self, k: &K) -> (r: Option<&mut V>)
        requires
            old(self).wf(),
        ensures
            r is Some <==> old(self).contains(k.key_text()),
            r is Some ==> {
                let i = old(self).index_of(k.key_text());
                &&& *r->0 == old(self).entries()[i].1
                &&& final(self).entries() == old(self).entries().update(
                    i,
                    (old(self).entries()[i].0, *final(r->0)),
                )
            },
            r is None ==> *final(self) == *old(self),
    {
        match self.find(k) {
            Some(i) => {
                proof {
                    self.lemma_index_of(i as int);
                }
                Some(&mut self.entries[i].1)
            },
            None => None,
        }
    }

    /// Replaces the value at position `i`, keeping its key; returns the
    /// value that stood there.
    pub fn set_value_at(&mut self, i: usize, v: V) -> (r: V)
        requires
            old(self).wf(),
            i < old(self).size(),
        ensures
            final(self).wf(),
            r == old(self).entries()[i as int].1,
            final(self).entries() == old(self).entries().update(
                i as int,
                (old(self).entries()[i as int].0, v),
            ),
            forall|t: Seq<char>|
                #[trigger] final(self).spec_get(t) == (if t == old(self).text_at(i as int) {
                    Some(v)
                } else {
                    old(self).spec_get(t)
                }),
    {
        let ghost old_map = *self;
        let (k, old_v) = self.entries.remove(i);
        self.entries.insert(i, (k, v));
        proof {
            assert(self.entries() =~= old_map.entries().update(i as int, (old_map.entries()[i as int].0, v)));
            assert(forall|j: int| 0 <= j < self.size() ==> #[trigger] self.text_at(j) == old_map.text_at(j));
            assert(self.wf());
            assert forall|t: Seq<char>|
                #[trigger] self.spec_get(t) == (if t == old_map.text_at(i as int) {
                    Some(v)
                } else {
                    old_map.spec_get(t)
                }) by {
                if old_map.contains(t) {
                    let j = choose|j: int| 0 <= j < old_map.size() && #[trigger] old_map.text_at(j) == t;
                    old_map.lemma_get_at(j, t);
                    old_map.lemma_index_of(i as int);
                    self.lemma_get_at(j, t);
                    assert(self.entries()[i as int].1 == v);
                } else {
                    if self.contains(t) {
                        let j = choose|j: int| 0 <= j < self.size() && #[trigger] self.text_at(j) == t;
                        assert(old_map.text_at(j) == t);
                    }
                }
            }
        }
        old_v
    }

    /// Stores `v` under `k`: an existing key keeps its place and gets the
    /// new value, a new key goes where its order puts it.
    pub fn insert(&mut self, k: K, v: V) -> (r: Option<V>)
        requires
            old(self).wf(),
        ensures
            final(self).wf(),
            match r {
                Some(prev) => old(self).contains(k.key_text())
                    && old(self).spec_get(k.key_text()) == Some(prev)
                    && final(self).entries() == old(self).entries().update(
                        old(self).index_of(k.key_text()),
                        (old(self).entries()[old(self).index_of(k.key_text())].0, v),
                    ),
                None => !old(self).contains(k.key_text())
                    && exists|p: int| 0 <= p <= old(self).size()
                        && final(self).entries() == old(self).entries().insert(p, (k, v)),
            },
            final(self).contains(k.key_text()),
            forall|t: Seq<char>|
                #[trigger] final(self).spec_get(t) == (if t == k.key_text() {
                    Some(v)
                } else {
                    old(self).spec_get(t)
                }),
    {
        let (found, i) = self.search(&k);
        if found {
            proof {
                self.lemma_index_of(i as int);
            }
            let prev = self.set_value_at(i, v);
            proof {
                self.lemma_index_of(i as int);
            }
            Some(prev)
        } else {
            let ghost old_map = *self;
            let ghost t = k.key_text();
            self.entries.insert(i, (k, v));
            proof {
                assert(self.entries() =~= old_map.entries().insert(i as int, (k, v)));
                assert forall|a: int, b: int|
                    0 <= a < b < self.size() implies text_lt(#[trigger] self.text_at(a), #[trigger] self.text_at(b)) by {
                    if b < i {
                        assert(old_map.text_at(a) == self.text_at(a));
                        assert(old_map.text_at(b) == self.text_at(b));
                    } else if b == i {
                        assert(old_map.text_at(a) == self.text_at(a));
                    } else if a == i {
                        assert(old_map.text_at(b - 1) == self.text_at(b));
                    } else if a < i {
                        assert(old_map.text_at(a) == self.text_at(a));
                        assert(old_map.text_at(b - 1) == self.text_at(b));
                    } else {
                        assert(old_map.text_at(a - 1) == self.text_at(a));
                        assert(old_map.text_at(b - 1) == self.text_at(b));
                    }
                }
                assert(self.text_at(i as int) == t);
                assert(self.contains(t));
                assert forall|s: Seq<char>|
                    #[trigger] self.spec_get(s) == (if s == t { Some(v) } else { old_map.spec_get(s) }) by {
                    if s == t {
                        self.lemma_get_at(i as int, s);
                    } else if old_map.contains(s) {
                        let j = choose|j: int| 0 <= j < old_map.size() && #[trigger] old_map.text_at(j) == s;
                        old_map.lemma_get_at(j, s);
                        if j < i {
                            assert(self.text_at(j) == s);
                            self.lemma_get_at(j, s);
                        } else {
                            assert(self.text_at(j + 1) == s);
                            self.lemma_get_at(j + 1, s);
                        }
                    } else if self.contains(s) {
                        let j = choose|j: int| 0 <= j < self.size() && #[trigger] self.text_at(j) == s;
                        if j < i {
                            assert(old_map.text_at(j) == s);
                        } else if j > i {
                            assert(old_map.text_at(j - 1) == s);
                        }
                    }
                }
            }
            None
        }
    }

    /// Takes out the entry at position `i`.
    pub fn remove_at(&mut self, i: usize) -> (r: (K, V))
        requires
            old(self).wf(),
            i < old(self).size(),
        ensures
            final(self).wf(),
            r == old(self).entries()[i as int],
            final(self).entries() == old(self).entries().remove(i as int),
            forall|t: Seq<char>|
                #[trigger] final(self).spec_get(t) == (if t == old(self).text_at(i as int) {
                    None
                } else {
                    old(self).spec_get(t)
                }),
    {
        let ghost old_map = *self;
        let r = self.entries.remove(i);
        proof {
            assert(self.entries() =~= old_map.entries().remove(i as int));
            assert forall|a: int, b: int|
                0 <= a < b < self.size() implies text_lt(#[trigger] self.text_at(a), #[trigger] self.text_at(b)) by {
                if b < i {
                    assert(old_map.text_at(a) == self.text_at(a));
                    assert(old_map.text_at(b) == self.text_at(b));
                } else if a < i {
                    assert(old_map.text_at(a) == self.text_at(a));
                    assert(old_map.text_at(b + 1) == self.text_at(b));
                } else {
                    assert(old_map.text_at(a + 1) == self.text_at(a));
                    assert(old_map.text_at(b + 1) == self.text_at(b));
                }
            }
            let ti = old_map.text_at(i as int);
            assert forall|s: Seq<char>|
                #[trigger] self.spec_get(s) == (if s == ti { None } else { old_map.spec_get(s) }) by {
                if self.contains(s) {
                    let j = choose|j: int| 0 <= j < self.size() && #[trigger] self.text_at(j) == s;
                    self.lemma_get_at(j, s);
                    if j < i {
                        assert(old_map.text_at(j) == s);
                        old_map.lemma_get_at(j, s);
                        if s == ti {
                            lemma_text_lt_irreflexive(s);
                        }
                    } else {
                        assert(old_map.text_at(j + 1) == s);
                        old_map.lemma_get_at(j + 1, s);
                        if s == ti {
                            lemma_text_lt_irreflexive(s);
                        }
                    }
                } else if old_map.contains(s) && s != ti {
                    let j = choose|j: int| 0 <= j < old_map.size() && #[trigger] old_map.text_at(j) == s;
                    if j < i {
                        assert(self.text_at(j) == s);
                    } else {
                        assert(self.text_at(j - 1) == s);
                    }
                }
            }
        }
        r
    }

    /// Removes the entry under `k`, if any, and returns its value.
    pub fn remove(&mut self, k: &K) -> (r: Option<V>)
        requires
            old(self).wf(),
        ensures
            final(self).wf(),
            r == old(self).spec_get(k.key_text()),
            old(self).contains(k.key_text()) ==> final(self).entries() == old(self).entries().remove(
                old(self).index_of(k.key_text()),
            ),
            !old(self).contains(k.key_text()) ==> final(self).entries() == old(self).entries(),
            forall|t: Seq<char>|
                #[trigger] final(self).spec_get(t) == (if t == k.key_text() {
                    None
                } else {
                    old(self).spec_get(t)
                }),
    {
        match self.find(k) {
            Some(i) => {
                proof {
                    self.lemma_index_of(i as int);
                }
                let (_, v) = self.remove_at(i);
                Some(v)
            },
            None => None,
        }
    }

    /// Appends an entry whose key sorts after every present key.
    pub fn push_last(&mut self, k: K, v: V)
        requires
            old(self).wf(),
            old(self).size() == 0 || text_lt(old(self).text_at(old(self).size() - 1), k.key_text()),
        ensures
            final(self).wf(),
            final(self).entries() == old(self).entries().push((k, v)),
    {
        let ghost old_map = *self;
        self.entries.push((k, v));
        proof {
            assert(self.entries() =~= old_map.entries().push((k, v)));
            assert forall|a: int, b: int|
                0 <= a < b < self.size() implies text_lt(#[trigger] self.text_at(a), #[trigger] self.text_at(b)) by {
                assert(old_map.size() > 0 ==> self.text_at(old_map.size() - 1) == old_map.text_at(old_map.size() - 1));
                if b < old_map.size() {
                    assert(old_map.text_at(a) == self.text_at(a));
                    assert(old_map.text_at(b) == self.text_at(b));
                } else {
                    assert(old_map.text_at(a) == self.text_at(a));
                    if a < old_map.size() - 1 {
                        assert(text_lt(old_map.text_at(a), old_map.text_at(old_map.size() - 1)));
                        lemma_text_lt_transitive(old_map.text_at(a), old_map.text_at(old_map.size() - 1), k.key_text());
                    }
                }
            }
        }
    }

    pub fn clear(&mut self)
        ensures
            final(self).entries() == Seq::<(K, V)>::empty(),
            final(self).wf(),
    {
        self.entries = Vec::new();
    }
}

} // verus!
