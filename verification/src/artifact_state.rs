//! Cached build artifacts keyed by kind and identity, and the dependency
//! graph that decides which of them a change invalidates.
use vstd::prelude::*;

use crate::id_map::IdMap;
use crate::ids::TextKey;
use crate::text::{TextOrder, compare_text, text_lt, text_order};

verus! {

#[derive(Debug, Clone, Copy, PartialEq, Eq, Structural)]
pub enum ArtifactKind {
    Config,
    Layout,
    JsModuleGraph,
    JsBytecode,
    StylesheetAnalysis,
    AuthoredFile,
    JsExecutable,
    LuaExecutable,
    LuaCompiledSource,
}

/// Position of a kind in declaration order, as a character that sorts the
/// same way.
pub open spec fn kind_rank(kind: ArtifactKind) -> char {
    match kind {
        ArtifactKind::Config => '0',
        ArtifactKind::Layout => '1',
        ArtifactKind::JsModuleGraph => '2',
        ArtifactKind::JsBytecode => '3',
        ArtifactKind::StylesheetAnalysis => '4',
        ArtifactKind::AuthoredFile => '5',
        ArtifactKind::JsExecutable => '6',
        ArtifactKind::LuaExecutable => '7',
        ArtifactKind::LuaCompiledSource => '8',
    }
}

fn kind_rank_exec(kind: ArtifactKind) -> (r: u8)
    ensures
        r as int == kind_rank(kind) as int - '0' as int,
{
    match kind {
        ArtifactKind::Config => 0,
        ArtifactKind::Layout => 1,
        ArtifactKind::JsModuleGraph => 2,
        ArtifactKind::JsBytecode => 3,
        ArtifactKind::StylesheetAnalysis => 4,
        ArtifactKind::AuthoredFile => 5,
        ArtifactKind::JsExecutable => 6,
        ArtifactKind::LuaExecutable => 7,
        ArtifactKind::LuaCompiledSource => 8,
    }
}

/// An artifact: its kind and an identity (a name or a path). Keys order by
/// kind first, then by identity.
#[derive(Debug)]
pub struct ArtifactKey {
    pub kind: ArtifactKind,
    pub identity: String,
}

pub proof fn lemma_prefixed_order(x: char, p: Seq<char>, y: char, q: Seq<char>)
    ensures
        text_order(seq![x] + p, seq![y] + q) == (if x == y {
            text_order(p, q)
        } else if (x as int) < (y as int) {
            TextOrder::Less
        } else {
            TextOrder::Greater
        }),
{
    let a = seq![x] + p;
    let b = seq![y] + q;
    assert(a[0] == x && b[0] == y);
    assert(a.skip(1) =~= p);
    assert(b.skip(1) =~= q);
    if a == b {
        assert(a.skip(1) == b.skip(1));
    }
    if x == y && p == q {
        assert(a =~= b);
    }
    if x != y {
        assert((x as int) != (y as int));
    }
}

impl TextKey for ArtifactKey {
    open spec fn key_text(&self) -> Seq<char> {
        seq![kind_rank(self.kind)] + self.identity@
    }

    fn key_order(&self, other: &Self) -> (r: TextOrder) {
        let a = kind_rank_exec(self.kind);
        let b = kind_rank_exec(other.kind);
        proof {
            lemma_prefixed_order(kind_rank(self.kind), self.identity@, kind_rank(other.kind), other.identity@);
        }
        if a < b {
            TextOrder::Less
        } else if a > b {
            TextOrder::Greater
        } else {
            compare_text(self.identity.as_str(), other.identity.as_str())
        }
    }

    fn copy_key(&self) -> (r: Self) {
        ArtifactKey { kind: self.kind, identity: self.identity.clone() }
    }
}

impl Clone for ArtifactKey {
    fn clone(&self) -> (r: Self)
        ensures
            r == *self,
    {
        self.copy_key()
    }
}

impl PartialEq for ArtifactKey {
    fn eq(&self, other: &Self) -> (r: bool) {
        self.kind == other.kind && self.identity == other.identity
    }
}

impl vstd::std_specs::cmp::PartialEqSpecImpl for ArtifactKey {
    open spec fn obeys_eq_spec() -> bool {
        true
    }

    open spec fn eq_spec(&self, other: &Self) -> bool {
        self.kind == other.kind && self.identity@ == other.identity@
    }
}

impl Eq for ArtifactKey {}

impl ArtifactKey {
    pub fn config(identity: &str) -> (r: Self)
        ensures
            r.kind == ArtifactKind::Config,
            r.identity@ == identity@,
    {
        ArtifactKey { kind: ArtifactKind::Config, identity: identity.to_owned() }
    }

    pub fn layout(identity: &str) -> (r: Self)
        ensures
            r.kind == ArtifactKind::Layout,
            r.identity@ == identity@,
    {
        ArtifactKey { kind: ArtifactKind::Layout, identity: identity.to_owned() }
    }

    pub fn stylesheet_analysis(identity: &str) -> (r: Self)
        ensures
            r.kind == ArtifactKind::StylesheetAnalysis,
            r.identity@ == identity@,
    {
        ArtifactKey { kind: ArtifactKind::StylesheetAnalysis, identity: identity.to_owned() }
    }

    pub fn js_module_graph(identity: &str) -> (r: Self)
        ensures
            r.kind == ArtifactKind::JsModuleGraph,
            r.identity@ == identity@,
    {
        ArtifactKey { kind: ArtifactKind::JsModuleGraph, identity: identity.to_owned() }
    }

    pub fn js_bytecode(identity: &str) -> (r: Self)
        ensures
            r.kind == ArtifactKind::JsBytecode,
            r.identity@ == identity@,
    {
        ArtifactKey { kind: ArtifactKind::JsBytecode, identity: identity.to_owned() }
    }

    pub fn authored_file(identity: &str) -> (r: Self)
        ensures
            r.kind == ArtifactKind::AuthoredFile,
            r.identity@ == identity@,
    {
        ArtifactKey { kind: ArtifactKind::AuthoredFile, identity: identity.to_owned() }
    }

    pub fn js_executable(identity: &str) -> (r: Self)
        ensures
            r.kind == ArtifactKind::JsExecutable,
            r.identity@ == identity@,
    {
        ArtifactKey { kind: ArtifactKind::JsExecutable, identity: identity.to_owned() }
    }

    pub fn lua_executable(identity: &str) -> (r: Self)
        ensures
            r.kind == ArtifactKind::LuaExecutable,
            r.identity@ == identity@,
    {
        ArtifactKey { kind: ArtifactKind::LuaExecutable, identity: identity.to_owned() }
    }

    pub fn lua_compiled_source(identity: &str) -> (r: Self)
        ensures
            r.kind == ArtifactKind::LuaCompiledSource,
            r.identity@ == identity@,
    {
        ArtifactKey { kind: ArtifactKind::LuaCompiledSource, identity: identity.to_owned() }
    }
}

/// A cached value with the fingerprint of the inputs it was built from.
#[derive(Debug)]
pub struct ArtifactRecord<T> {
    pub fingerprint: String,
    pub value: T,
}

impl<T> ArtifactRecord<T> {
    pub fn new(fingerprint: &str, value: T) -> (r: Self)
        ensures
            r.fingerprint@ == fingerprint@,
            r.value == value,
    {
        ArtifactRecord { fingerprint: fingerprint.to_owned(), value }
    }
}

/// Cached artifacts by key, in key order.
#[derive(Debug)]
pub struct ArtifactMap<T> {
    records: IdMap<ArtifactKey, ArtifactRecord<T>>,
}

pub type ArtifactRegistry<T> = ArtifactMap<T>;

/// `keep` may answer `d` when asked about the record `e`.
pub open spec fn answers<T, F: Fn(&ArtifactKey, &ArtifactRecord<T>) -> bool>(
    keep: F,
    e: (ArtifactKey, ArtifactRecord<T>),
    d: bool,
) -> bool {
    keep.ensures((&e.0, &e.1), d)
}

/// Every record of `before` from position `lo` on has its answer from
/// `keep` recorded in `decisions`.
pub open spec fn decisions_cover<T, F: Fn(&ArtifactKey, &ArtifactRecord<T>) -> bool>(
    keep: F,
    before: IdMap<ArtifactKey, ArtifactRecord<T>>,
    decisions: Seq<bool>,
    lo: int,
) -> bool {
    &&& decisions.len() == before.size()
    &&& forall|j: int| lo <= j < before.size() ==> answers(keep, before.entries()[j], #[trigger] decisions[j])
}

impl<T> ArtifactMap<T> {
    pub closed spec fn records(self) -> IdMap<ArtifactKey, ArtifactRecord<T>> {
        self.records
    }

    pub open spec fn wf(self) -> bool {
        self.records().wf()
    }

    pub open spec fn spec_get(self, key: Seq<char>) -> Option<ArtifactRecord<T>> {
        self.records().spec_get(key)
    }

    pub fn new() -> (r: Self)
        ensures
            r.wf(),
            r.records().entries().len() == 0,
    {
        ArtifactMap { records: IdMap::new() }
    }

    pub fn get(&self, key: &ArtifactKey) -> (r: Option<&ArtifactRecord<T>>)
        requires
            self.wf(),
        ensures
            match r {
                Some(v) => self.spec_get(key.key_text()) == Some(*v),
                None => self.spec_get(key.key_text()) is None,
            },
    {
        self.records.get(key)
    }

    /// A mutable handle on the record stored under `key`; what is written
    /// through it replaces that record and nothing else.
    pub fn get_mut(&mut self, key: &ArtifactKey) -> (r: Option<&mut ArtifactRecord<T>>)
        requires
            old(self).wf(),
        ensures
            r is Some <==> old(self).spec_get(key.key_text()) is Some,
            r is Some ==> {
                let i = old(self).records().index_of(key.key_text());
                &&& Some(*r->0) == old(self).spec_get(key.key_text())
                &&& final(self).records().entries() == old(self).records().entries().update(
                    i,
                    (old(self).records().entries()[i].0, *final(r->0)),
                )
            },
            r is None ==> *final(self) == *old(self),
    {
        proof {
            if self.records.contains(key.key_text()) {
                self.records.lemma_index_of(self.records.index_of(key.key_text()));
                assert(self.records.text_at(self.records.index_of(key.key_text())) == key.key_text());
            }
        }
        self.records.get_mut(key)
    }

    /// After a write through `get_mut`, the map is still well formed and
    /// only the written key reads differently.
    pub proof fn lemma_written_through(self, other: Self, key: Seq<char>, record: ArtifactRecord<T>)
        requires
            self.wf(),
            self.spec_get(key) is Some,
            other.records().entries() == self.records().entries().update(
                self.records().index_of(key),
                (self.records().entries()[self.records().index_of(key)].0, record),
            ),
        ensures
            other.wf(),
            forall|t: Seq<char>|
                #[trigger] other.spec_get(t) == (if t == key {
                    Some(record)
                } else {
                    self.spec_get(t)
                }),
    {
        let i = self.records().index_of(key);
        self.records().lemma_index_of(i);
        assert(self.records().text_at(i) == key);
        self.records().lemma_value_replaced(other.records(), i, record);
    }

    /// Stores a record, returning the one it replaces.
    pub fn insert(&mut self, key: ArtifactKey, record: ArtifactRecord<T>) -> (r: Option<ArtifactRecord<T>>)
        requires
            old(self).wf(),
        ensures
            final(self).wf(),
            r == old(self).spec_get(key.key_text()),
            final(self).records().entries().len() == old(self).records().entries().len() + (if r is None {
                1int
            } else {
                0int
            }),
            forall|t: Seq<char>|
                #[trigger] final(self).spec_get(t) == (if t == key.key_text() {
                    Some(record)
                } else {
                    old(self).spec_get(t)
                }),
    {
        let ghost k = key.key_text();
        let r = self.records.insert(key, record);
        r
    }

    fn remove(&mut self, key: &ArtifactKey)
        requires
            old(self).wf(),
        ensures
            final(self).wf(),
            forall|t: Seq<char>|
                #[trigger] final(self).spec_get(t) == (if t == key.key_text() {
                    None
                } else {
                    old(self).spec_get(t)
                }),
    {
        self.records.remove(key);
    }

    pub fn clear(&mut self)
        ensures
            final(self).wf(),
            final(self).records().entries().len() == 0,
    {
        self.records.clear();
    }

    pub fn len(&self) -> (r: usize)
        ensures
            r == self.records().entries().len(),
    {
        self.records.len()
    }

    pub fn is_empty(&self) -> (r: bool)
        ensures
            r == (self.records().entries().len() == 0),
    {
        self.records.is_empty()
    }

    /// The entries in key order.
    pub fn iter(&self) -> (r: Vec<(&ArtifactKey, &ArtifactRecord<T>)>)
        ensures
            r@.len() == self.records().entries().len(),
            forall|i: int| 0 <= i < r@.len() ==> *(#[trigger] r@[i]).0 == self.records().entries()[i].0
                && *r@[i].1 == self.records().entries()[i].1,
    {
        let mut out: Vec<(&ArtifactKey, &ArtifactRecord<T>)> = Vec::new();
        let n = self.records.len();
        let mut i: usize = 0;
        while i < n
            invariant
                n == self.records().entries().len(),
                i <= n,
                out@.len() == i,
                forall|j: int| 0 <= j < i ==> *(#[trigger] out@[j]).0 == self.records().entries()[j].0
                    && *out@[j].1 == self.records().entries()[j].1,
            decreases n - i,
        {
            out.push((self.records.key_at(i), self.records.value_at(i)));
            i = i + 1;
        }
        out
    }

    /// Keeps the records for which `keep` answers true and drops the others;
    /// the kept ones stay unchanged.
    pub fn retain<F: Fn(&ArtifactKey, &ArtifactRecord<T>) -> bool>(&mut self, keep: F)
        requires
            old(self).wf(),
            forall|k: &ArtifactKey, v: &ArtifactRecord<T>| #[trigger] keep.requires((k, v)),
        ensures
            final(self).wf(),
            forall|i: int|
                #![trigger old(self).records().entries()[i]]
                0 <= i < old(self).records().entries().len() ==> {
                    let e = old(self).records().entries()[i];
                    if final(self).spec_get(e.0.key_text()) is Some {
                        final(self).spec_get(e.0.key_text()) == Some(e.1) && answers(keep, e, true)
                    } else {
                        answers(keep, e, false)
                    }
                },
            forall|t: Seq<char>| #[trigger] final(self).spec_get(t) is Some ==> old(self).spec_get(t) is Some,
    {
        let ghost before = self.records;
        let ghost mut decisions: Seq<bool> = Seq::new(self.records.size(), |j: int| false);
        let mut i: usize = self.records.len();
        while i > 0
            invariant
                before.wf(),
                self.records.wf(),
                forall|k: &ArtifactKey, v: &ArtifactRecord<T>| #[trigger] keep.requires((k, v)),
                i <= self.records.size(),
                i <= before.size(),
                forall|j: int| 0 <= j < i ==> #[trigger] self.records.entries()[j] == before.entries()[j],
                decisions_cover(keep, before, decisions, i as int),
                forall|t: Seq<char>|
                    #[trigger] self.records.spec_get(t) == (if before.contains(t) && before.index_of(t) >= i
                        && !decisions[before.index_of(t)] {
                        None
                    } else {
                        before.spec_get(t)
                    }),
            decreases i,
        {
            let ghost current = self.records;
            let ghost prior = decisions;
            let key = self.records.key_at(i - 1);
            let value = self.records.value_at(i - 1);
            let kept = keep(key, value);
            proof {
                before.lemma_index_of(i - 1);
                assert(current.entries()[i - 1] == before.entries()[i - 1]);
                assert(*key == before.entries()[i - 1].0 && *value == before.entries()[i - 1].1);
                assert(keep.ensures((key, value), kept));
                assert(answers(keep, before.entries()[i - 1], kept));
                decisions = decisions.update(i - 1, kept);
            }
            assert(decisions_cover(keep, before, decisions, i - 1)) by {
                assert forall|j: int| i - 1 <= j < before.size() implies answers(
                    keep,
                    before.entries()[j],
                    #[trigger] decisions[j],
                ) by {
                    if j != i - 1 {
                        let d = prior[j];
                        assert(decisions[j] == d);
                    }
                }
            }
            if !kept {
                self.records.remove_at(i - 1);
                proof {
                    assert forall|j: int| 0 <= j < i - 1 implies #[trigger] self.records.entries()[j]
                        == before.entries()[j] by {
                        assert(self.records.entries()[j] == current.entries()[j]);
                    }
                }
            }
            proof {
                let ti = before.text_at(i - 1);
                assert(current.text_at(i - 1) == ti);
                assert forall|t: Seq<char>| #[trigger] self.records.spec_get(t) == (if before.contains(t)
                    && before.index_of(t) >= i - 1 && !decisions[before.index_of(t)] {
                    None
                } else {
                    before.spec_get(t)
                }) by {
                    if before.contains(t) && before.index_of(t) == i - 1 {
                        assert(t == ti);
                    }
                }
            }
            i = i - 1;
        }
        proof {
            assert forall|j: int|
                #![trigger before.entries()[j]]
                0 <= j < before.entries().len() implies {
                    let e = before.entries()[j];
                    if self.spec_get(e.0.key_text()) is Some {
                        self.spec_get(e.0.key_text()) == Some(e.1) && answers(keep, e, true)
                    } else {
                        answers(keep, e, false)
                    }
                } by {
                before.lemma_index_of(j);
                assert(answers(keep, before.entries()[j], decisions[j]));
            }
        }
    }

    /// The records in key order.
    pub fn values(&self) -> (r: Vec<&ArtifactRecord<T>>)
        ensures
            r@.len() == self.records().entries().len(),
            forall|i: int| 0 <= i < r@.len() ==> *(#[trigger] r@[i]) == self.records().entries()[i].1,
    {
        let mut out: Vec<&ArtifactRecord<T>> = Vec::new();
        let n = self.records.len();
        let mut i: usize = 0;
        while i < n
            invariant
                n == self.records().entries().len(),
                i <= n,
                out@.len() == i,
                forall|j: int| 0 <= j < i ==> *(#[trigger] out@[j]) == self.records().entries()[j].1,
            decreases n - i,
        {
            out.push(self.records.value_at(i));
            i = i + 1;
        }
        out
    }
}

/// Which artifacts each artifact feeds: an edge from a source to every
/// artifact built from it.
#[derive(Debug)]
pub struct ArtifactGraph {
    outgoing: IdMap<ArtifactKey, IdMap<ArtifactKey, ()>>,
}

/// `s` holds everything that feeds on a member of `s`.
pub open spec fn closed_under(g: ArtifactGraph, s: Set<Seq<char>>) -> bool {
    forall|x: Seq<char>| #[trigger] s.contains(x) ==> g.succ(x).subset_of(s)
}

/// Everything that depends on `source`, directly or through other
/// artifacts: what lies in every set that holds the direct dependents of
/// `source` and is closed under dependency.
pub open spec fn dependents_closure(g: ArtifactGraph, source: Seq<char>) -> Set<Seq<char>> {
    Set::new(
        |t: Seq<char>| forall|s: Set<Seq<char>>|
            #![trigger closed_under(g, s), s.contains(t)]
            g.succ(source).subset_of(s) && closed_under(g, s) ==> s.contains(t),
    )
}

/// Union of the target sets of a run of graph entries.
pub open spec fn targets_of(entries: Seq<(ArtifactKey, IdMap<ArtifactKey, ()>)>) -> Set<Seq<char>>
    decreases entries.len(),
{
    if entries.len() == 0 {
        Set::empty()
    } else {
        targets_of(entries.drop_last()).union(entries.last().1.key_set())
    }
}

proof fn lemma_targets_of(entries: Seq<(ArtifactKey, IdMap<ArtifactKey, ()>)>)
    ensures
        targets_of(entries).finite(),
        forall|i: int| 0 <= i < entries.len() ==> (#[trigger] entries[i]).1.key_set().subset_of(targets_of(entries)),
    decreases entries.len(),
{
    if entries.len() > 0 {
        lemma_targets_of(entries.drop_last());
        entries.last().1.lemma_key_set();
        assert forall|i: int| 0 <= i < entries.len() implies (#[trigger] entries[i]).1.key_set().subset_of(
            targets_of(entries)) by {
            if i < entries.len() - 1 {
                assert(entries.drop_last()[i] == entries[i]);
            }
        }
    }
}

impl ArtifactGraph {
    pub closed spec fn outgoing(self) -> IdMap<ArtifactKey, IdMap<ArtifactKey, ()>> {
        self.outgoing
    }

    pub open spec fn wf(self) -> bool {
        &&& self.outgoing().wf()
        &&& forall|i: int| 0 <= i < self.outgoing().size() ==> (#[trigger] self.outgoing().entries()[i]).1.wf()
    }

    /// Direct dependents of `t`.
    pub open spec fn succ(self, t: Seq<char>) -> Set<Seq<char>> {
        match self.outgoing().spec_get(t) {
            Some(targets) => targets.key_set(),
            None => Set::empty(),
        }
    }

    /// Every artifact that is a direct dependent of something.
    pub open spec fn universe(self) -> Set<Seq<char>> {
        targets_of(self.outgoing().entries())
    }

    proof fn lemma_universe(self)
        requires
            self.wf(),
        ensures
            self.universe().finite(),
            forall|t: Seq<char>| #[trigger] self.succ(t).subset_of(self.universe()),
    {
        lemma_targets_of(self.outgoing().entries());
        assert forall|t: Seq<char>| #[trigger] self.succ(t).subset_of(self.universe()) by {
            if self.outgoing().contains(t) {
                let i = choose|i: int| 0 <= i < self.outgoing().size() && #[trigger] self.outgoing().text_at(i) == t;
                self.outgoing().lemma_get_at(i, t);
                assert(self.outgoing().entries()[i].1.key_set().subset_of(self.universe()));
            }
        }
    }

    pub fn new() -> (r: Self)
        ensures
            r.wf(),
            forall|t: Seq<char>| #[trigger] r.succ(t) == Set::<Seq<char>>::empty(),
            r.outgoing().entries().len() == 0,
    {
        ArtifactGraph { outgoing: IdMap::new() }
    }

    /// Makes `targets` exactly the direct dependents of `source`.
    pub fn replace_edges(&mut self, source: ArtifactKey, targets: Vec<ArtifactKey>)
        requires
            old(self).wf(),
        ensures
            final(self).wf(),
            final(self).outgoing().contains(source.key_text()),
            forall|t: Seq<char>| t != source.key_text() ==> #[trigger] final(self).outgoing().spec_get(t)
                == old(self).outgoing().spec_get(t),
            forall|t: Seq<char>| #[trigger] final(self).succ(source.key_text()).contains(t)
                <==> crate::seq_util::has_text(targets@, t),
    {
        let mut set: IdMap<ArtifactKey, ()> = IdMap::new();
        let mut i: usize = 0;
        while i < targets.len()
            invariant
                i <= targets@.len(),
                set.wf(),
                forall|t: Seq<char>| set.contains(t) <==> crate::seq_util::has_text(targets@.take(i as int), t),
            decreases targets@.len() - i,
        {
            set.insert(targets[i].clone(), ());
            proof {
                assert forall|t: Seq<char>| set.contains(t) <==> crate::seq_util::has_text(targets@.take(i + 1), t) by {
                    if set.spec_get(t) is Some {
                        assert(set.contains(t));
                    }
                    if crate::seq_util::has_text(targets@.take(i + 1), t) {
                        let k = choose|k: int| 0 <= k < i + 1 && #[trigger] targets@.take(i + 1)[k].key_text() == t;
                        if k < i {
                            assert(targets@.take(i as int)[k] == targets@.take(i + 1)[k]);
                        }
                    }
                    if crate::seq_util::has_text(targets@.take(i as int), t) {
                        let k = choose|k: int| 0 <= k < i && #[trigger] targets@.take(i as int)[k].key_text() == t;
                        assert(targets@.take(i + 1)[k] == targets@.take(i as int)[k]);
                    }
                    if t == targets@[i as int].key_text() {
                        assert(targets@.take(i + 1)[i as int] == targets@[i as int]);
                    }
                }
            }
            i = i + 1;
        }
        proof {
            crate::seq_util::lemma_take_all(targets@);
        }
        let ghost src = source.key_text();
        let ghost kept = set;
        self.outgoing.insert(source, set);
        proof {
            assert(self.outgoing().spec_get(src) == Some(kept));
            kept.lemma_key_set();
            assert forall|j: int| 0 <= j < self.outgoing().size() implies (#[trigger] self.outgoing().entries()[j]).1.wf() by {
                let t = self.outgoing().text_at(j);
                self.outgoing().lemma_get_at(j, t);
                if t != src {
                    assert(old(self).outgoing().contains(t));
                    let k = choose|k: int| 0 <= k < old(self).outgoing().size() && #[trigger] old(self).outgoing().text_at(k) == t;
                    old(self).outgoing().lemma_get_at(k, t);
                }
            }
        }
    }

    /// The direct dependents of `source`, in key order.
    pub fn dependents_of(&self, source: &ArtifactKey) -> (r: Vec<ArtifactKey>)
        requires
            self.wf(),
        ensures
            forall|t: Seq<char>| crate::seq_util::has_text(r@, t) <==> #[trigger] self.succ(source.key_text()).contains(t),
            match self.outgoing().spec_get(source.key_text()) {
                Some(targets) => r@ == targets.entries().map_values(|e: (ArtifactKey, ())| e.0),
                None => r@.len() == 0,
            },
    {
        let mut out: Vec<ArtifactKey> = Vec::new();
        match self.outgoing.get(source) {
            None => {},
            Some(targets) => {
                let n = targets.len();
                let mut i: usize = 0;
                while i < n
                    invariant
                        n == targets.size(),
                        i <= n,
                        out@ == targets.entries().take(i as int).map_values(|e: (ArtifactKey, ())| e.0),
                    decreases n - i,
                {
                    out.push(targets.key_at(i).clone());
                    assert(targets.entries().take(i + 1).map_values(|e: (ArtifactKey, ())| e.0)
                        =~= targets.entries().take(i as int).map_values(|e: (ArtifactKey, ())| e.0).push(
                        targets.entries()[i as int].0));
                    i = i + 1;
                }
                proof {
                    crate::seq_util::lemma_take_all(targets.entries());
                    targets.lemma_key_set();
                    assert forall|t: Seq<char>| crate::seq_util::has_text(out@, t) <==> #[trigger] targets.key_set().contains(t) by {
                        if crate::seq_util::has_text(out@, t) {
                            let k = choose|k: int| 0 <= k < out@.len() && #[trigger] out@[k].key_text() == t;
                            assert(targets.text_at(k) == t);
                        }
                        if targets.contains(t) {
                            let k = choose|k: int| 0 <= k < targets.size() && #[trigger] targets.text_at(k) == t;
                            assert(out@[k].key_text() == t);
                        }
                    }
                }
            },
        }
        out
    }
}


impl ArtifactGraph {
    /// Forgets an artifact: its own edges and every edge into it.
    pub fn remove(&mut self, key: &ArtifactKey)
        requires
            old(self).wf(),
        ensures
            final(self).wf(),
            forall|t: Seq<char>| #[trigger] final(self).outgoing().contains(t) == (t != key.key_text()
                && old(self).outgoing().contains(t)),
            forall|t: Seq<char>| #[trigger] final(self).succ(t) == (if t == key.key_text() {
                Set::<Seq<char>>::empty()
            } else {
                old(self).succ(t).remove(key.key_text())
            }),
    {
        self.outgoing.remove(key);
        let ghost mid = self.outgoing;
        proof {
            assert forall|j: int| 0 <= j < mid.size() implies (#[trigger] mid.entries()[j]).1.wf() by {
                let t = mid.text_at(j);
                mid.lemma_get_at(j, t);
                let k = choose|k: int| 0 <= k < old(self).outgoing().size() && #[trigger] old(self).outgoing().text_at(k) == t;
                old(self).outgoing().lemma_get_at(k, t);
            }
        }
        let n = self.outgoing.len();
        let mut i: usize = 0;
        while i < n
            invariant
                n == self.outgoing.size(),
                n == mid.size(),
                i <= n,
                self.outgoing.wf(),
                mid.wf(),
                forall|j: int| 0 <= j < n ==> (#[trigger] mid.entries()[j]).1.wf(),
                forall|j: int| 0 <= j < n ==> #[trigger] self.outgoing.text_at(j) == mid.text_at(j),
                forall|j: int| 0 <= j < i ==> (#[trigger] self.outgoing.entries()[j]).1.wf()
                    && self.outgoing.entries()[j].1.key_set() == mid.entries()[j].1.key_set().remove(key.key_text()),
                forall|j: int| i <= j < n ==> #[trigger] self.outgoing.entries()[j] == mid.entries()[j],
            decreases n - i,
        {
            let ghost before = self.outgoing;
            let previous = self.outgoing.set_value_at(i, IdMap::new());
            assert(previous == mid.entries()[i as int].1);
            let mut targets = previous;
            targets.remove(key);
            proof {
                mid.entries()[i as int].1.lemma_key_set();
                targets.lemma_key_set();
                assert forall|t: Seq<char>| targets.key_set().contains(t) == mid.entries()[i as int].1.key_set().remove(
                    key.key_text()).contains(t) by {
                    assert(targets.spec_get(t) is Some == targets.contains(t));
                    assert(previous.spec_get(t) is Some == previous.contains(t));
                }
                assert(targets.key_set() =~= mid.entries()[i as int].1.key_set().remove(key.key_text()));
            }
            self.outgoing.set_value_at(i, targets);
            assert forall|j: int| 0 <= j < n implies #[trigger] self.outgoing.text_at(j) == mid.text_at(j) by {
                assert(self.outgoing.entries()[j].0 == before.entries()[j].0);
                assert(before.text_at(j) == mid.text_at(j));
            }
            i = i + 1;
        }
        proof {
            assert forall|t: Seq<char>| #[trigger] self.outgoing().contains(t) == (t != key.key_text()
                && old(self).outgoing().contains(t)) by {
                if self.outgoing().contains(t) {
                    let j = choose|j: int| 0 <= j < self.outgoing().size() && #[trigger] self.outgoing().text_at(j) == t;
                    assert(mid.text_at(j) == t);
                    mid.lemma_get_at(j, t);
                }
                if t != key.key_text() && old(self).outgoing().contains(t) {
                    assert(mid.contains(t));
                    let j = choose|j: int| 0 <= j < mid.size() && #[trigger] mid.text_at(j) == t;
                    assert(self.outgoing().text_at(j) == t);
                }
            }
            assert forall|t: Seq<char>| #[trigger] self.succ(t) == (if t == key.key_text() {
                Set::<Seq<char>>::empty()
            } else {
                old(self).succ(t).remove(key.key_text())
            }) by {
                if self.outgoing().contains(t) {
                    let j = choose|j: int| 0 <= j < self.outgoing().size() && #[trigger] self.outgoing().text_at(j) == t;
                    self.outgoing().lemma_get_at(j, t);
                    assert(mid.text_at(j) == t);
                    mid.lemma_get_at(j, t);
                } else {
                    assert(self.outgoing().contains(t) == (t != key.key_text() && old(self).outgoing().contains(t)));
                    if t != key.key_text() && mid.contains(t) {
                        let j = choose|j: int| 0 <= j < mid.size() && #[trigger] mid.text_at(j) == t;
                        assert(self.outgoing().text_at(j) == t);
                    }
                    if t != key.key_text() {
                        assert(!old(self).outgoing().contains(t));
                        assert(old(self).succ(t) == Set::<Seq<char>>::empty());
                        assert(old(self).succ(t).remove(key.key_text()) =~= Set::<Seq<char>>::empty());
                    }
                }
            }
        }
    }

    pub fn clear(&mut self)
        ensures
            final(self).wf(),
            final(self).outgoing().entries().len() == 0,
            forall|t: Seq<char>| #[trigger] final(self).succ(t) == Set::<Seq<char>>::empty(),
    {
        self.outgoing.clear();
    }
}


/// A direct dependent of `source` depends on it.
pub proof fn lemma_closure_holds_direct_dependents(g: ArtifactGraph, source: Seq<char>, t: Seq<char>)
    requires
        g.succ(source).contains(t),
    ensures
        dependents_closure(g, source).contains(t),
{
}

/// Whatever depends on a dependent of `source` depends on `source`.
pub proof fn lemma_closure_is_transitive(g: ArtifactGraph, source: Seq<char>, x: Seq<char>, t: Seq<char>)
    requires
        dependents_closure(g, source).contains(x),
        g.succ(x).contains(t),
    ensures
        dependents_closure(g, source).contains(t),
{
    assert forall|s: Set<Seq<char>>|
        #![trigger closed_under(g, s), s.contains(t)]
        g.succ(source).subset_of(s) && closed_under(g, s) implies s.contains(t) by {
        assert(s.contains(x));
    }
}

/// `path` is a chain of one or more edges out of `source`: its first
/// element depends directly on `source`, each next one on the one before.
pub open spec fn is_chain_from(g: ArtifactGraph, source: Seq<char>, path: Seq<Seq<char>>) -> bool {
    &&& path.len() >= 1
    &&& g.succ(source).contains(path[0])
    &&& forall|i: int| 0 <= i < path.len() - 1 ==> g.succ(path[i]).contains(#[trigger] path[i + 1])
}

/// The dependents of `source` are exactly the ends of the chains of one or
/// more edges out of `source` (`source` itself only when it lies on a
/// cycle).
pub proof fn lemma_closure_is_reachability(g: ArtifactGraph, source: Seq<char>, t: Seq<char>)
    ensures
        dependents_closure(g, source).contains(t) <==> exists|path: Seq<Seq<char>>|
            #[trigger] is_chain_from(g, source, path) && path.last() == t,
{
    let reach = Set::new(
        |x: Seq<char>| exists|path: Seq<Seq<char>>| #[trigger] is_chain_from(g, source, path) && path.last() == x,
    );
    if dependents_closure(g, source).contains(t) {
        assert(g.succ(source).subset_of(reach)) by {
            assert forall|x: Seq<char>| g.succ(source).contains(x) implies reach.contains(x) by {
                assert(is_chain_from(g, source, seq![x]));
            }
        }
        assert(closed_under(g, reach)) by {
            assert forall|x: Seq<char>| #[trigger] reach.contains(x) implies g.succ(x).subset_of(reach) by {
                let path = choose|path: Seq<Seq<char>>| #[trigger] is_chain_from(g, source, path) && path.last() == x;
                assert forall|y: Seq<char>| g.succ(x).contains(y) implies reach.contains(y) by {
                    let longer = path.push(y);
                    assert forall|i: int| 0 <= i < longer.len() - 1 implies g.succ(longer[i]).contains(
                        #[trigger] longer[i + 1],
                    ) by {
                        if i < path.len() - 1 {
                            assert(longer[i] == path[i] && longer[i + 1] == path[i + 1]);
                        } else {
                            assert(longer[i] == x && longer[i + 1] == y);
                        }
                    }
                    assert(is_chain_from(g, source, longer));
                }
            }
        }
        assert(reach.contains(t));
    }
    if exists|path: Seq<Seq<char>>| #[trigger] is_chain_from(g, source, path) && path.last() == t {
        let path = choose|path: Seq<Seq<char>>| #[trigger] is_chain_from(g, source, path) && path.last() == t;
        lemma_chain_in_closure(g, source, path);
    }
}

proof fn lemma_chain_in_closure(g: ArtifactGraph, source: Seq<char>, path: Seq<Seq<char>>)
    requires
        is_chain_from(g, source, path),
    ensures
        dependents_closure(g, source).contains(path.last()),
    decreases path.len(),
{
    if path.len() == 1 {
        lemma_closure_holds_direct_dependents(g, source, path[0]);
    } else {
        let shorter = path.drop_last();
        assert forall|i: int| 0 <= i < shorter.len() - 1 implies g.succ(shorter[i]).contains(
            #[trigger] shorter[i + 1],
        ) by {
            assert(shorter[i] == path[i] && shorter[i + 1] == path[i + 1]);
        }
        lemma_chain_in_closure(g, source, shorter);
        let k = path.len() - 2;
        assert(g.succ(path[k]).contains(path[k + 1]));
        lemma_closure_is_transitive(g, source, shorter.last(), path.last());
    }
}

impl ArtifactGraph {
    /// Everything that depends on `source`, directly or transitively.
    pub fn transitive_dependents_of(&self, source: &ArtifactKey) -> (r: IdMap<ArtifactKey, ()>)
        requires
            self.wf(),
        ensures
            r.wf(),
            r.key_set() == dependents_closure(*self, source.key_text()),
            forall|t: Seq<char>|
                #[trigger] r.key_set().contains(t) <==> exists|path: Seq<Seq<char>>|
                    #[trigger] is_chain_from(*self, source.key_text(), path) && path.last() == t,
    {
        let ghost src = source.key_text();
        proof {
            assert forall|t: Seq<char>| #[trigger] dependents_closure(*self, src).contains(t) <==> exists|
                path: Seq<Seq<char>>,
            | #[trigger] is_chain_from(*self, src, path) && path.last() == t by {
                lemma_closure_is_reachability(*self, src, t);
            }
        }
        proof {
            self.lemma_universe();
        }
        let ghost universe = self.universe();
        let mut visited: IdMap<ArtifactKey, ()> = IdMap::new();
        let mut pending: Vec<ArtifactKey> = self.dependents_of(source);
        proof {
            visited.lemma_key_set();
            assert(visited.key_set() =~= Set::<Seq<char>>::empty());
            assert(self.succ(src).subset_of(universe));
            assert forall|t: Seq<char>| #[trigger] crate::seq_util::has_text(pending@, t) implies universe.contains(t) by {
                assert(self.succ(src).contains(t));
            }
        }
        while pending.len() > 0
            invariant
                self.wf(),
                visited.wf(),
                src == source.key_text(),
                universe == self.universe(),
                universe.finite(),
                forall|t: Seq<char>| #[trigger] self.succ(t).subset_of(universe),
                visited.key_set().subset_of(universe),
                visited.key_set().len() <= universe.len(),
                forall|t: Seq<char>| #[trigger] crate::seq_util::has_text(pending@, t) ==> universe.contains(t),
                forall|t: Seq<char>| #[trigger] self.succ(src).contains(t) ==> visited.contains(t)
                    || crate::seq_util::has_text(pending@, t),
                forall|x: Seq<char>, t: Seq<char>|
                    visited.contains(x) && #[trigger] self.succ(x).contains(t) ==> visited.contains(t)
                        || crate::seq_util::has_text(pending@, t),
                forall|s: Set<Seq<char>>, t: Seq<char>|
                    #![trigger closed_under(*self, s), s.contains(t)]
                    self.succ(src).subset_of(s) && closed_under(*self, s) ==> ((visited.contains(t)
                        || crate::seq_util::has_text(pending@, t)) ==> s.contains(t)),
            decreases universe.len() - visited.key_set().len(), pending@.len(),
        {
            let ghost before = pending@;
            let next = pending.pop().unwrap();
            proof {
                assert(before == pending@.push(next));
                assert(before[before.len() - 1] == next);
                assert(crate::seq_util::has_text(before, next.key_text()));
                assert(universe.contains(next.key_text()));
                assert forall|t: Seq<char>| crate::seq_util::has_text(before, t) == (crate::seq_util::has_text(
                    pending@, t) || next.key_text() == t) by {
                    crate::seq_util::lemma_has_text_push(pending@, next, t);
                }
            }
            if !visited.contains_key(&next) {
                let ghost old_visited = visited;
                visited.insert(next.clone(), ());
                let mut deps = self.dependents_of(&next);
                let ghost mid = pending@;
                let ghost dep_seq = deps@;
                pending.append(&mut deps);
                proof {
                    assert forall|t: Seq<char>| crate::seq_util::has_text(pending@, t) == (crate::seq_util::has_text(
                        mid, t) || crate::seq_util::has_text(dep_seq, t)) by {
                        crate::seq_util::lemma_has_text_append(mid, dep_seq, t);
                    }
                    old_visited.lemma_key_set();
                    visited.lemma_key_set();
                    assert forall|t: Seq<char>| visited.key_set().contains(t) == old_visited.key_set().insert(
                        next.key_text()).contains(t) by {
                        assert(visited.spec_get(t) is Some == visited.contains(t));
                        assert(old_visited.spec_get(t) is Some == old_visited.contains(t));
                    }
                    assert(visited.key_set() =~= old_visited.key_set().insert(next.key_text()));
                    vstd::set_lib::lemma_len_subset(visited.key_set(), universe);
                    assert(visited.key_set().len() == old_visited.key_set().len() + 1);
                    assert forall|x: Seq<char>, t: Seq<char>|
                        visited.contains(x) && #[trigger] self.succ(x).contains(t) implies visited.contains(t)
                            || crate::seq_util::has_text(pending@, t) by {
                        assert(visited.spec_get(t) is Some == visited.contains(t));
                        assert(old_visited.spec_get(t) is Some == old_visited.contains(t));
                        if x == next.key_text() {
                            assert(crate::seq_util::has_text(dep_seq, t));
                        } else {
                            assert(visited.spec_get(x) == old_visited.spec_get(x));
                            assert(old_visited.contains(x));
                            if old_visited.contains(t) {
                                assert(visited.contains(t));
                            } else {
                                assert(crate::seq_util::has_text(before, t));
                                if t == next.key_text() {
                                    assert(visited.contains(t));
                                } else {
                                    assert(crate::seq_util::has_text(mid, t));
                                }
                            }
                        }
                    }
                    assert forall|t: Seq<char>| #[trigger] self.succ(src).contains(t) implies visited.contains(t)
                        || crate::seq_util::has_text(pending@, t) by {
                        assert(visited.spec_get(t) is Some == visited.contains(t));
                        assert(old_visited.spec_get(t) is Some == old_visited.contains(t));
                        if !old_visited.contains(t) {
                            assert(crate::seq_util::has_text(before, t));
                            if t != next.key_text() {
                                assert(crate::seq_util::has_text(mid, t));
                            }
                        }
                    }
                    assert forall|t: Seq<char>| #[trigger] crate::seq_util::has_text(pending@, t) implies universe.contains(t) by {
                        if crate::seq_util::has_text(dep_seq, t) {
                            assert(self.succ(next.key_text()).contains(t));
                            assert(self.succ(next.key_text()).subset_of(universe));
                        } else {
                            assert(crate::seq_util::has_text(before, t));
                        }
                    }
                    assert forall|s: Set<Seq<char>>, t: Seq<char>|
                        #![trigger closed_under(*self, s), s.contains(t)]
                        self.succ(src).subset_of(s) && closed_under(*self, s) implies ((visited.contains(t)
                            || crate::seq_util::has_text(pending@, t)) ==> s.contains(t)) by {
                        if self.succ(src).subset_of(s) && closed_under(*self, s) {
                            assert(s.contains(next.key_text()));
                            if visited.contains(t) && t != next.key_text() {
                                assert(visited.spec_get(t) == old_visited.spec_get(t));
                                assert(old_visited.contains(t));
                            }
                            if crate::seq_util::has_text(mid, t) {
                                assert(crate::seq_util::has_text(before, t));
                            }
                            if crate::seq_util::has_text(dep_seq, t) {
                                assert(self.succ(next.key_text()).contains(t));
                                assert(self.succ(next.key_text()).subset_of(s));
                            }
                        }
                    }
                }
            } else {
                proof {
                    assert forall|t: Seq<char>| #[trigger] crate::seq_util::has_text(pending@, t) implies universe.contains(t) by {
                        assert(crate::seq_util::has_text(before, t));
                    }
                    assert forall|t: Seq<char>| #[trigger] self.succ(src).contains(t) implies visited.contains(t)
                        || crate::seq_util::has_text(pending@, t) by {
                        if !visited.contains(t) {
                            assert(crate::seq_util::has_text(before, t));
                        }
                    }
                    assert forall|x: Seq<char>, t: Seq<char>|
                        visited.contains(x) && #[trigger] self.succ(x).contains(t) implies visited.contains(t)
                            || crate::seq_util::has_text(pending@, t) by {
                        assert(crate::seq_util::has_text(before, t) ==> (crate::seq_util::has_text(pending@, t)
                            || next.key_text() == t));
                    }
                }
            }
        }
        proof {
            visited.lemma_key_set();
            let closure = dependents_closure(*self, src);
            assert(closed_under(*self, visited.key_set()));
            assert(self.succ(src).subset_of(visited.key_set()));
            assert forall|t: Seq<char>| closure.contains(t) implies visited.key_set().contains(t) by {
                assert(closed_under(*self, visited.key_set()) && visited.key_set().contains(t) ==> true);
            }
            assert forall|t: Seq<char>| visited.key_set().contains(t) implies closure.contains(t) by {
                assert forall|s: Set<Seq<char>>|
                    #![trigger closed_under(*self, s), s.contains(t)]
                    self.succ(src).subset_of(s) && closed_under(*self, s) implies s.contains(t) by {}
            }
            assert(visited.key_set() =~= closure);
        }
        visited
    }
}


impl ArtifactGraph {
    /// The graph after forgetting every artifact in `gone`.
    pub open spec fn without(self, old: ArtifactGraph, gone: Set<Seq<char>>) -> bool {
        &&& self.wf()
        &&& forall|t: Seq<char>| #[trigger] self.outgoing().contains(t) == (old.outgoing().contains(t)
            && !gone.contains(t))
        &&& forall|t: Seq<char>| #[trigger] self.succ(t) == (if gone.contains(t) {
            Set::<Seq<char>>::empty()
        } else {
            old.succ(t).difference(gone)
        })
    }

    /// Drops every artifact that depends on `source`, directly or
    /// transitively, from the registry and from the graph.
    pub fn invalidate_dependents_of<T>(&mut self, source: &ArtifactKey, registry: &mut ArtifactRegistry<T>)
        requires
            old(self).wf(),
            old(registry).wf(),
        ensures
            final(registry).wf(),
            forall|t: Seq<char>| #[trigger] final(registry).spec_get(t) == (if dependents_closure(*old(self),
                source.key_text()).contains(t) {
                None
            } else {
                old(registry).spec_get(t)
            }),
            final(self).without(*old(self), dependents_closure(*old(self), source.key_text())),
    {
        let dependents = self.transitive_dependents_of(source);
        let ghost closure = dependents_closure(*old(self), source.key_text());
        proof {
            dependents.lemma_key_set();
            assert(self.without(*old(self), Set::<Seq<char>>::empty())) by {
                assert forall|t: Seq<char>| #[trigger] self.succ(t) == (if Set::<Seq<char>>::empty().contains(t) {
                    Set::<Seq<char>>::empty()
                } else {
                    old(self).succ(t).difference(Set::<Seq<char>>::empty())
                }) by {
                    assert(old(self).succ(t).difference(Set::<Seq<char>>::empty()) =~= old(self).succ(t));
                }
            }
        }
        let n = dependents.len();
        let mut i: usize = 0;
        proof {
            assert(dependents.texts().take(0) =~= Seq::<Seq<char>>::empty());
            assert(dependents.texts().take(0).to_set() =~= Set::<Seq<char>>::empty());
        }
        while i < n
            invariant
                n == dependents.size(),
                i <= n,
                dependents.wf(),
                registry.wf(),
                self.without(*old(self), dependents.texts().take(i as int).to_set()),
                forall|t: Seq<char>| #[trigger] registry.spec_get(t) == (if dependents.texts().take(i as int).to_set().contains(t) {
                    None
                } else {
                    old(registry).spec_get(t)
                }),
            decreases n - i,
        {
            let ghost taken = dependents.texts().take(i as int).to_set();
            let ghost next_taken = dependents.texts().take(i + 1).to_set();
            let dependent = dependents.key_at(i);
            proof {
                assert(dependents.texts().take(i + 1) =~= dependents.texts().take(i as int).push(
                    dependents.text_at(i as int)));
                assert(dependent.key_text() == dependents.text_at(i as int));
                dependents.texts().take(i as int).lemma_push_to_set_commute(dependents.text_at(i as int));
                assert(next_taken =~= taken.insert(dependent.key_text()));
            }
            let ghost before = *self;
            registry.remove(dependent);
            self.remove(dependent);
            proof {
                assert forall|t: Seq<char>| #[trigger] self.succ(t) == (if next_taken.contains(t) {
                    Set::<Seq<char>>::empty()
                } else {
                    old(self).succ(t).difference(next_taken)
                }) by {
                    if !next_taken.contains(t) {
                        assert(before.succ(t) == old(self).succ(t).difference(taken));
                        assert(old(self).succ(t).difference(taken).remove(dependent.key_text()) =~= old(self).succ(t).difference(next_taken));
                    }
                }
            }
            i = i + 1;
        }
        proof {
            crate::seq_util::lemma_take_all(dependents.texts());
            assert(dependents.texts().to_set() == dependents.key_set());
        }
    }

    /// Drops `key` itself and everything that depends on it.
    pub fn invalidate<T>(&mut self, key: &ArtifactKey, registry: &mut ArtifactRegistry<T>)
        requires
            old(self).wf(),
            old(registry).wf(),
        ensures
            final(registry).wf(),
            forall|t: Seq<char>| #[trigger] final(registry).spec_get(t) == (if t == key.key_text()
                || dependents_closure(*old(self), key.key_text()).contains(t) {
                None
            } else {
                old(registry).spec_get(t)
            }),
            final(self).without(*old(self), dependents_closure(*old(self), key.key_text()).insert(key.key_text())),
    {
        let ghost closure = dependents_closure(*old(self), key.key_text());
        let ghost gone = closure.insert(key.key_text());
        registry.remove(key);
        self.invalidate_dependents_of(key, registry);
        let ghost mid = *self;
        self.remove(key);
        proof {
            assert forall|t: Seq<char>| #[trigger] self.succ(t) == (if gone.contains(t) {
                Set::<Seq<char>>::empty()
            } else {
                old(self).succ(t).difference(gone)
            }) by {
                if !gone.contains(t) {
                    assert(mid.succ(t) == old(self).succ(t).difference(closure));
                    assert(old(self).succ(t).difference(closure).remove(key.key_text()) =~= old(self).succ(t).difference(gone));
                }
            }
        }
    }
}

} // verus!
