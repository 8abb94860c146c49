//! The cache of prepared layouts: what is kept when a layout has been
//! prepared again, and how the configuration's dependents follow the cache.
use vstd::prelude::*;

use crate::artifact_state::{ArtifactGraph, ArtifactKey, ArtifactKind, ArtifactMap, ArtifactRecord};
use crate::ids::TextKey;
use crate::layout_dependencies::{edges_after, key_of, key_texts, write_edges, LayoutRuntimeKind};
use crate::text::text_eq;
use crate::seq_util::{keep_where, lemma_keep_where_step, lemma_take_all};

verus! {

/// The key of the loaded configuration.
pub fn authoring_config_key() -> (r: ArtifactKey)
    ensures
        r.kind == ArtifactKind::Config,
        r.identity@ == "authoring-config"@,
{
    ArtifactKey::config("authoring-config")
}

pub open spec fn is_layout_entry<T>() -> spec_fn((ArtifactKey, ArtifactRecord<T>)) -> bool {
    |e: (ArtifactKey, ArtifactRecord<T>)| e.0.kind == ArtifactKind::Layout
}

/// The keys of the cached layouts, in key order.
pub open spec fn layout_key_texts<T>(entries: Seq<(ArtifactKey, ArtifactRecord<T>)>) -> Seq<Seq<char>> {
    keep_where(entries, is_layout_entry()).map_values(|e: (ArtifactKey, ArtifactRecord<T>)| e.0.key_text())
}

/// Makes the cached layouts exactly the dependents of the configuration.
pub fn record_config_layout_dependencies<T>(graph: &mut ArtifactGraph, registry: &ArtifactMap<T>)
    requires
        old(graph).wf(),
    ensures
        final(graph).wf(),
        forall|t: Seq<char>|
            #[trigger] final(graph).succ(t) == edges_after(
                *old(graph),
                seq![(key_of(ArtifactKind::Config, "authoring-config"@), layout_key_texts(registry.records().entries()))],
                t,
            ),
{
    let entries = registry.iter();
    let ghost all = registry.records().entries();
    let mut keys: Vec<ArtifactKey> = Vec::new();
    let mut i: usize = 0;
    while i < entries.len()
        invariant
            i <= entries@.len(),
            entries@.len() == all.len(),
            all == registry.records().entries(),
            forall|j: int| 0 <= j < entries@.len() ==> *(#[trigger] entries@[j]).0 == all[j].0,
            key_texts(keys@) == layout_key_texts(all.take(i as int)),
        decreases entries@.len() - i,
    {
        proof {
            lemma_keep_where_step(all, is_layout_entry(), i as int);
            assert(*entries@[i as int].0 == all[i as int].0);
        }
        let (key, _) = entries[i];
        if key.kind == ArtifactKind::Layout {
            let ghost before = keys@;
            let copy = key.clone();
            keys.push(copy);
            proof {
                assert(is_layout_entry::<T>()(all[i as int]));
                let kept = keep_where(all.take(i as int), is_layout_entry());
                assert(keep_where(all.take(i + 1), is_layout_entry()) == kept.push(all[i as int]));
                assert(layout_key_texts(all.take(i + 1)) =~= layout_key_texts(all.take(i as int)).push(
                    all[i as int].0.key_text(),
                ));
                assert(key_texts(keys@) =~= key_texts(before).push(copy.key_text()));
                assert(key_texts(keys@) =~= layout_key_texts(all.take(i + 1)));
            }
        } else {
            proof {
                assert(layout_key_texts(all.take(i + 1)) == layout_key_texts(all.take(i as int)));
            }
        }
        i = i + 1;
    }
    proof {
        lemma_take_all(all);
    }
    let config = authoring_config_key();
    write_edges(graph, config, keys, Ghost(*graph), Ghost(Seq::empty()));
    proof {
        assert(seq![(key_of(ArtifactKind::Config, "authoring-config"@), layout_key_texts(all))] =~= Seq::<
            (Seq<char>, Seq<Seq<char>>),
        >::empty().push((config.key_text(), key_texts(keys@))));
    }
}

/// Stores what the runtime prepared for the layout `name`. A cached entry
/// built from the same inputs (same fingerprint) is reused and nothing
/// changes (`true`); otherwise the new entry replaces it and the cached
/// layouts become the configuration's dependents (`false`).
pub fn store_prepared_layout<T>(
    registry: &mut ArtifactMap<T>,
    graph: &mut ArtifactGraph,
    name: &str,
    fingerprint: &str,
    loaded: T,
) -> (reused: bool)
    requires
        old(registry).wf(),
        old(graph).wf(),
    ensures
        reused == (old(registry).spec_get(key_of(ArtifactKind::Layout, name@)) matches Some(rec)
            && rec.fingerprint@ == fingerprint@),
        reused ==> *final(registry) == *old(registry) && *final(graph) == *old(graph),
        !reused ==> {
            &&& final(registry).wf()
            &&& final(registry).spec_get(key_of(ArtifactKind::Layout, name@)) matches Some(rec)
                && rec.fingerprint@ == fingerprint@ && rec.value == loaded
            &&& forall|t: Seq<char>|
                t != key_of(ArtifactKind::Layout, name@) ==> #[trigger] final(registry).spec_get(t)
                    == old(registry).spec_get(t)
            &&& final(graph).wf()
            &&& forall|t: Seq<char>|
                #[trigger] final(graph).succ(t) == edges_after(
                    *old(graph),
                    seq![
                        (
                            key_of(ArtifactKind::Config, "authoring-config"@),
                            layout_key_texts(final(registry).records().entries()),
                        ),
                    ],
                    t,
                )
        },
{
    let key = ArtifactKey::layout(name);
    let same = match registry.get(&key) {
        Some(cached) => crate::text::text_eq(cached.fingerprint.as_str(), fingerprint),
        None => false,
    };
    if same {
        return true;
    }
    registry.insert(key, ArtifactRecord::new(fingerprint, loaded));
    record_config_layout_dependencies(graph, registry);
    false
}


/// The layout selected for a workspace.
#[derive(Debug, Clone)]
pub struct SelectedLayoutFacts {
    pub name: String,
    pub runtime: LayoutRuntimeKind,
    pub directory: String,
    pub module: String,
}

/// What the cache holds for the selected layout's name: the selection it
/// was prepared for, its runtime payload (serialized), and whether the
/// files it was prepared from are unchanged.
#[derive(Debug, Clone)]
pub struct CachedLayoutFacts {
    pub selected: SelectedLayoutFacts,
    pub runtime_payload: String,
    pub dependencies_unchanged: bool,
}

/// Use the cached prepared layout, or prepare the layout again.
#[derive(Debug, Clone, Copy, PartialEq, Eq, Structural)]
pub enum PrepareAction {
    ReuseCached,
    Prepare,
}

pub open spec fn same_selection(a: SelectedLayoutFacts, b: SelectedLayoutFacts) -> bool {
    &&& a.name@ == b.name@
    &&& a.runtime == b.runtime
    &&& a.directory@ == b.directory@
    &&& a.module@ == b.module@
}

/// The cached layout is reused when it was prepared for the same
/// selection, its payload equals the configuration's current one (for
/// JavaScript layouts), and its files are unchanged; otherwise, and when
/// no layout is selected or nothing is cached, the layout is prepared.
pub open spec fn spec_prepare_action(
    selected: Option<SelectedLayoutFacts>,
    cached: Option<CachedLayoutFacts>,
    current_payload: Seq<char>,
) -> PrepareAction {
    match (selected, cached) {
        (Some(s), Some(c)) => if same_selection(c.selected, s) && (s.runtime != LayoutRuntimeKind::Js
            || c.runtime_payload@ == current_payload) && c.dependencies_unchanged {
            PrepareAction::ReuseCached
        } else {
            PrepareAction::Prepare
        },
        _ => PrepareAction::Prepare,
    }
}

/// Whether to reuse the cached prepared layout before preparing anew.
pub fn prepared_layout_decision(
    selected: &Option<SelectedLayoutFacts>,
    cached: &Option<CachedLayoutFacts>,
    current_payload: &str,
) -> (r: PrepareAction)
    ensures
        r == spec_prepare_action(*selected, *cached, current_payload@),
{
    match (selected, cached) {
        (Some(s), Some(c)) => {
            let same = text_eq(c.selected.name.as_str(), s.name.as_str()) && c.selected.runtime == s.runtime
                && text_eq(c.selected.directory.as_str(), s.directory.as_str()) && text_eq(
                c.selected.module.as_str(),
                s.module.as_str(),
            );
            let payload_matches = match s.runtime {
                LayoutRuntimeKind::Js => text_eq(c.runtime_payload.as_str(), current_payload),
                _ => true,
            };
            if same && payload_matches && c.dependencies_unchanged {
                PrepareAction::ReuseCached
            } else {
                PrepareAction::Prepare
            }
        },
        _ => PrepareAction::Prepare,
    }
}

} // verus!
