use hypreact::artifact_state::{ArtifactGraph, ArtifactKey, ArtifactRegistry};
use hypreact::prepared_layouts::{authoring_config_key, store_prepared_layout};

#[test]
fn same_fingerprint_reuses_the_cached_layout() {
    let mut registry: ArtifactRegistry<u32> = ArtifactRegistry::new();
    let mut graph = ArtifactGraph::new();
    assert!(!store_prepared_layout(&mut registry, &mut graph, "main", "f1", 1));
    assert!(store_prepared_layout(&mut registry, &mut graph, "main", "f1", 2));
    assert_eq!(registry.get(&ArtifactKey::layout("main")).unwrap().value, 1);
}

#[test]
fn new_fingerprint_replaces_it_and_config_feeds_every_layout() {
    let mut registry: ArtifactRegistry<u32> = ArtifactRegistry::new();
    let mut graph = ArtifactGraph::new();
    assert!(!store_prepared_layout(&mut registry, &mut graph, "main", "f1", 1));
    assert!(!store_prepared_layout(&mut registry, &mut graph, "side", "g1", 5));
    assert!(!store_prepared_layout(&mut registry, &mut graph, "main", "f2", 3));
    let record = registry.get(&ArtifactKey::layout("main")).unwrap();
    assert_eq!((record.fingerprint.as_str(), record.value), ("f2", 3));
    assert_eq!(
        graph.dependents_of(&authoring_config_key()),
        vec![ArtifactKey::layout("main"), ArtifactKey::layout("side")]
    );
}

use hypreact::layout_dependencies::LayoutRuntimeKind;
use hypreact::prepared_layouts::{prepared_layout_decision, CachedLayoutFacts, PrepareAction, SelectedLayoutFacts};

fn selection(runtime: LayoutRuntimeKind) -> SelectedLayoutFacts {
    SelectedLayoutFacts {
        name: "master-stack".to_string(),
        runtime,
        directory: "layouts/master-stack".to_string(),
        module: "layouts/master-stack.js".to_string(),
    }
}

fn cached(runtime: LayoutRuntimeKind, payload: &str, fresh: bool) -> CachedLayoutFacts {
    CachedLayoutFacts { selected: selection(runtime), runtime_payload: payload.to_string(), dependencies_unchanged: fresh }
}

#[test]
fn unchanged_layout_is_reused() {
    let s = Some(selection(LayoutRuntimeKind::Js));
    assert_eq!(prepared_layout_decision(&s, &Some(cached(LayoutRuntimeKind::Js, "{}", true)), "{}"), PrepareAction::ReuseCached);
}

#[test]
fn changed_payload_or_files_prepare_again() {
    let s = Some(selection(LayoutRuntimeKind::Js));
    assert_eq!(prepared_layout_decision(&s, &Some(cached(LayoutRuntimeKind::Js, "{}", true)), "{\"a\":1}"), PrepareAction::Prepare);
    assert_eq!(prepared_layout_decision(&s, &Some(cached(LayoutRuntimeKind::Js, "{}", false)), "{}"), PrepareAction::Prepare);
    assert_eq!(prepared_layout_decision(&s, &None, "{}"), PrepareAction::Prepare);
    assert_eq!(prepared_layout_decision(&None, &Some(cached(LayoutRuntimeKind::Js, "{}", true)), "{}"), PrepareAction::Prepare);
}

#[test]
fn lua_layouts_ignore_the_payload() {
    let s = Some(selection(LayoutRuntimeKind::Lua));
    assert_eq!(prepared_layout_decision(&s, &Some(cached(LayoutRuntimeKind::Lua, "{}", true)), "other"), PrepareAction::ReuseCached);
    assert_eq!(prepared_layout_decision(&s, &Some(cached(LayoutRuntimeKind::Js, "{}", true)), "{}"), PrepareAction::Prepare);
}
