use hypreact::artifact_state::{ArtifactGraph, ArtifactKey, ArtifactRecord, ArtifactRegistry};

#[test]
fn invalidates_transitive_dependents_from_source_key() {
    let config = ArtifactKey::config("config");
    let layout = ArtifactKey::layout("master-stack");
    let stylesheet = ArtifactKey::stylesheet_analysis("layouts/master-stack/index.css");

    let mut graph = ArtifactGraph::new();
    graph.replace_edges(config.clone(), vec![layout.clone()]);
    graph.replace_edges(layout.clone(), vec![stylesheet.clone()]);

    let mut registry = ArtifactRegistry::new();
    registry.insert(layout.clone(), ArtifactRecord::new("layout-fp", "layout"));
    registry.insert(stylesheet.clone(), ArtifactRecord::new("style-fp", "style"));

    graph.invalidate_dependents_of(&config, &mut registry);

    assert!(registry.get(&layout).is_none());
    assert!(registry.get(&stylesheet).is_none());
    assert!(graph.dependents_of(&config).is_empty());
}

#[test]
fn invalidate_drops_the_key_itself_and_keeps_unrelated_records() {
    let config = ArtifactKey::config("config");
    let layout = ArtifactKey::layout("master-stack");
    let other = ArtifactKey::js_module_graph("other.js");

    let mut graph = ArtifactGraph::new();
    graph.replace_edges(config.clone(), vec![layout.clone()]);

    let mut registry = ArtifactRegistry::new();
    registry.insert(config.clone(), ArtifactRecord::new("cfg-fp", 1u32));
    registry.insert(layout.clone(), ArtifactRecord::new("layout-fp", 2u32));
    registry.insert(other.clone(), ArtifactRecord::new("other-fp", 3u32));

    graph.invalidate(&config, &mut registry);

    assert!(registry.get(&config).is_none());
    assert!(registry.get(&layout).is_none());
    assert_eq!(registry.get(&other).map(|record| record.value), Some(3));
    assert_eq!(registry.len(), 1);
}

#[test]
fn transitive_dependents_follow_chains_and_cycles() {
    let a = ArtifactKey::config("a");
    let b = ArtifactKey::layout("b");
    let c = ArtifactKey::js_bytecode("c");

    let mut graph = ArtifactGraph::new();
    graph.replace_edges(a.clone(), vec![b.clone()]);
    graph.replace_edges(b.clone(), vec![c.clone(), a.clone()]);

    let closure = graph.transitive_dependents_of(&a);
    assert_eq!(closure.len(), 3);
    assert!(closure.contains_key(&a));
    assert!(closure.contains_key(&b));
    assert!(closure.contains_key(&c));
}

#[test]
fn keys_order_by_kind_then_identity() {
    let mut registry = ArtifactRegistry::new();
    registry.insert(ArtifactKey::stylesheet_analysis("a"), ArtifactRecord::new("1", 1u8));
    registry.insert(ArtifactKey::config("z"), ArtifactRecord::new("2", 2u8));
    registry.insert(ArtifactKey::config("b"), ArtifactRecord::new("3", 3u8));
    let values: Vec<u8> = registry.values().iter().map(|record| record.value).collect();
    assert_eq!(values, vec![3, 2, 1]);
}

#[test]
fn retain_keeps_only_the_records_the_predicate_accepts() {
    let config = ArtifactKey::config("config");
    let layout = ArtifactKey::layout("master-stack");
    let bytecode = ArtifactKey::js_bytecode("layout.js");

    let mut registry = ArtifactRegistry::new();
    registry.insert(config.clone(), ArtifactRecord::new("cfg-fp", 1u32));
    registry.insert(layout.clone(), ArtifactRecord::new("layout-fp", 2u32));
    registry.insert(bytecode.clone(), ArtifactRecord::new("js-fp", 3u32));

    registry.retain(|key, record| key.identity != "master-stack" && record.value != 3);

    assert_eq!(registry.len(), 1);
    assert_eq!(registry.get(&config).map(|record| record.value), Some(1));
    assert!(registry.get(&layout).is_none());
    assert!(registry.get(&bytecode).is_none());
}

#[test]
fn get_mut_writes_through_to_the_stored_record() {
    let layout = ArtifactKey::layout("master-stack");
    let missing = ArtifactKey::layout("spiral");

    let mut registry = ArtifactRegistry::new();
    registry.insert(layout.clone(), ArtifactRecord::new("layout-fp", 2u32));

    if let Some(record) = registry.get_mut(&layout) {
        record.value = 7;
        record.fingerprint = "layout-fp-2".to_string();
    }
    assert!(registry.get_mut(&missing).is_none());

    let stored = registry.get(&layout).unwrap();
    assert_eq!(stored.value, 7);
    assert_eq!(stored.fingerprint, "layout-fp-2");
    assert_eq!(registry.len(), 1);
}
