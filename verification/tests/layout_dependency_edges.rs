use hypreact::artifact_state::{ArtifactGraph, ArtifactKey};
use hypreact::layout_dependencies::{
    record_layout_dependencies, BundlePathFacts, LayoutDependencyFacts, LayoutRuntimeKind, ModuleFacts,
    StylesheetFacts,
};

fn at(path: &str, in_bundle: bool) -> BundlePathFacts {
    BundlePathFacts { resolved: path.to_string(), in_bundle }
}

fn module(name: &str, path: &str, fennel: bool, hash: &str) -> ModuleFacts {
    ModuleFacts { name: name.to_string(), location: at(path, true), is_fennel: fennel, hash: hash.to_string() }
}

fn lua_facts(fennel: bool) -> LayoutDependencyFacts {
    LayoutDependencyFacts {
        runtime: LayoutRuntimeKind::Lua,
        selected_module: module("layouts/main.fnl", "/cfg/layouts/main.fnl", fennel, "aaaa"),
        payload_source_module: None,
        js_graph_modules: None,
        js_executable_hash: None,
        lua_source_hash: Some("ffff".to_string()),
        global_stylesheet: Some(StylesheetFacts { path: "index.css".to_string(), location: at("/cfg/index.css", true) }),
        layout_stylesheet: Some(StylesheetFacts { path: "missing.css".to_string(), location: at("/cfg/missing.css", false) }),
    }
}

#[test]
fn fennel_layout_depends_on_its_compiled_source() {
    let mut graph = ArtifactGraph::new();
    let layout = ArtifactKey::layout("main");
    record_layout_dependencies(&mut graph, &layout, &lua_facts(true));
    assert_eq!(
        graph.dependents_of(&layout),
        vec![
            ArtifactKey::stylesheet_analysis("index.css"),
            ArtifactKey::stylesheet_analysis("missing.css"),
            ArtifactKey::lua_compiled_source("layouts/main.fnl::aaaa"),
        ]
    );
    assert_eq!(
        graph.dependents_of(&ArtifactKey::lua_compiled_source("layouts/main.fnl::aaaa")),
        vec![ArtifactKey::lua_executable("layouts/main.fnl::ffff")]
    );
    assert_eq!(graph.dependents_of(&ArtifactKey::authored_file("/cfg/layouts/main.fnl")), vec![layout.clone()]);
    assert_eq!(
        graph.dependents_of(&ArtifactKey::authored_file("/cfg/index.css")),
        vec![ArtifactKey::stylesheet_analysis("index.css")]
    );
    assert!(graph.dependents_of(&ArtifactKey::authored_file("/cfg/missing.css")).is_empty());
}

#[test]
fn plain_lua_layout_depends_on_its_executable() {
    let mut graph = ArtifactGraph::new();
    let layout = ArtifactKey::layout("main");
    record_layout_dependencies(&mut graph, &layout, &lua_facts(false));
    let deps = graph.dependents_of(&layout);
    assert!(deps.contains(&ArtifactKey::lua_executable("layouts/main.fnl::ffff")));
    assert_eq!(deps.len(), 3);
}

#[test]
fn js_layout_depends_on_bundled_graph_modules() {
    let mut facts = lua_facts(false);
    facts.runtime = LayoutRuntimeKind::Js;
    facts.js_graph_modules = Some(vec![at("/cfg/a.tsx", true), at("/cfg/vendor.js", false), at("/cfg/b.tsx", true)]);
    facts.js_executable_hash = Some("1234".to_string());
    facts.global_stylesheet = None;
    facts.layout_stylesheet = None;
    let mut graph = ArtifactGraph::new();
    let layout = ArtifactKey::layout("main");
    record_layout_dependencies(&mut graph, &layout, &facts);
    assert_eq!(graph.dependents_of(&layout), vec![ArtifactKey::js_module_graph("1234")]);
    assert_eq!(
        graph.dependents_of(&ArtifactKey::js_module_graph("1234")),
        vec![ArtifactKey::js_executable("1234")]
    );
    assert_eq!(graph.dependents_of(&ArtifactKey::authored_file("/cfg/a.tsx")), vec![layout.clone()]);
    assert_eq!(graph.dependents_of(&ArtifactKey::authored_file("/cfg/b.tsx")), vec![layout.clone()]);
    assert!(graph.dependents_of(&ArtifactKey::authored_file("/cfg/vendor.js")).is_empty());
    assert!(graph.dependents_of(&ArtifactKey::authored_file("/cfg/layouts/main.fnl")).is_empty());
}
