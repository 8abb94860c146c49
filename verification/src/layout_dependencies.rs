//! Which artifacts a prepared layout depends on: the edges written into the
//! artifact graph after a layout has been prepared from a source bundle.
use vstd::prelude::*;
use vstd::string::*;

use crate::artifact_state::{kind_rank, ArtifactGraph, ArtifactKey, ArtifactKind};
use crate::ids::TextKey;
use crate::seq_util::{has_text, keep_where, lemma_keep_where_step, lemma_take_all};

verus! {

/// The runtime a layout module runs on.
#[derive(Debug, Clone, Copy, PartialEq, Eq, Structural)]
pub enum LayoutRuntimeKind {
    Js,
    Lua,
}

/// A path named by the layout, resolved against the bundle's root, and
/// whether the source bundle holds a file there.
#[derive(Debug, Clone)]
pub struct BundlePathFacts {
    pub resolved: String,
    pub in_bundle: bool,
}

/// A stylesheet of the layout: its path as written and where it lies.
#[derive(Debug, Clone)]
pub struct StylesheetFacts {
    pub path: String,
    pub location: BundlePathFacts,
}

/// A module name: where it lies, whether it is Fennel source (its file
/// extension is `fnl`), and the hash of the name.
#[derive(Debug, Clone)]
pub struct ModuleFacts {
    pub name: String,
    pub location: BundlePathFacts,
    pub is_fennel: bool,
    pub hash: String,
}

/// What the dependency edges of a prepared layout are decided from.
#[derive(Debug, Clone)]
pub struct LayoutDependencyFacts {
    pub runtime: LayoutRuntimeKind,
    /// The selected layout module.
    pub selected_module: ModuleFacts,
    /// The `sourceModule` the runtime payload names, when it names one.
    pub payload_source_module: Option<ModuleFacts>,
    /// The modules of the JavaScript runtime graph, when the payload holds
    /// one that decodes.
    pub js_graph_modules: Option<Vec<BundlePathFacts>>,
    /// The hash of the payload's entry and modules, when it has both.
    pub js_executable_hash: Option<String>,
    /// The hash of the payload's Lua `source`, when it has one.
    pub lua_source_hash: Option<String>,
    pub global_stylesheet: Option<StylesheetFacts>,
    pub layout_stylesheet: Option<StylesheetFacts>,
}

/// The key text of the artifact of `kind` named `identity`.
pub open spec fn key_of(kind: ArtifactKind, identity: Seq<char>) -> Seq<char> {
    seq![kind_rank(kind)] + identity
}

/// The module the layout's source comes from: the payload's
/// `sourceModule`, else the selected module.
pub open spec fn source_module(f: LayoutDependencyFacts) -> ModuleFacts {
    match f.payload_source_module {
        Some(m) => m,
        None => f.selected_module,
    }
}

pub open spec fn bundled_paths(ms: Seq<BundlePathFacts>) -> Seq<Seq<char>> {
    keep_where(ms, |b: BundlePathFacts| b.in_bundle).map_values(|b: BundlePathFacts| b.resolved@)
}

/// The authored files the layout is built from: the bundled modules of the
/// JavaScript runtime graph when there is one, else the source module when
/// the bundle holds it.
pub open spec fn authored_paths(f: LayoutDependencyFacts) -> Seq<Seq<char>> {
    match (f.runtime, f.js_graph_modules) {
        (LayoutRuntimeKind::Js, Some(ms)) => bundled_paths(ms@),
        _ => if source_module(f).location.in_bundle {
            seq![source_module(f).location.resolved@]
        } else {
            Seq::empty()
        },
    }
}

/// The stylesheet analyses the layout depends on, global first.
pub open spec fn stylesheet_keys(f: LayoutDependencyFacts) -> Seq<Seq<char>> {
    let g = match f.global_stylesheet {
        Some(s) => seq![key_of(ArtifactKind::StylesheetAnalysis, s.path@)],
        None => Seq::empty(),
    };
    let l = match f.layout_stylesheet {
        Some(s) => seq![key_of(ArtifactKind::StylesheetAnalysis, s.path@)],
        None => Seq::empty(),
    };
    g + l
}

/// A bundled stylesheet file feeds its analysis.
pub open spec fn stylesheet_edge(s: Option<StylesheetFacts>) -> Seq<(Seq<char>, Seq<Seq<char>>)> {
    match s {
        Some(s) => if s.location.in_bundle {
            seq![
                (
                    key_of(ArtifactKind::AuthoredFile, s.location.resolved@),
                    seq![key_of(ArtifactKind::StylesheetAnalysis, s.path@)],
                ),
            ]
        } else {
            Seq::empty()
        },
        None => Seq::empty(),
    }
}

/// The Lua executable of the layout, named by the selected module and the
/// source's hash.
pub open spec fn lua_executable_key(f: LayoutDependencyFacts, source_hash: Seq<char>) -> Seq<char> {
    key_of(ArtifactKind::LuaExecutable, f.selected_module.name@ + "::"@ + source_hash)
}

/// The compiled Lua source of a Fennel module.
pub open spec fn lua_compiled_key(f: LayoutDependencyFacts) -> Seq<char> {
    key_of(ArtifactKind::LuaCompiledSource, f.selected_module.name@ + "::"@ + source_module(f).hash@)
}

/// The runtime's edges, and what the layout itself depends on through its
/// runtime: the module graph feeds the executable (JavaScript); the
/// compiled Fennel source feeds the executable, or the layout depends on
/// the executable directly (Lua).
pub open spec fn runtime_edges(f: LayoutDependencyFacts) -> (Seq<(Seq<char>, Seq<Seq<char>>)>, Seq<Seq<char>>) {
    match f.runtime {
        LayoutRuntimeKind::Js => match f.js_executable_hash {
            Some(h) => (
                seq![(key_of(ArtifactKind::JsModuleGraph, h@), seq![key_of(ArtifactKind::JsExecutable, h@)])],
                seq![key_of(ArtifactKind::JsModuleGraph, h@)],
            ),
            None => (Seq::empty(), Seq::empty()),
        },
        LayoutRuntimeKind::Lua => match f.lua_source_hash {
            Some(sh) => if source_module(f).is_fennel {
                (seq![(lua_compiled_key(f), seq![lua_executable_key(f, sh@)])], seq![lua_compiled_key(f)])
            } else {
                (Seq::empty(), seq![lua_executable_key(f, sh@)])
            },
            None => (Seq::empty(), Seq::empty()),
        },
    }
}

/// The edges written for a prepared layout, in order: every authored file
/// feeds the layout; bundled stylesheet files feed their analyses; the
/// runtime's edges; and last the layout's own dependents.
pub open spec fn layout_dependency_edges(layout_key: Seq<char>, f: LayoutDependencyFacts) -> Seq<
    (Seq<char>, Seq<Seq<char>>),
> {
    authored_paths(f).map_values(|p: Seq<char>| (key_of(ArtifactKind::AuthoredFile, p), seq![layout_key]))
        + stylesheet_edge(f.global_stylesheet) + stylesheet_edge(f.layout_stylesheet) + runtime_edges(f).0
        + seq![(layout_key, stylesheet_keys(f) + runtime_edges(f).1)]
}

/// The direct dependents of `t` after each edge list of `ops` replaced
/// those of its source in `g`, in order.
pub open spec fn edges_after(g: ArtifactGraph, ops: Seq<(Seq<char>, Seq<Seq<char>>)>, t: Seq<char>) -> Set<
    Seq<char>,
>
    decreases ops.len(),
{
    if ops.len() == 0 {
        g.succ(t)
    } else if ops.last().0 == t {
        ops.last().1.to_set()
    } else {
        edges_after(g, ops.drop_last(), t)
    }
}

pub open spec fn key_texts(v: Seq<ArtifactKey>) -> Seq<Seq<char>> {
    v.map_values(|k: ArtifactKey| k.key_text())
}

/// Replaces the edges of `source` and records it in the ghost list `ops`.
pub(crate) fn write_edges(
    graph: &mut ArtifactGraph,
    source: ArtifactKey,
    targets: Vec<ArtifactKey>,
    Ghost(start): Ghost<ArtifactGraph>,
    Ghost(ops): Ghost<Seq<(Seq<char>, Seq<Seq<char>>)>>,
)
    requires
        old(graph).wf(),
        forall|t: Seq<char>| #[trigger] old(graph).succ(t) == edges_after(start, ops, t),
    ensures
        final(graph).wf(),
        forall|t: Seq<char>|
            #[trigger] final(graph).succ(t) == edges_after(start, ops.push((source.key_text(), key_texts(targets@))), t),
{
    let ghost src = source.key_text();
    let ghost texts = key_texts(targets@);
    let ghost tv = targets@;
    graph.replace_edges(source, targets);
    proof {
        let next = ops.push((src, texts));
        assert(next.drop_last() =~= ops);
        assert(next.last() == (src, texts));
        assert forall|t: Seq<char>| #[trigger] graph.succ(t) == edges_after(start, next, t) by {
            if t == src {
                assert forall|x: Seq<char>| graph.succ(t).contains(x) <==> texts.to_set().contains(x) by {
                    if has_text(tv, x) {
                        let k = choose|k: int| 0 <= k < tv.len() && #[trigger] tv[k].key_text() == x;
                        assert(texts[k] == x);
                    }
                    if texts.contains(x) {
                        let k = choose|k: int| 0 <= k < texts.len() && texts[k] == x;
                        assert(tv[k].key_text() == x);
                    }
                }
                assert(graph.succ(t) =~= texts.to_set());
                assert(edges_after(start, next, t) == texts.to_set());
            } else {
                assert(graph.outgoing().spec_get(t) == old(graph).outgoing().spec_get(t));
                assert(graph.succ(t) == old(graph).succ(t));
                assert(edges_after(start, next, t) == edges_after(start, ops, t));
            }
        }
    }
}

/// `module::hash`.
fn qualified(module: &String, hash: &String) -> (r: String)
    ensures
        r@ == module@ + "::"@ + hash@,
{
    let mut id = module.clone();
    id.append("::");
    id.append(hash.as_str());
    id
}

/// Writes the dependency edges of the prepared layout `layout_key` into
/// `graph`, as `layout_dependency_edges` lists them.
pub fn record_layout_dependencies(graph: &mut ArtifactGraph, layout_key: &ArtifactKey, facts: &LayoutDependencyFacts)
    requires
        old(graph).wf(),
    ensures
        final(graph).wf(),
        forall|t: Seq<char>|
            #[trigger] final(graph).succ(t) == edges_after(
                *old(graph),
                layout_dependency_edges(layout_key.key_text(), *facts),
                t,
            ),
{
    let ghost start = *graph;
    let ghost lk = layout_key.key_text();
    let ghost mut ops: Seq<(Seq<char>, Seq<Seq<char>>)> = Seq::empty();
    let ghost author = |p: Seq<char>| (key_of(ArtifactKind::AuthoredFile, p), seq![lk]);
    // authored files feed the layout
    let source = match &facts.payload_source_module {
        Some(m) => m,
        None => &facts.selected_module,
    };
    let graph_modules = match facts.runtime {
        LayoutRuntimeKind::Js => match &facts.js_graph_modules {
            Some(ms) => Some(ms),
            None => None,
        },
        LayoutRuntimeKind::Lua => None,
    };
    match graph_modules {
        Some(ms) => {
            let ghost pred = |b: BundlePathFacts| b.in_bundle;
            let mut i: usize = 0;
            while i < ms.len()
                invariant
                    i <= ms@.len(),
                    graph.wf(),
                    forall|t: Seq<char>| #[trigger] graph.succ(t) == edges_after(start, ops, t),
                    lk == layout_key.key_text(),
                    author == (|p: Seq<char>| (key_of(ArtifactKind::AuthoredFile, p), seq![lk])),
                    pred == (|b: BundlePathFacts| b.in_bundle),
                    ops == bundled_paths(ms@.take(i as int)).map_values(author),
                decreases ms@.len() - i,
            {
                proof {
                    lemma_keep_where_step(ms@, pred, i as int);
                }
                if ms[i].in_bundle {
                    let key = ArtifactKey::authored_file(ms[i].resolved.as_str());
                    let targets = vec![layout_key.clone()];
                    proof {
                        assert(key_texts(targets@) =~= seq![lk]);
                    }
                    write_edges(graph, key, targets, Ghost(start), Ghost(ops));
                    proof {
                        let before = keep_where(ms@.take(i as int), pred);
                        assert(keep_where(ms@.take(i + 1), pred) == before.push(ms@[i as int]));
                        assert(bundled_paths(ms@.take(i + 1)) =~= bundled_paths(ms@.take(i as int)).push(
                            ms@[i as int].resolved@,
                        ));
                        ops = ops.push(author(ms@[i as int].resolved@));
                        assert(ops =~= bundled_paths(ms@.take(i + 1)).map_values(author));
                    }
                } else {
                    proof {
                        assert(keep_where(ms@.take(i + 1), pred) == keep_where(ms@.take(i as int), pred));
                    }
                }
                i = i + 1;
            }
            proof {
                lemma_take_all(ms@);
                assert(ops =~= authored_paths(*facts).map_values(author));
            }
        },
        None => {
            if source.location.in_bundle {
                let key = ArtifactKey::authored_file(source.location.resolved.as_str());
                let targets = vec![layout_key.clone()];
                proof {
                    assert(key_texts(targets@) =~= seq![lk]);
                }
                write_edges(graph, key, targets, Ghost(start), Ghost(ops));
                proof {
                    ops = ops.push(author(source.location.resolved@));
                }
            }
            proof {
                assert(ops =~= authored_paths(*facts).map_values(author));
            }
        },
    }
    // bundled stylesheet files feed their analyses
    let mut dependents: Vec<ArtifactKey> = Vec::new();
    match &facts.global_stylesheet {
        Some(s) => {
            dependents.push(ArtifactKey::stylesheet_analysis(s.path.as_str()));
            if s.location.in_bundle {
                let key = ArtifactKey::authored_file(s.location.resolved.as_str());
                let targets = vec![ArtifactKey::stylesheet_analysis(s.path.as_str())];
                proof {
                    assert(key_texts(targets@) =~= seq![key_of(ArtifactKind::StylesheetAnalysis, s.path@)]);
                }
                write_edges(graph, key, targets, Ghost(start), Ghost(ops));
                proof {
                    ops = ops.push(stylesheet_edge(facts.global_stylesheet)[0]);
                }
            }
        },
        None => {},
    }
    proof {
        assert(ops =~= authored_paths(*facts).map_values(author) + stylesheet_edge(facts.global_stylesheet));
    }
    match &facts.layout_stylesheet {
        Some(s) => {
            dependents.push(ArtifactKey::stylesheet_analysis(s.path.as_str()));
            if s.location.in_bundle {
                let key = ArtifactKey::authored_file(s.location.resolved.as_str());
                let targets = vec![ArtifactKey::stylesheet_analysis(s.path.as_str())];
                proof {
                    assert(key_texts(targets@) =~= seq![key_of(ArtifactKind::StylesheetAnalysis, s.path@)]);
                }
                write_edges(graph, key, targets, Ghost(start), Ghost(ops));
                proof {
                    ops = ops.push(stylesheet_edge(facts.layout_stylesheet)[0]);
                }
            }
        },
        None => {},
    }
    proof {
        assert(ops =~= authored_paths(*facts).map_values(author) + stylesheet_edge(facts.global_stylesheet)
            + stylesheet_edge(facts.layout_stylesheet));
        assert(key_texts(dependents@) =~= stylesheet_keys(*facts));
    }
    // the runtime's edges
    match facts.runtime {
        LayoutRuntimeKind::Js => match &facts.js_executable_hash {
            Some(h) => {
                dependents.push(ArtifactKey::js_module_graph(h.as_str()));
                let key = ArtifactKey::js_module_graph(h.as_str());
                let targets = vec![ArtifactKey::js_executable(h.as_str())];
                proof {
                    assert(key_texts(targets@) =~= seq![key_of(ArtifactKind::JsExecutable, h@)]);
                }
                write_edges(graph, key, targets, Ghost(start), Ghost(ops));
                proof {
                    ops = ops.push(runtime_edges(*facts).0[0]);
                }
            },
            None => {},
        },
        LayoutRuntimeKind::Lua => match &facts.lua_source_hash {
            Some(sh) => {
                let exe_id = qualified(&facts.selected_module.name, sh);
                if source.is_fennel {
                    let compiled_id = qualified(&facts.selected_module.name, &source.hash);
                    dependents.push(ArtifactKey::lua_compiled_source(compiled_id.as_str()));
                    let key = ArtifactKey::lua_compiled_source(compiled_id.as_str());
                    let targets = vec![ArtifactKey::lua_executable(exe_id.as_str())];
                    proof {
                        assert(key_texts(targets@) =~= seq![lua_executable_key(*facts, sh@)]);
                    }
                    write_edges(graph, key, targets, Ghost(start), Ghost(ops));
                    proof {
                        ops = ops.push(runtime_edges(*facts).0[0]);
                    }
                } else {
                    dependents.push(ArtifactKey::lua_executable(exe_id.as_str()));
                }
            },
            None => {},
        },
    }
    proof {
        assert(ops =~= authored_paths(*facts).map_values(author) + stylesheet_edge(facts.global_stylesheet)
            + stylesheet_edge(facts.layout_stylesheet) + runtime_edges(*facts).0);
        assert(key_texts(dependents@) =~= stylesheet_keys(*facts) + runtime_edges(*facts).1);
    }
    // the layout's own dependents
    let ghost last = (lk, key_texts(dependents@));
    write_edges(graph, layout_key.clone(), dependents, Ghost(start), Ghost(ops));
    proof {
        ops = ops.push(last);
        assert(ops =~= layout_dependency_edges(lk, *facts));
    }
}

} // verus!
