//! Workspace selection and window placement on top of the model, and the
//! layouts used when no authored layout is available.
use vstd::prelude::*;

use crate::ids::{TextKey, WindowId, WorkspaceId, copy_opt_key, opt_text};
use crate::layout::{LayoutNodeMeta, RemainingTake, ResolvedLayoutNode, SlotTake, SourceLayoutNode};
use crate::seq_util::{first_index, lemma_first_index};
use crate::text::text_lt;
use crate::wm::{WindowModel, WmModel, WorkspaceModel};

verus! {

/// The workspace that was selected and the window that should take focus.
#[derive(Debug, PartialEq, Eq)]
pub struct WorkspaceSelection {
    pub workspace_id: WorkspaceId,
    pub focused_window_id: Option<WindowId>,
}

/// `after` is `before` with `ws` made the current workspace.
pub open spec fn selected(after: WmModel, before: WmModel, ws: WorkspaceId) -> bool {
    &&& after.wf()
    &&& after.current_workspace_id == Some(ws)
    &&& after.workspaces.entries() == before.workspaces.entries().map_values(WmModel::selected_as(ws@))
    &&& after.windows == before.windows
    &&& after.outputs == before.outputs
    &&& after.focused_window_id == before.focused_window_id
    &&& after.current_output_id == before.current_output_id
    &&& after.focus_tree == before.focus_tree
    &&& after.last_focused_window_id_by_scope == before.last_focused_window_id_by_scope
    &&& after.tiled_window_order_by_workspace == before.tiled_window_order_by_workspace
}

/// Ensures a workspace named `name` exists (its id is its name).
pub fn ensure_workspace(model: &mut WmModel, name: &str) -> (r: WorkspaceId)
    requires
        old(model).wf(),
    ensures
        final(model).wf(),
        r@ == name@,
        final(model).workspaces.contains(name@),
        final(model).same_but_workspaces(*old(model)),
        forall|t: Seq<char>| t != name@ ==> #[trigger] final(model).workspace(t) == old(model).workspace(t),
        old(model).workspaces.contains(name@) ==> final(model).workspace(name@).unwrap()
            == (WorkspaceModel { name: final(model).workspace(name@).unwrap().name, ..old(model).workspace(name@).unwrap() }),
        final(model).workspace(name@).unwrap().name@ == name@,
        !old(model).workspaces.contains(name@) ==> ({
            let w = final(model).workspace(name@).unwrap();
            w.id@ == name@ && w.output_id is None && w.layout_space is None && !w.focused && !w.visible
                && w.effective_layout is None
        }),
{
    let name = name.to_owned();
    let workspace_id = WorkspaceId(name.clone());
    model.upsert_workspace(workspace_id.clone(), name);
    workspace_id
}

/// Selects an existing workspace and picks the window that should take
/// focus there among `window_ids`; nothing changes for an unknown one.
pub fn request_select_workspace(
    model: &mut WmModel,
    workspace_id: WorkspaceId,
    window_ids: Vec<WindowId>,
) -> (r: Option<WorkspaceSelection>)
    requires
        old(model).wf(),
    ensures
        final(model).wf(),
        (r is None) <==> !old(model).workspaces.contains(workspace_id@),
        (r is None) ==> *final(model) == *old(model),
        (r is Some) ==> selected(*final(model), *old(model), workspace_id)
            && r.unwrap().workspace_id == workspace_id
            && r.unwrap().focused_window_id == final(model).spec_preferred_focus(window_ids@),
{
    if !model.workspaces.contains_key(&workspace_id) {
        return None;
    }
    model.set_current_workspace(workspace_id.clone());
    let focused_window_id = model.preferred_focus_window_on_current_workspace(window_ids);
    Some(WorkspaceSelection { workspace_id, focused_window_id })
}

/// The record of a workspace after `ws` was made current.
pub open spec fn as_selected(ws: Seq<char>, t: Seq<char>, w: Option<WorkspaceModel>) -> Option<WorkspaceModel> {
    match w {
        Some(w) => Some(WorkspaceModel { focused: t == ws, visible: t == ws, ..w }),
        None => None,
    }
}

/// Selecting `ws` changes each workspace record only in its focused and
/// visible flags, which then say whether it is `ws`.
proof fn lemma_selected_records(after: WmModel, before: WmModel, ws: WorkspaceId, t: Seq<char>)
    requires
        before.wf(),
        selected(after, before, ws),
    ensures
        after.workspace(t) == as_selected(ws@, t, before.workspace(t)),
{
    assert(after.workspaces.size() == before.workspaces.size());
    if before.workspaces.contains(t) {
        let j = choose|j: int| 0 <= j < before.workspaces.size() && #[trigger] before.workspaces.text_at(j) == t;
        before.workspaces.lemma_get_at(j, t);
        assert(after.workspaces.entries()[j] == WmModel::selected_as(ws@)(before.workspaces.entries()[j]));
        assert(after.workspaces.text_at(j) == t);
        after.workspaces.lemma_get_at(j, t);
    } else {
        if after.workspaces.contains(t) {
            let j = choose|j: int| 0 <= j < after.workspaces.size() && #[trigger] after.workspaces.text_at(j) == t;
            assert(after.workspaces.entries()[j] == WmModel::selected_as(ws@)(before.workspaces.entries()[j]));
            assert(before.workspaces.text_at(j) == t);
        }
    }
}

/// Ensures workspace `name` exists and, when no workspace is current,
/// selects it (with every known window as a focus hint); only the
/// workspace table and the current workspace change.
pub fn ensure_default_workspace(model: &mut WmModel, name: &str) -> (r: WorkspaceId)
    requires
        old(model).wf(),
    ensures
        final(model).wf(),
        r@ == name@,
        final(model).workspaces.contains(name@),
        old(model).current_workspace_id is Some ==> final(model).current_workspace_id
            == old(model).current_workspace_id,
        old(model).current_workspace_id is None ==> final(model).current_workspace_id == Some(r),
        final(model).windows == old(model).windows,
        final(model).outputs == old(model).outputs,
        final(model).focused_window_id == old(model).focused_window_id,
        final(model).current_output_id == old(model).current_output_id,
        final(model).focus_tree == old(model).focus_tree,
        final(model).last_focused_window_id_by_scope == old(model).last_focused_window_id_by_scope,
        final(model).tiled_window_order_by_workspace == old(model).tiled_window_order_by_workspace,
        forall|t: Seq<char>|
            t != name@ ==> #[trigger] final(model).workspace(t) == (if old(model).current_workspace_id is None {
                as_selected(name@, t, old(model).workspace(t))
            } else {
                old(model).workspace(t)
            }),
        ({
            let w = final(model).workspace(name@).unwrap();
            let fresh = old(model).current_workspace_id is None;
            &&& w.name@ == name@
            &&& w.focused == (fresh || (old(model).workspaces.contains(name@) && old(model).workspace(
                name@,
            ).unwrap().focused))
            &&& w.visible == (fresh || (old(model).workspaces.contains(name@) && old(model).workspace(
                name@,
            ).unwrap().visible))
            &&& old(model).workspaces.contains(name@) ==> w == WorkspaceModel {
                name: w.name,
                focused: w.focused,
                visible: w.visible,
                ..old(model).workspace(name@).unwrap()
            }
            &&& !old(model).workspaces.contains(name@) ==> w.id@ == name@ && w.output_id is None
                && w.layout_space is None && w.effective_layout is None
        }),
{
    let workspace_id = ensure_workspace(model, name);
    if model.current_workspace_id.is_none() {
        let ghost before = *model;
        let mut window_ids: Vec<WindowId> = Vec::new();
        let n = model.windows.len();
        let mut i: usize = 0;
        while i < n
            invariant
                n == model.windows.size(),
                i <= n,
            decreases n - i,
        {
            window_ids.push(model.windows.key_at(i).clone());
            i = i + 1;
        }
        let selection = request_select_workspace(model, workspace_id.clone(), window_ids);
        proof {
            assert forall|t: Seq<char>| #[trigger] model.workspace(t) == as_selected(name@, t, before.workspace(t)) by {
                lemma_selected_records(*model, before, workspace_id, t);
            }
            assert(model.workspace(name@) == as_selected(name@, name@, before.workspace(name@)));
        }
    }
    workspace_id
}

/// Key texts of the workspaces, in order.
pub open spec fn workspace_keys(model: WmModel) -> Seq<WorkspaceId> {
    model.workspaces.entries().map_values(|e: (WorkspaceId, WorkspaceModel)| e.0)
}

pub open spec fn after_text(c: Seq<char>) -> spec_fn(WorkspaceId) -> bool {
    |k: WorkspaceId| text_lt(c, k@)
}

pub open spec fn before_text(c: Seq<char>) -> spec_fn(WorkspaceId) -> bool {
    |k: WorkspaceId| text_lt(k@, c)
}

/// The workspace after the current one in key order, wrapping to the first.
pub open spec fn spec_next_workspace(model: WmModel) -> Option<WorkspaceId> {
    let keys = workspace_keys(model);
    if keys.len() == 0 {
        None
    } else {
        match model.current_workspace_id {
            Some(c) => {
                let i = first_index(keys, after_text(c@));
                if i >= 0 {
                    Some(keys[i])
                } else {
                    Some(keys[0])
                }
            },
            None => Some(keys[0]),
        }
    }
}

/// The workspace before the current one in key order, wrapping to the last.
pub open spec fn spec_previous_workspace(model: WmModel) -> Option<WorkspaceId> {
    let keys = workspace_keys(model);
    if keys.len() == 0 {
        None
    } else {
        match model.current_workspace_id {
            Some(c) => {
                let i = first_index(keys.reverse(), before_text(c@));
                if i >= 0 {
                    Some(keys.reverse()[i])
                } else {
                    Some(keys.last())
                }
            },
            None => Some(keys.last()),
        }
    }
}

fn next_workspace_id(model: &WmModel) -> (r: Option<WorkspaceId>)
    requires
        model.wf(),
    ensures
        r == spec_next_workspace(*model),
{
    let n = model.workspaces.len();
    if n == 0 {
        return None;
    }
    let ghost keys = workspace_keys(*model);
    match &model.current_workspace_id {
        None => Some(model.workspaces.key_at(0).clone()),
        Some(current) => {
            let ghost p = after_text(current@);
            proof {
                lemma_first_index(keys, p);
            }
            let mut i: usize = 0;
            while i < n
                invariant
                    n == model.workspaces.size(),
                    keys == workspace_keys(*model),
                    p == after_text(current@),
                    model.current_workspace_id == Some(*current),
                    n > 0,
                    i <= n,
                    forall|j: int| 0 <= j < i ==> !p(#[trigger] keys[j]),
                decreases n - i,
            {
                if crate::ids::key_lt(current, model.workspaces.key_at(i)) {
                    proof {
                        lemma_first_index(keys, p);
                        assert(keys[i as int] == model.workspaces.entries()[i as int].0);
                        assert(p(keys[i as int]));
                        assert(first_index(keys, p) == i as int);
                        assert(spec_next_workspace(*model) == Some(keys[i as int]));
                    }
                    return Some(model.workspaces.key_at(i).clone());
                }
                i = i + 1;
            }
            Some(model.workspaces.key_at(0).clone())
        },
    }
}

fn previous_workspace_id(model: &WmModel) -> (r: Option<WorkspaceId>)
    requires
        model.wf(),
    ensures
        r == spec_previous_workspace(*model),
{
    let n = model.workspaces.len();
    if n == 0 {
        return None;
    }
    let ghost keys = workspace_keys(*model);
    match &model.current_workspace_id {
        None => Some(model.workspaces.key_at(n - 1).clone()),
        Some(current) => {
            let ghost p = before_text(current@);
            let ghost rev = keys.reverse();
            proof {
                lemma_first_index(rev, p);
            }
            let mut i: usize = 0;
            while i < n
                invariant
                    n == model.workspaces.size(),
                    keys == workspace_keys(*model),
                    rev == keys.reverse(),
                    p == before_text(current@),
                    model.current_workspace_id == Some(*current),
                    n > 0,
                    i <= n,
                    forall|j: int| 0 <= j < i ==> !p(#[trigger] rev[j]),
                decreases n - i,
            {
                assert(rev[i as int] == keys[n - 1 - i]);
                if crate::ids::key_lt(model.workspaces.key_at(n - 1 - i), current) {
                    proof {
                        lemma_first_index(rev, p);
                        assert(keys[n - 1 - i] == model.workspaces.entries()[n - 1 - i].0);
                        assert(p(rev[i as int]));
                    }
                    return Some(model.workspaces.key_at(n - 1 - i).clone());
                }
                i = i + 1;
            }
            proof {
                lemma_first_index(rev, p);
            }
            Some(model.workspaces.key_at(n - 1).clone())
        },
    }
}

/// Selects the workspace after the current one (wrapping); see
/// `request_select_workspace` for the focus choice.
pub fn request_select_next_workspace(model: &mut WmModel, window_ids: Vec<WindowId>) -> (r: Option<WorkspaceSelection>)
    requires
        old(model).wf(),
    ensures
        final(model).wf(),
        spec_next_workspace(*old(model)) is None ==> r is None && *final(model) == *old(model),
        spec_next_workspace(*old(model)) is Some ==> ({
            let ws = spec_next_workspace(*old(model)).unwrap();
            &&& r is Some
            &&& selected(*final(model), *old(model), ws)
            &&& r.unwrap().workspace_id == ws
            &&& r.unwrap().focused_window_id == final(model).spec_preferred_focus(window_ids@)
        }),
{
    let next = next_workspace_id(model);
    match next {
        None => None,
        Some(ws) => {
            proof {
                let keys = workspace_keys(*model);
                let k = if keys[0] == ws { 0 } else { first_index(keys, after_text(model.current_workspace_id.unwrap()@)) };
                lemma_first_index(keys, after_text(model.current_workspace_id.unwrap()@));
                assert(keys[k] == ws);
                assert(model.workspaces.text_at(k) == ws@);
            }
            request_select_workspace(model, ws, window_ids)
        },
    }
}

/// Selects the workspace before the current one (wrapping); see
/// `request_select_workspace` for the focus choice.
pub fn request_select_previous_workspace(model: &mut WmModel, window_ids: Vec<WindowId>) -> (r: Option<WorkspaceSelection>)
    requires
        old(model).wf(),
    ensures
        final(model).wf(),
        spec_previous_workspace(*old(model)) is None ==> r is None && *final(model) == *old(model),
        spec_previous_workspace(*old(model)) is Some ==> ({
            let ws = spec_previous_workspace(*old(model)).unwrap();
            &&& r is Some
            &&& selected(*final(model), *old(model), ws)
            &&& r.unwrap().workspace_id == ws
            &&& r.unwrap().focused_window_id == final(model).spec_preferred_focus(window_ids@)
        }),
{
    let previous = previous_workspace_id(model);
    match previous {
        None => None,
        Some(ws) => {
            proof {
                let keys = workspace_keys(*model);
                let n = keys.len();
                if model.current_workspace_id is Some {
                    let p = before_text(model.current_workspace_id.unwrap()@);
                    lemma_first_index(keys.reverse(), p);
                    let i = first_index(keys.reverse(), p);
                    if i >= 0 {
                        assert(keys.reverse()[i] == keys[n - 1 - i]);
                        assert(model.workspaces.text_at(n - 1 - i) == ws@);
                    } else {
                        assert(model.workspaces.text_at(n - 1) == ws@);
                    }
                } else {
                    assert(model.workspaces.text_at(n - 1) == ws@);
                }
            }
            request_select_workspace(model, ws, window_ids)
        },
    }
}

/// Adds a window on the current workspace and output.
pub fn place_new_window(model: &mut WmModel, window_id: WindowId) -> (r: WindowId)
    requires
        old(model).wf(),
    ensures
        final(model).wf(),
        r == window_id,
        final(model).window(window_id@) == Some(WindowModel::spec_new(
            window_id,
            old(model).current_output_id,
            old(model).current_workspace_id,
        )),
        forall|t: Seq<char>| t != window_id@ ==> #[trigger] final(model).window(t) == old(model).window(t),
        final(model).current_workspace_id == old(model).current_workspace_id,
        final(model).current_output_id == old(model).current_output_id,
{
    let workspace_id = copy_opt_key(&model.current_workspace_id);
    let output_id = copy_opt_key(&model.current_output_id);
    model.insert_window(window_id.clone(), workspace_id, output_id);
    window_id
}

/// A slot with no metadata and no match that takes `take` windows.
pub open spec fn is_plain_slot(node: SourceLayoutNode, take: SlotTake) -> bool {
    match node {
        SourceLayoutNode::Slot { meta, window_match, take: t } => meta.is_blank() && window_match is None
            && t == take,
        _ => false,
    }
}

/// A group with id `id` holding exactly one plain slot taking `take`.
pub open spec fn is_slot_group(node: SourceLayoutNode, id: Seq<char>, take: SlotTake) -> bool {
    match node {
        SourceLayoutNode::Group { meta, children } => meta.id is Some && meta.id.unwrap()@ == id
            && children@.len() == 1 && is_plain_slot(children@[0], take),
        _ => false,
    }
}

/// Two groups, `main` with a one-window slot and `stack` with a slot that
/// takes the remaining windows.
pub open spec fn is_master_stack(node: SourceLayoutNode) -> bool {
    match node {
        SourceLayoutNode::Workspace { meta, children } => {
            &&& meta.is_blank()
            &&& children@.len() == 2
            &&& is_slot_group(children@[0], seq!['m', 'a', 'i', 'n'], SlotTake::Count(1))
            &&& is_slot_group(children@[1], seq!['s', 't', 'a', 'c', 'k'], SlotTake::Remaining(RemainingTake::Remaining))
        },
        _ => false,
    }
}

/// The layout used when no authored one is available: a main area with one
/// window and a stack with the rest.
pub fn fallback_master_stack_layout_tree() -> (r: SourceLayoutNode)
    ensures
        is_master_stack(r),
{
    proof {
        reveal_strlit("main");
        reveal_strlit("stack");
        assert("main"@ =~= seq!['m', 'a', 'i', 'n']);
        assert("stack"@ =~= seq!['s', 't', 'a', 'c', 'k']);
    }
    let main_slot = SourceLayoutNode::Slot {
        meta: LayoutNodeMeta::default(),
        window_match: None,
        take: SlotTake::Count(1),
    };
    let stack_slot = SourceLayoutNode::Slot {
        meta: LayoutNodeMeta::default(),
        window_match: None,
        take: SlotTake::Remaining(RemainingTake::Remaining),
    };
    let mut main_children = Vec::new();
    main_children.push(main_slot);
    let mut stack_children = Vec::new();
    stack_children.push(stack_slot);
    assert(is_plain_slot(main_children@[0], SlotTake::Count(1)));
    assert(is_plain_slot(stack_children@[0], SlotTake::Remaining(RemainingTake::Remaining)));
    let main = SourceLayoutNode::Group { meta: LayoutNodeMeta::with_id("main"), children: main_children };
    assert(is_slot_group(main, seq!['m', 'a', 'i', 'n'], SlotTake::Count(1)));
    let stack = SourceLayoutNode::Group { meta: LayoutNodeMeta::with_id("stack"), children: stack_children };
    assert(is_slot_group(stack, seq!['s', 't', 'a', 'c', 'k'], SlotTake::Remaining(RemainingTake::Remaining)));
    let mut children = Vec::new();
    children.push(main);
    children.push(stack);
    SourceLayoutNode::Workspace { meta: LayoutNodeMeta::default(), children }
}

/// A resolved window leaf for `w`.
pub open spec fn is_window_leaf(node: ResolvedLayoutNode, w: WindowId) -> bool {
    match node {
        ResolvedLayoutNode::Window { meta, window_id, children } => meta.is_blank() && window_id == Some(w)
            && children@.len() == 0,
        _ => false,
    }
}

/// A workspace root holding one window leaf per id, in order.
pub fn flat_workspace_root(visible_window_ids: Vec<WindowId>) -> (r: ResolvedLayoutNode)
    ensures
        match r {
            ResolvedLayoutNode::Workspace { meta, children } => {
                &&& meta.is_blank()
                &&& children@.len() == visible_window_ids@.len()
                &&& forall|i: int| 0 <= i < children@.len() ==> is_window_leaf(
                    #[trigger] children@[i],
                    visible_window_ids@[i],
                )
            },
            _ => false,
        },
{
    let mut children: Vec<ResolvedLayoutNode> = Vec::new();
    let mut i: usize = 0;
    while i < visible_window_ids.len()
        invariant
            i <= visible_window_ids@.len(),
            children@.len() == i,
            forall|j: int| 0 <= j < i ==> is_window_leaf(#[trigger] children@[j], visible_window_ids@[j]),
        decreases visible_window_ids@.len() - i,
    {
        children.push(ResolvedLayoutNode::Window {
            meta: LayoutNodeMeta::default(),
            window_id: Some(visible_window_ids[i].clone()),
            children: Vec::new(),
        });
        i = i + 1;
    }
    ResolvedLayoutNode::Workspace { meta: LayoutNodeMeta::default(), children }
}

proof fn lemma_sorted_keys(model: WmModel, a: int, b: int)
    requires
        model.wf(),
        0 <= a < b < workspace_keys(model).len(),
    ensures
        text_lt(workspace_keys(model)[a]@, workspace_keys(model)[b]@),
{
    assert(model.workspaces.text_at(a) == workspace_keys(model)[a]@);
    assert(model.workspaces.text_at(b) == workspace_keys(model)[b]@);
}

/// In the sorted keys, the first key after key `j` is at `j + 1` and the
/// last key before it at `j - 1` (searched from the end).
proof fn lemma_neighbour_positions(model: WmModel, j: int)
    requires
        model.wf(),
        0 <= j < workspace_keys(model).len(),
    ensures
        ({
            let keys = workspace_keys(model);
            let n = keys.len() as int;
            &&& first_index(keys, after_text(keys[j]@)) == (if j + 1 < n { j + 1 } else { -1 })
            &&& first_index(keys.reverse(), before_text(keys[j]@)) == (if j > 0 { n - j } else { -1 })
        }),
{
    let keys = workspace_keys(model);
    let n = keys.len() as int;
    let c = keys[j]@;
    lemma_first_index(keys, after_text(c));
    lemma_first_index(keys.reverse(), before_text(c));
    assert forall|k: int| 0 <= k < n implies (#[trigger] after_text(c)(keys[k]) <==> k > j) by {
        if k > j {
            lemma_sorted_keys(model, j, k);
        } else if k == j {
            crate::text::lemma_text_lt_irreflexive(c);
        } else {
            lemma_sorted_keys(model, k, j);
            crate::text::lemma_text_lt_asymmetric(keys[k]@, c);
        }
    }
    assert forall|r: int| 0 <= r < n implies (#[trigger] before_text(c)(keys.reverse()[r]) <==> n - 1 - r < j) by {
        let k = n - 1 - r;
        assert(keys.reverse()[r] == keys[k]);
        if k < j {
            lemma_sorted_keys(model, k, j);
        } else if k == j {
            crate::text::lemma_text_lt_irreflexive(c);
        } else {
            lemma_sorted_keys(model, j, k);
            crate::text::lemma_text_lt_asymmetric(c, keys[k]@);
        }
    }
    if j + 1 < n {
        assert(after_text(c)(keys[j + 1]));
    }
    if j > 0 {
        assert(before_text(c)(keys.reverse()[n - j]));
    }
}

/// Selecting the next workspace and then the previous one comes back to the
/// workspace one started from (and the other way round), when the current
/// workspace exists.
pub proof fn lemma_next_then_previous_returns(m0: WmModel, m1: WmModel, m2: WmModel)
    requires
        m0.wf(),
        m0.current_workspace_id is Some,
        m0.workspaces.contains(m0.current_workspace_id->0@),
        spec_next_workspace(m0) is Some,
        selected(m1, m0, spec_next_workspace(m0)->0),
        spec_previous_workspace(m0) is Some,
        selected(m2, m0, spec_previous_workspace(m0)->0),
    ensures
        spec_previous_workspace(m1) is Some,
        spec_previous_workspace(m1)->0@ == m0.current_workspace_id->0@,
        spec_next_workspace(m2) is Some,
        spec_next_workspace(m2)->0@ == m0.current_workspace_id->0@,
{
    let keys = workspace_keys(m0);
    let n = keys.len() as int;
    let c = m0.current_workspace_id->0@;
    let j = m0.workspaces.index_of(c);
    m0.workspaces.lemma_index_of(j);
    assert(keys[j]@ == c);
    assert(workspace_keys(m1) =~= keys);
    assert(workspace_keys(m2) =~= keys);
    lemma_neighbour_positions(m0, j);
    let next = spec_next_workspace(m0)->0;
    let prev = spec_previous_workspace(m0)->0;
    if j + 1 < n {
        assert(next == keys[j + 1]);
        lemma_neighbour_positions(m0, j + 1);
        assert(keys.reverse()[n - (j + 1)] == keys[j]);
    } else {
        assert(next == keys[0]);
        lemma_neighbour_positions(m0, 0);
        assert(keys.last() == keys[j]);
    }
    if j > 0 {
        assert(keys.reverse()[n - j] == keys[j - 1]);
        assert(prev == keys[j - 1]);
        lemma_neighbour_positions(m0, j - 1);
    } else {
        assert(prev == keys.last());
        lemma_neighbour_positions(m0, n - 1);
        assert(keys.last() == keys[n - 1]);
    }
}

} // verus!
