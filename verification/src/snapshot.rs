//! Read-only snapshots of outputs and workspaces handed to layouts and
//! clients.
use vstd::prelude::*;

use crate::id_map::IdMap;
use crate::ids::{copy_opt_key, opt_key_is, opt_text, same_key, OutputId, TextKey, WindowId, WorkspaceId};
use crate::resize::{ResizeState, WorkspaceResizeState};
use crate::seq_util::{
    contains_text, copy_keys, first_index, has_text, keep_where, lemma_first_index, lemma_keep_where_step, lemma_take_all,
};
use crate::types::{copy_opt_string, copy_strings, LayoutRef, WindowMode, WindowShell};
use crate::wm::{LayoutSpaceBox, OutputModel, WindowModel, WmModel, WorkspaceModel};

verus! {

#[derive(Debug)]
pub struct OutputSnapshot {
    pub id: OutputId,
    pub name: String,
    pub logical_width: u32,
    pub logical_height: u32,
    pub scale: u32,
    pub enabled: bool,
    pub current_workspace_id: Option<WorkspaceId>,
}

#[derive(Debug)]
pub struct WorkspaceSnapshot {
    pub id: WorkspaceId,
    pub name: String,
    pub output_id: Option<OutputId>,
    pub layout_space: Option<LayoutSpaceBox>,
    pub active_workspaces: Vec<String>,
    pub focused: bool,
    pub visible: bool,
    pub effective_layout: Option<LayoutRef>,
}

fn copy_layout(layout: &Option<LayoutRef>) -> (r: Option<LayoutRef>)
    ensures
        r == *layout,
{
    match layout {
        Some(l) => Some(l.clone()),
        None => None,
    }
}

/// The snapshot of an output: its identity, size and focused workspace,
/// at scale one.
pub fn output_snapshot(output: &OutputModel) -> (r: OutputSnapshot)
    ensures
        r.id == output.id,
        r.name == output.name,
        r.logical_width == output.logical_width,
        r.logical_height == output.logical_height,
        r.scale == 1,
        r.enabled == output.enabled,
        r.current_workspace_id == output.focused_workspace_id,
{
    OutputSnapshot {
        id: output.id.clone(),
        name: output.name.clone(),
        logical_width: output.logical_width,
        logical_height: output.logical_height,
        scale: 1,
        enabled: output.enabled,
        current_workspace_id: copy_opt_key(&output.focused_workspace_id),
    }
}

/// The snapshot of a workspace, with the names of the workspaces active on
/// its output.
pub fn workspace_snapshot(model: &WmModel, workspace: &WorkspaceModel) -> (r: WorkspaceSnapshot)
    ensures
        r.id == workspace.id,
        r.name == workspace.name,
        r.output_id == workspace.output_id,
        r.layout_space == workspace.layout_space,
        r.active_workspaces@ == model.spec_active_workspace_names(*workspace),
        r.focused == workspace.focused,
        r.visible == workspace.visible,
        r.effective_layout == workspace.effective_layout,
{
    WorkspaceSnapshot {
        id: workspace.id.clone(),
        name: workspace.name.clone(),
        output_id: copy_opt_key(&workspace.output_id),
        layout_space: workspace.layout_space,
        active_workspaces: model.active_workspace_names(workspace),
        focused: workspace.focused,
        visible: workspace.visible,
        effective_layout: copy_layout(&workspace.effective_layout),
    }
}

impl OutputSnapshot {
    pub fn copy(&self) -> (r: Self)
        ensures
            r == *self,
    {
        OutputSnapshot {
            id: self.id.clone(),
            name: self.name.clone(),
            logical_width: self.logical_width,
            logical_height: self.logical_height,
            scale: self.scale,
            enabled: self.enabled,
            current_workspace_id: copy_opt_key(&self.current_workspace_id),
        }
    }
}

impl WorkspaceSnapshot {
    /// Equal fields, the active workspace names compared as sequences.
    pub open spec fn same(self, other: Self) -> bool {
        &&& self.id == other.id
        &&& self.name == other.name
        &&& self.output_id == other.output_id
        &&& self.layout_space == other.layout_space
        &&& self.active_workspaces@ == other.active_workspaces@
        &&& self.focused == other.focused
        &&& self.visible == other.visible
        &&& self.effective_layout == other.effective_layout
    }

    pub fn copy(&self) -> (r: Self)
        ensures
            r.same(*self),
    {
        WorkspaceSnapshot {
            id: self.id.clone(),
            name: self.name.clone(),
            output_id: copy_opt_key(&self.output_id),
            layout_space: self.layout_space,
            active_workspaces: copy_strings(&self.active_workspaces),
            focused: self.focused,
            visible: self.visible,
            effective_layout: copy_layout(&self.effective_layout),
        }
    }
}

/// A window as clients see it.
#[derive(Debug)]
pub struct WindowSnapshot {
    pub id: WindowId,
    pub shell: WindowShell,
    pub app_id: Option<String>,
    pub title: Option<String>,
    pub class: Option<String>,
    pub instance: Option<String>,
    pub role: Option<String>,
    pub window_type: Option<String>,
    pub mapped: bool,
    pub mode: WindowMode,
    pub focused: bool,
    pub urgent: bool,
    pub closing: bool,
    pub output_id: Option<OutputId>,
    pub workspace_id: Option<WorkspaceId>,
    pub workspaces: Vec<String>,
}

impl WindowSnapshot {
    /// Equal fields, the workspace names compared as sequences.
    pub open spec fn same(self, other: Self) -> bool {
        &&& self.id == other.id
        &&& self.shell == other.shell
        &&& self.app_id == other.app_id
        &&& self.title == other.title
        &&& self.class == other.class
        &&& self.instance == other.instance
        &&& self.role == other.role
        &&& self.window_type == other.window_type
        &&& self.mapped == other.mapped
        &&& self.mode == other.mode
        &&& self.focused == other.focused
        &&& self.urgent == other.urgent
        &&& self.closing == other.closing
        &&& self.output_id == other.output_id
        &&& self.workspace_id == other.workspace_id
        &&& self.workspaces@ == other.workspaces@
    }

    pub fn copy(&self) -> (r: Self)
        ensures
            r.same(*self),
    {
        WindowSnapshot {
            id: self.id.clone(),
            shell: self.shell,
            app_id: copy_opt_string(&self.app_id),
            title: copy_opt_string(&self.title),
            class: copy_opt_string(&self.class),
            instance: copy_opt_string(&self.instance),
            role: copy_opt_string(&self.role),
            window_type: copy_opt_string(&self.window_type),
            mapped: self.mapped,
            mode: self.mode,
            focused: self.focused,
            urgent: self.urgent,
            closing: self.closing,
            output_id: copy_opt_key(&self.output_id),
            workspace_id: copy_opt_key(&self.workspace_id),
            workspaces: copy_strings(&self.workspaces),
        }
    }
}

/// The whole window-manager state as clients see it.
#[derive(Debug)]
pub struct StateSnapshot {
    pub focused_window_id: Option<WindowId>,
    pub current_output_id: Option<OutputId>,
    pub current_workspace_id: Option<WorkspaceId>,
    pub outputs: Vec<OutputSnapshot>,
    pub workspaces: Vec<WorkspaceSnapshot>,
    pub windows: Vec<WindowSnapshot>,
    pub visible_window_ids: Vec<WindowId>,
    pub workspace_names: Vec<String>,
    pub resize_state: ResizeState,
}

/// Fullscreen wins over floating; otherwise the window is tiled.
pub open spec fn spec_window_mode(window: WindowModel) -> WindowMode {
    if window.fullscreen {
        WindowMode::Fullscreen
    } else if window.floating {
        WindowMode::Floating
    } else {
        WindowMode::Tiled
    }
}

pub fn window_mode(window: &WindowModel) -> (r: WindowMode)
    ensures
        r == spec_window_mode(*window),
{
    if window.fullscreen {
        WindowMode::Fullscreen
    } else if window.floating {
        WindowMode::Floating
    } else {
        WindowMode::Tiled
    }
}

/// `s` is the snapshot of `window`: its identity strings, state and
/// workspace names; no role, type or urgency is known.
pub open spec fn is_window_snapshot_of(s: WindowSnapshot, model: WmModel, window: WindowModel) -> bool {
    &&& s.id == window.id
    &&& s.shell == (if window.is_xwayland {
        WindowShell::Xwayland
    } else {
        WindowShell::Wayland
    })
    &&& s.app_id == window.app_id
    &&& s.title == window.title
    &&& s.class == window.class
    &&& s.instance == window.instance
    &&& s.role is None
    &&& s.window_type is None
    &&& s.mapped == window.mapped
    &&& s.mode == spec_window_mode(window)
    &&& s.focused == window.focused
    &&& !s.urgent
    &&& s.closing == window.closing
    &&& s.output_id == window.output_id
    &&& s.workspace_id == window.workspace_id
    &&& s.workspaces@ == model.spec_workspace_names_for_window(window.id@)
}

pub fn window_snapshot(model: &WmModel, window: &WindowModel) -> (r: WindowSnapshot)
    requires
        model.wf(),
    ensures
        is_window_snapshot_of(r, *model, *window),
{
    WindowSnapshot {
        id: window.id.clone(),
        shell: if window.is_xwayland {
            WindowShell::Xwayland
        } else {
            WindowShell::Wayland
        },
        app_id: copy_opt_string(&window.app_id),
        title: copy_opt_string(&window.title),
        class: copy_opt_string(&window.class),
        instance: copy_opt_string(&window.instance),
        role: None,
        window_type: None,
        mapped: window.mapped,
        mode: window_mode(window),
        focused: window.focused,
        urgent: false,
        closing: window.closing,
        output_id: copy_opt_key(&window.output_id),
        workspace_id: copy_opt_key(&window.workspace_id),
        workspaces: model.workspace_names_for_window(&window.id),
    }
}

pub open spec fn is_output_snapshot_of(s: OutputSnapshot, output: OutputModel) -> bool {
    &&& s.id == output.id
    &&& s.name == output.name
    &&& s.logical_width == output.logical_width
    &&& s.logical_height == output.logical_height
    &&& s.scale == 1
    &&& s.enabled == output.enabled
    &&& s.current_workspace_id == output.focused_workspace_id
}

pub open spec fn is_workspace_snapshot_of(s: WorkspaceSnapshot, model: WmModel, workspace: WorkspaceModel) -> bool {
    &&& s.id == workspace.id
    &&& s.name == workspace.name
    &&& s.output_id == workspace.output_id
    &&& s.layout_space == workspace.layout_space
    &&& s.active_workspaces@ == model.spec_active_workspace_names(workspace)
    &&& s.focused == workspace.focused
    &&& s.visible == workspace.visible
    &&& s.effective_layout == workspace.effective_layout
}

/// The snapshot of the whole model: every output, workspace and window in
/// key order, the visible windows, the workspace names, and no resize
/// adjustments.
pub fn state_snapshot_for_model(model: &WmModel) -> (r: StateSnapshot)
    requires
        model.wf(),
    ensures
        r.focused_window_id == model.focused_window_id,
        r.current_output_id == model.current_output_id,
        r.current_workspace_id == model.current_workspace_id,
        r.outputs@.len() == model.outputs.entries().len(),
        forall|i: int|
            0 <= i < r.outputs@.len() ==> is_output_snapshot_of(#[trigger] r.outputs@[i], model.outputs.entries()[i].1),
        r.workspaces@.len() == model.workspaces.entries().len(),
        forall|i: int|
            0 <= i < r.workspaces@.len() ==> is_workspace_snapshot_of(
                #[trigger] r.workspaces@[i],
                *model,
                model.workspaces.entries()[i].1,
            ),
        r.windows@.len() == model.windows.entries().len(),
        forall|i: int|
            0 <= i < r.windows@.len() ==> is_window_snapshot_of(#[trigger] r.windows@[i], *model, model.windows.entries()[i].1),
        r.visible_window_ids@ == model.spec_visible_window_ids(),
        r.workspace_names@ == model.spec_workspace_names(),
        r.resize_state.tables_wf(),
        r.resize_state.by_workspace_id.size() == 0,
{
    let mut outputs: Vec<OutputSnapshot> = Vec::new();
    let mut i: usize = 0;
    while i < model.outputs.len()
        invariant
            model.wf(),
            i <= model.outputs.size(),
            outputs@.len() == i,
            forall|j: int| 0 <= j < i ==> is_output_snapshot_of(#[trigger] outputs@[j], model.outputs.entries()[j].1),
        decreases model.outputs.size() - i,
    {
        outputs.push(output_snapshot(model.outputs.value_at(i)));
        i = i + 1;
    }
    let workspace_names = model.workspace_names();
    let mut workspaces: Vec<WorkspaceSnapshot> = Vec::new();
    let mut i: usize = 0;
    while i < model.workspaces.len()
        invariant
            model.wf(),
            i <= model.workspaces.size(),
            workspaces@.len() == i,
            forall|j: int|
                0 <= j < i ==> is_workspace_snapshot_of(#[trigger] workspaces@[j], *model, model.workspaces.entries()[j].1),
        decreases model.workspaces.size() - i,
    {
        workspaces.push(workspace_snapshot(model, model.workspaces.value_at(i)));
        i = i + 1;
    }
    let mut windows: Vec<WindowSnapshot> = Vec::new();
    let mut i: usize = 0;
    while i < model.windows.len()
        invariant
            model.wf(),
            i <= model.windows.size(),
            windows@.len() == i,
            forall|j: int| 0 <= j < i ==> is_window_snapshot_of(#[trigger] windows@[j], *model, model.windows.entries()[j].1),
        decreases model.windows.size() - i,
    {
        windows.push(window_snapshot(model, model.windows.value_at(i)));
        i = i + 1;
    }
    let visible_window_ids = model.visible_window_ids();
    StateSnapshot {
        focused_window_id: copy_opt_key(&model.focused_window_id),
        current_output_id: copy_opt_key(&model.current_output_id),
        current_workspace_id: copy_opt_key(&model.current_workspace_id),
        outputs,
        workspaces,
        windows,
        visible_window_ids,
        workspace_names,
        resize_state: ResizeState::default(),
    }
}

impl StateSnapshot {
    pub open spec fn workspace_is(id: Seq<char>) -> spec_fn(WorkspaceSnapshot) -> bool {
        |w: WorkspaceSnapshot| w.id@ == id
    }

    pub open spec fn output_is(id: Seq<char>) -> spec_fn(OutputSnapshot) -> bool {
        |o: OutputSnapshot| o.id@ == id
    }

    /// The first output whose id has the text `id`.
    pub open spec fn spec_output_by_id(self, id: Seq<char>) -> Option<OutputSnapshot> {
        let k = first_index(self.outputs@, Self::output_is(id));
        if k >= 0 {
            Some(self.outputs@[k])
        } else {
            None
        }
    }

    /// The first workspace with the current workspace's id.
    pub open spec fn spec_current_workspace(self) -> Option<WorkspaceSnapshot> {
        match self.current_workspace_id {
            None => None,
            Some(id) => {
                let k = first_index(self.workspaces@, Self::workspace_is(id@));
                if k >= 0 {
                    Some(self.workspaces@[k])
                } else {
                    None
                }
            },
        }
    }

    pub fn current_workspace(&self) -> (r: Option<&WorkspaceSnapshot>)
        ensures
            match r {
                Some(w) => self.spec_current_workspace() == Some(*w),
                None => self.spec_current_workspace() is None,
            },
    {
        let id = match &self.current_workspace_id {
            Some(id) => id,
            None => {
                return None;
            },
        };
        proof {
            lemma_first_index(self.workspaces@, Self::workspace_is(id@));
        }
        let mut i: usize = 0;
        while i < self.workspaces.len()
            invariant
                self.current_workspace_id == Some(*id),
                i <= self.workspaces@.len(),
                forall|j: int| 0 <= j < i ==> !Self::workspace_is(id@)(#[trigger] self.workspaces@[j]),
            decreases self.workspaces@.len() - i,
        {
            if same_key(&self.workspaces[i].id, id) {
                proof {
                    lemma_first_index(self.workspaces@, Self::workspace_is(id@));
                    assert(Self::workspace_is(id@)(self.workspaces@[i as int]));
                }
                return Some(&self.workspaces[i]);
            }
            i = i + 1;
        }
        None
    }

    pub fn output_by_id(&self, output_id: &OutputId) -> (r: Option<&OutputSnapshot>)
        ensures
            match r {
                Some(o) => self.spec_output_by_id(output_id@) == Some(*o),
                None => self.spec_output_by_id(output_id@) is None,
            },
    {
        proof {
            lemma_first_index(self.outputs@, Self::output_is(output_id@));
        }
        let mut i: usize = 0;
        while i < self.outputs.len()
            invariant
                i <= self.outputs@.len(),
                forall|j: int| 0 <= j < i ==> !Self::output_is(output_id@)(#[trigger] self.outputs@[j]),
            decreases self.outputs@.len() - i,
        {
            if same_key(&self.outputs[i].id, output_id) {
                proof {
                    lemma_first_index(self.outputs@, Self::output_is(output_id@));
                    assert(Self::output_is(output_id@)(self.outputs@[i as int]));
                }
                return Some(&self.outputs[i]);
            }
            i = i + 1;
        }
        None
    }

    pub fn current_output(&self) -> (r: Option<&OutputSnapshot>)
        ensures
            match self.current_output_id {
                None => r is None,
                Some(id) => match r {
                    Some(o) => self.spec_output_by_id(id@) == Some(*o),
                    None => self.spec_output_by_id(id@) is None,
                },
            },
    {
        match &self.current_output_id {
            Some(id) => self.output_by_id(id),
            None => None,
        }
    }

    pub open spec fn window_is(id: Seq<char>) -> spec_fn(WindowSnapshot) -> bool {
        |w: WindowSnapshot| w.id@ == id
    }

    /// The window belongs to the workspace (and to its output, when it has
    /// one), is visible (or no visibility is recorded), is mapped, not
    /// closing, and neither floating nor fullscreen.
    pub open spec fn layout_eligible(self, workspace: WorkspaceSnapshot, w: WindowSnapshot) -> bool {
        &&& opt_text(w.workspace_id) == Some(workspace.id@)
        &&& match workspace.output_id {
            None => true,
            Some(o) => opt_text(w.output_id) == Some(o@),
        }
        &&& (self.visible_window_ids@.len() == 0 || has_text(self.visible_window_ids@, w.id@))
        &&& w.mapped
        &&& !w.closing
        &&& !(w.mode is Floating)
        &&& !(w.mode is Fullscreen)
    }

    /// Position of the first window with the id text `id` (or -1).
    pub open spec fn first_position(self, id: Seq<char>) -> int {
        first_index(self.windows@, Self::window_is(id))
    }

    /// Positions in `lo..hi` of eligible windows with the id text `id`.
    pub open spec fn group_members(self, workspace: WorkspaceSnapshot, id: Seq<char>, lo: int, hi: int) -> Seq<int>
        decreases hi - lo,
    {
        if hi <= lo {
            Seq::empty()
        } else {
            let before = self.group_members(workspace, id, lo, hi - 1);
            if self.windows@[hi - 1].id@ == id && self.layout_eligible(workspace, self.windows@[hi - 1]) {
                before.push(hi - 1)
            } else {
                before
            }
        }
    }

    /// The eligible windows among the first `j`, grouped by id: the groups
    /// in the order in which each id first appears, each group in window
    /// order.
    pub open spec fn grouped_upto(self, workspace: WorkspaceSnapshot, j: int) -> Seq<int>
        decreases j,
    {
        if j <= 0 {
            Seq::empty()
        } else {
            let before = self.grouped_upto(workspace, j - 1);
            let id = self.windows@[j - 1].id@;
            if self.first_position(id) == j - 1 {
                before + self.group_members(workspace, id, j - 1, self.windows@.len() as int)
            } else {
                before
            }
        }
    }

    /// Positions of the windows laid out on `workspace`: the eligible ones,
    /// ordered by where their id first appears (window order otherwise).
    pub open spec fn spec_windows_for_workspace(self, workspace: WorkspaceSnapshot) -> Seq<int> {
        self.grouped_upto(workspace, self.windows@.len() as int)
    }

    /// Positions of the eligible windows among the first `j`, in window
    /// order.
    pub open spec fn eligible_upto(self, workspace: WorkspaceSnapshot, j: int) -> Seq<int>
        decreases j,
    {
        if j <= 0 {
            Seq::empty()
        } else {
            let before = self.eligible_upto(workspace, j - 1);
            if self.layout_eligible(workspace, self.windows@[j - 1]) {
                before.push(j - 1)
            } else {
                before
            }
        }
    }

    /// No two windows share an id.
    pub open spec fn distinct_window_ids(self) -> bool {
        forall|i: int, j: int| 0 <= i < j < self.windows@.len() ==> #[trigger] self.windows@[i].id@ != #[trigger] self.windows@[j].id@
    }

    proof fn lemma_single_member(self, workspace: WorkspaceSnapshot, lo: int, hi: int)
        requires
            0 <= lo < hi <= self.windows@.len(),
            self.distinct_window_ids(),
        ensures
            self.group_members(workspace, self.windows@[lo].id@, lo, hi) == (if self.layout_eligible(
                workspace,
                self.windows@[lo],
            ) {
                seq![lo]
            } else {
                Seq::<int>::empty()
            }),
        decreases hi - lo,
    {
        let id = self.windows@[lo].id@;
        if hi == lo + 1 {
            assert(self.group_members(workspace, id, lo, lo) == Seq::<int>::empty());
            if self.layout_eligible(workspace, self.windows@[lo]) {
                assert(Seq::<int>::empty().push(lo) =~= seq![lo]);
            }
        } else {
            self.lemma_single_member(workspace, lo, hi - 1);
            assert(self.windows@[hi - 1].id@ != id);
        }
    }

    proof fn lemma_grouped_is_eligible(self, workspace: WorkspaceSnapshot, j: int)
        requires
            0 <= j <= self.windows@.len(),
            self.distinct_window_ids(),
        ensures
            self.grouped_upto(workspace, j) == self.eligible_upto(workspace, j),
        decreases j,
    {
        if j > 0 {
            self.lemma_grouped_is_eligible(workspace, j - 1);
            let id = self.windows@[j - 1].id@;
            let p = Self::window_is(id);
            lemma_first_index(self.windows@, p);
            assert(p(self.windows@[j - 1]));
            assert forall|k: int| 0 <= k < j - 1 implies !p(#[trigger] self.windows@[k]) by {
                assert(self.windows@[k].id@ != self.windows@[j - 1].id@);
            }
            assert(self.first_position(id) == j - 1);
            self.lemma_single_member(workspace, j - 1, self.windows@.len() as int);
            let before = self.grouped_upto(workspace, j - 1);
            if self.layout_eligible(workspace, self.windows@[j - 1]) {
                assert(before + seq![j - 1] =~= before.push(j - 1));
            } else {
                assert(before + Seq::<int>::empty() =~= before);
            }
        }
    }

    /// When no two windows share an id, the windows laid out on a workspace
    /// are exactly its eligible windows, in window order.
    pub proof fn lemma_distinct_ids_lay_out_in_order(self, workspace: WorkspaceSnapshot)
        requires
            self.distinct_window_ids(),
        ensures
            self.spec_windows_for_workspace(workspace) == self.eligible_upto(workspace, self.windows@.len() as int),
    {
        self.lemma_grouped_is_eligible(workspace, self.windows@.len() as int);
    }

    /// Every window laid out on a workspace is eligible for it: on that
    /// workspace (and its output), visible, mapped, not closing, neither
    /// floating nor fullscreen.
    pub proof fn lemma_laid_out_windows_are_eligible(self, workspace: WorkspaceSnapshot)
        ensures
            forall|i: int|
                0 <= i < self.spec_windows_for_workspace(workspace).len() ==> {
                    let k = #[trigger] self.spec_windows_for_workspace(workspace)[i];
                    &&& 0 <= k < self.windows@.len()
                    &&& self.layout_eligible(workspace, self.windows@[k])
                },
    {
        self.lemma_grouped_eligible(workspace, self.windows@.len() as int);
    }

    proof fn lemma_members_eligible(self, workspace: WorkspaceSnapshot, id: Seq<char>, lo: int, hi: int)
        requires
            0 <= lo,
            hi <= self.windows@.len(),
        ensures
            forall|i: int|
                0 <= i < self.group_members(workspace, id, lo, hi).len() ==> {
                    let k = #[trigger] self.group_members(workspace, id, lo, hi)[i];
                    &&& lo <= k < hi
                    &&& self.layout_eligible(workspace, self.windows@[k])
                },
        decreases hi - lo,
    {
        if hi > lo {
            self.lemma_members_eligible(workspace, id, lo, hi - 1);
            let before = self.group_members(workspace, id, lo, hi - 1);
            assert forall|i: int| 0 <= i < self.group_members(workspace, id, lo, hi).len() implies {
                let k = #[trigger] self.group_members(workspace, id, lo, hi)[i];
                &&& lo <= k < hi
                &&& self.layout_eligible(workspace, self.windows@[k])
            } by {
                if i < before.len() {
                    assert(self.group_members(workspace, id, lo, hi)[i] == before[i]);
                }
            }
        }
    }

    proof fn lemma_grouped_eligible(self, workspace: WorkspaceSnapshot, j: int)
        requires
            j <= self.windows@.len(),
        ensures
            forall|i: int|
                0 <= i < self.grouped_upto(workspace, j).len() ==> {
                    let k = #[trigger] self.grouped_upto(workspace, j)[i];
                    &&& 0 <= k < self.windows@.len()
                    &&& self.layout_eligible(workspace, self.windows@[k])
                },
        decreases j,
    {
        if j > 0 {
            self.lemma_grouped_eligible(workspace, j - 1);
            let id = self.windows@[j - 1].id@;
            self.lemma_members_eligible(workspace, id, j - 1, self.windows@.len() as int);
            let before = self.grouped_upto(workspace, j - 1);
            let members = self.group_members(workspace, id, j - 1, self.windows@.len() as int);
            if self.first_position(id) == j - 1 {
                assert forall|i: int| 0 <= i < self.grouped_upto(workspace, j).len() implies {
                    let k = #[trigger] self.grouped_upto(workspace, j)[i];
                    &&& 0 <= k < self.windows@.len()
                    &&& self.layout_eligible(workspace, self.windows@[k])
                } by {
                    if i < before.len() {
                        assert(self.grouped_upto(workspace, j)[i] == before[i]);
                    } else {
                        assert(self.grouped_upto(workspace, j)[i] == members[i - before.len()]);
                    }
                }
            }
        }
    }

    fn is_layout_eligible(&self, workspace: &WorkspaceSnapshot, window: &WindowSnapshot) -> (r: bool)
        ensures
            r == self.layout_eligible(*workspace, *window),
    {
        let matches_workspace = opt_key_is(&window.workspace_id, &workspace.id);
        let matches_output = match &workspace.output_id {
            None => true,
            Some(output_id) => opt_key_is(&window.output_id, output_id),
        };
        let is_visible = self.visible_window_ids.len() == 0 || contains_text(&self.visible_window_ids, &window.id);
        let is_layout_eligible = window.mapped && !window.closing && !window.mode.is_floating()
            && !window.mode.is_fullscreen();
        matches_workspace && matches_output && is_visible && is_layout_eligible
    }

    /// Position of the first window with `id`'s text; the id of window `j`
    /// always occurs, at `j` or before.
    fn first_window_position(&self, j: usize) -> (r: usize)
        requires
            j < self.windows@.len(),
        ensures
            r as int == self.first_position(self.windows@[j as int].id@),
    {
        let id = &self.windows[j].id;
        proof {
            lemma_first_index(self.windows@, Self::window_is(id@));
            assert(Self::window_is(id@)(self.windows@[j as int]));
        }
        let mut k: usize = 0;
        while k < j
            invariant
                k <= j < self.windows@.len(),
                *id == self.windows@[j as int].id,
                forall|m: int| 0 <= m < k ==> !Self::window_is(id@)(#[trigger] self.windows@[m]),
            decreases j - k,
        {
            if same_key(&self.windows[k].id, id) {
                proof {
                    lemma_first_index(self.windows@, Self::window_is(id@));
                    assert(Self::window_is(id@)(self.windows@[k as int]));
                }
                return k;
            }
            k = k + 1;
        }
        proof {
            lemma_first_index(self.windows@, Self::window_is(id@));
        }
        j
    }

    /// The windows a layout arranges on `workspace`, in stable order of
    /// where each window's id first appears.
    pub fn windows_for_workspace(&self, workspace: &WorkspaceSnapshot) -> (r: Vec<WindowSnapshot>)
        ensures
            r@.len() == self.spec_windows_for_workspace(*workspace).len(),
            forall|i: int|
                0 <= i < r@.len() ==> (#[trigger] r@[i]).same(
                    self.windows@[self.spec_windows_for_workspace(*workspace)[i]],
                ),
    {
        let n = self.windows.len();
        let mut out: Vec<WindowSnapshot> = Vec::new();
        let ghost mut idx: Seq<int> = Seq::empty();
        let mut j: usize = 0;
        while j < n
            invariant
                n == self.windows@.len(),
                j <= n,
                idx == self.grouped_upto(*workspace, j as int),
                out@.len() == idx.len(),
                forall|i: int| 0 <= i < idx.len() ==> 0 <= #[trigger] idx[i] < n,
                forall|i: int| 0 <= i < out@.len() ==> (#[trigger] out@[i]).same(self.windows@[idx[i]]),
            decreases n - j,
        {
            let ghost base = idx;
            let ghost id = self.windows@[j as int].id@;
            if self.first_window_position(j) == j {
                let mut k: usize = j;
                while k < n
                    invariant
                        n == self.windows@.len(),
                        j <= k <= n,
                        id == self.windows@[j as int].id@,
                        idx == base + self.group_members(*workspace, id, j as int, k as int),
                        out@.len() == idx.len(),
                        forall|i: int| 0 <= i < idx.len() ==> 0 <= #[trigger] idx[i] < n,
                        forall|i: int| 0 <= i < out@.len() ==> (#[trigger] out@[i]).same(self.windows@[idx[i]]),
                    decreases n - k,
                {
                    if same_key(&self.windows[k].id, &self.windows[j].id) && self.is_layout_eligible(
                        workspace,
                        &self.windows[k],
                    ) {
                        out.push(self.windows[k].copy());
                        proof {
                            assert(base + self.group_members(*workspace, id, j as int, k + 1) =~= (base
                                + self.group_members(*workspace, id, j as int, k as int)).push(k as int));
                            idx = idx.push(k as int);
                        }
                    }
                    k = k + 1;
                }
            }
            j = j + 1;
        }
        out
    }

    /// Workspaces on `output`.
    pub open spec fn workspace_on(output: Seq<char>) -> spec_fn(WorkspaceSnapshot) -> bool {
        |w: WorkspaceSnapshot| opt_text(w.output_id) == Some(output)
    }

    /// Windows listed as visible and shown on `output`.
    pub open spec fn kept_for_output(visible: Seq<WindowId>, output: Seq<char>) -> spec_fn(WindowSnapshot) -> bool {
        |w: WindowSnapshot| has_text(visible, w.id@) && opt_text(w.output_id) == Some(output)
    }

    /// The snapshot as seen from one output: its visible windows only, its
    /// workspaces focused and visible (the others not), the first of them
    /// current; none when no workspace is on that output.
    pub fn filtered_for_output(&self, visible_window_ids: &Vec<WindowId>, output_id: &OutputId) -> (r: Option<
        StateSnapshot,
    >)
        requires
            self.resize_state.tables_wf(),
        ensures
            match r {
                None => forall|k: int|
                    0 <= k < self.workspaces@.len() ==> !Self::workspace_on(output_id@)(#[trigger] self.workspaces@[k]),
                Some(s) => {
                    let first = first_index(self.workspaces@, Self::workspace_on(output_id@));
                    let kept = keep_where(self.windows@, Self::kept_for_output(visible_window_ids@, output_id@));
                    &&& first >= 0
                    &&& s.focused_window_id == self.focused_window_id
                    &&& s.current_output_id == Some(*output_id)
                    &&& s.current_workspace_id == Some(self.workspaces@[first].id)
                    &&& s.outputs@ == self.outputs@
                    &&& s.workspaces@.len() == self.workspaces@.len()
                    &&& forall|i: int|
                        0 <= i < s.workspaces@.len() ==> {
                            let w = #[trigger] s.workspaces@[i];
                            let o = self.workspaces@[i];
                            let on = Self::workspace_on(output_id@)(o);
                            &&& w.id == o.id
                            &&& w.name == o.name
                            &&& w.output_id == o.output_id
                            &&& w.layout_space == o.layout_space
                            &&& w.active_workspaces@ == o.active_workspaces@
                            &&& w.focused == on
                            &&& w.visible == on
                            &&& w.effective_layout == o.effective_layout
                        }
                    &&& s.windows@.len() == kept.len()
                    &&& forall|i: int| 0 <= i < kept.len() ==> (#[trigger] s.windows@[i]).same(kept[i])
                    &&& s.visible_window_ids@ == kept.map_values(|w: WindowSnapshot| w.id)
                    &&& s.workspace_names@ == self.workspace_names@
                    &&& s.resize_state.same(self.resize_state)
                }
            },
    {
        let ghost keep = Self::kept_for_output(visible_window_ids@, output_id@);
        let mut windows: Vec<WindowSnapshot> = Vec::new();
        let mut ids: Vec<WindowId> = Vec::new();
        let mut i: usize = 0;
        while i < self.windows.len()
            invariant
                keep == Self::kept_for_output(visible_window_ids@, output_id@),
                i <= self.windows@.len(),
                windows@.len() == keep_where(self.windows@.take(i as int), keep).len(),
                forall|k: int|
                    0 <= k < windows@.len() ==> (#[trigger] windows@[k]).same(keep_where(self.windows@.take(i as int), keep)[k]),
                ids@ == keep_where(self.windows@.take(i as int), keep).map_values(|w: WindowSnapshot| w.id),
            decreases self.windows@.len() - i,
        {
            proof {
                lemma_keep_where_step(self.windows@, keep, i as int);
            }
            let window = &self.windows[i];
            if contains_text(visible_window_ids, &window.id) && opt_key_is(&window.output_id, output_id) {
                windows.push(window.copy());
                ids.push(window.id.clone());
                proof {
                    let before = keep_where(self.windows@.take(i as int), keep);
                    assert(before.push(self.windows@[i as int]).map_values(|w: WindowSnapshot| w.id) =~= before.map_values(
                        |w: WindowSnapshot| w.id,
                    ).push(self.windows@[i as int].id));
                }
            }
            i = i + 1;
        }
        proof {
            lemma_take_all(self.windows@);
        }
        let mut workspaces: Vec<WorkspaceSnapshot> = Vec::new();
        let mut i: usize = 0;
        while i < self.workspaces.len()
            invariant
                i <= self.workspaces@.len(),
                workspaces@.len() == i,
                forall|k: int|
                    0 <= k < i ==> {
                        let w = #[trigger] workspaces@[k];
                        let o = self.workspaces@[k];
                        let on = Self::workspace_on(output_id@)(o);
                        &&& w.id == o.id
                        &&& w.name == o.name
                        &&& w.output_id == o.output_id
                        &&& w.layout_space == o.layout_space
                        &&& w.active_workspaces@ == o.active_workspaces@
                        &&& w.focused == on
                        &&& w.visible == on
                        &&& w.effective_layout == o.effective_layout
                    },
            decreases self.workspaces@.len() - i,
        {
            let mut w = self.workspaces[i].copy();
            let on = opt_key_is(&w.output_id, output_id);
            w.focused = on;
            w.visible = on;
            workspaces.push(w);
            i = i + 1;
        }
        proof {
            lemma_first_index(self.workspaces@, Self::workspace_on(output_id@));
        }
        let mut k: usize = 0;
        while k < workspaces.len() && !opt_key_is(&workspaces[k].output_id, output_id)
            invariant
                k <= workspaces@.len(),
                workspaces@.len() == self.workspaces@.len(),
                forall|m: int| 0 <= m < workspaces@.len() ==> (#[trigger] workspaces@[m]).output_id == self.workspaces@[m].output_id
                    && workspaces@[m].id == self.workspaces@[m].id,
                forall|m: int| 0 <= m < k ==> !Self::workspace_on(output_id@)(#[trigger] self.workspaces@[m]),
            decreases workspaces@.len() - k,
        {
            assert(!Self::workspace_on(output_id@)(self.workspaces@[k as int]));
            k = k + 1;
        }
        if k == workspaces.len() {
            return None;
        }
        proof {
            assert(Self::workspace_on(output_id@)(self.workspaces@[k as int]));
            lemma_first_index(self.workspaces@, Self::workspace_on(output_id@));
        }
        let current_workspace_id = workspaces[k].id.clone();
        let mut outputs: Vec<OutputSnapshot> = Vec::new();
        let mut i: usize = 0;
        while i < self.outputs.len()
            invariant
                i <= self.outputs@.len(),
                outputs@ == self.outputs@.take(i as int),
            decreases self.outputs@.len() - i,
        {
            outputs.push(self.outputs[i].copy());
            assert(self.outputs@.take(i + 1) =~= self.outputs@.take(i as int).push(self.outputs@[i as int]));
            i = i + 1;
        }
        proof {
            lemma_take_all(self.outputs@);
        }
        Some(
            StateSnapshot {
                focused_window_id: copy_opt_key(&self.focused_window_id),
                current_output_id: Some(output_id.clone()),
                current_workspace_id: Some(current_workspace_id),
                outputs,
                workspaces,
                windows,
                visible_window_ids: ids,
                workspace_names: copy_strings(&self.workspace_names),
                resize_state: self.resize_state.copy(),
            },
        )
    }

    /// The resize adjustments saved for a workspace, or none.
    pub fn workspace_resize_state(&self, workspace_id: &WorkspaceId) -> (r: WorkspaceResizeState)
        requires
            self.resize_state.tables_wf(),
        ensures
            r.adjustments_by_partition_id.wf(),
            match self.resize_state.by_workspace_id.spec_get(workspace_id@) {
                Some(s) => r.same(s),
                None => r.adjustments_by_partition_id.size() == 0,
            },
    {
        match self.resize_state.by_workspace_id.find(workspace_id) {
            Some(i) => {
                proof {
                    self.resize_state.by_workspace_id.lemma_index_of(i as int);
                }
                self.resize_state.by_workspace_id.value_at(i).copy()
            },
            None => WorkspaceResizeState::default(),
        }
    }
}

} // verus!
