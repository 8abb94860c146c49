//! The window manager's model: outputs, workspaces and windows, which of
//! them is current or focused, and the persistent order of tiled windows.
use vstd::prelude::*;

use crate::focus::{FocusScopeNavigation, FocusScopePath, FocusTree};
use crate::id_map::IdMap;
use crate::ids::{
    OutputId, TextKey, WindowId, WorkspaceId, copy_opt_key, opt_key_is, opt_text, same_key,
    same_opt_key,
};
use crate::seq_util::{
    append_new, has_text, keep_where, lemma_append_new_step, lemma_keep_where_step,
    lemma_take_all, contains_text, position_of, distinct_texts, offers, lemma_append_new_shape, lemma_keep_where_all,
};
use crate::types::{LayoutRef, copy_opt_string};
use crate::text::text_lt;

verus! {

#[derive(Debug)]
pub struct OutputModel {
    pub id: OutputId,
    pub name: String,
    pub logical_x: i32,
    pub logical_y: i32,
    pub logical_width: u32,
    pub logical_height: u32,
    pub enabled: bool,
    pub focused_workspace_id: Option<WorkspaceId>,
}

#[derive(Debug, Clone, Copy, PartialEq, Eq)]
pub struct WindowGeometry {
    pub x: i32,
    pub y: i32,
    pub width: i32,
    pub height: i32,
}

#[derive(Debug, Clone, Copy, PartialEq, Eq, Default)]
pub struct LayoutSpaceBox {
    pub x: i32,
    pub y: i32,
    pub width: i32,
    pub height: i32,
}

#[derive(Debug)]
pub struct WindowModel {
    pub id: WindowId,
    pub is_xwayland: bool,
    pub app_id: Option<String>,
    pub title: Option<String>,
    pub class: Option<String>,
    pub instance: Option<String>,
    pub role: Option<String>,
    pub window_type: Option<String>,
    pub output_id: Option<OutputId>,
    pub workspace_id: Option<WorkspaceId>,
    pub mapped: bool,
    pub focused: bool,
    pub floating: bool,
    pub floating_geometry: Option<WindowGeometry>,
    pub fullscreen: bool,
    pub urgent: bool,
    pub closing: bool,
}

impl WindowModel {
    /// A fresh, unmapped window with no identity strings.
    pub open spec fn spec_new(
        id: WindowId,
        output_id: Option<OutputId>,
        workspace_id: Option<WorkspaceId>,
    ) -> WindowModel {
        WindowModel {
            id,
            is_xwayland: false,
            app_id: None,
            title: None,
            class: None,
            instance: None,
            role: None,
            window_type: None,
            output_id,
            workspace_id,
            mapped: false,
            focused: false,
            floating: false,
            floating_geometry: None,
            fullscreen: false,
            urgent: false,
            closing: false,
        }
    }

    pub fn new(id: WindowId, output_id: Option<OutputId>, workspace_id: Option<WorkspaceId>) -> (r: Self)
        ensures
            r == WindowModel::spec_new(id, output_id, workspace_id),
    {
        WindowModel {
            id,
            is_xwayland: false,
            app_id: None,
            title: None,
            class: None,
            instance: None,
            role: None,
            window_type: None,
            output_id,
            workspace_id,
            mapped: false,
            focused: false,
            floating: false,
            floating_geometry: None,
            fullscreen: false,
            urgent: false,
            closing: false,
        }
    }
}

impl Clone for WindowModel {
    fn clone(&self) -> (r: Self)
        ensures
            r == *self,
    {
        WindowModel {
            id: self.id.clone(),
            is_xwayland: self.is_xwayland,
            app_id: copy_opt_string(&self.app_id),
            title: copy_opt_string(&self.title),
            class: copy_opt_string(&self.class),
            instance: copy_opt_string(&self.instance),
            role: copy_opt_string(&self.role),
            window_type: copy_opt_string(&self.window_type),
            output_id: copy_opt_key(&self.output_id),
            workspace_id: copy_opt_key(&self.workspace_id),
            mapped: self.mapped,
            focused: self.focused,
            floating: self.floating,
            floating_geometry: self.floating_geometry,
            fullscreen: self.fullscreen,
            urgent: self.urgent,
            closing: self.closing,
        }
    }
}

impl Default for WindowModel {
    fn default() -> (r: Self)
        ensures
            r.id@ == Seq::<char>::empty(),
            r.output_id is None,
            r.workspace_id is None,
            r == WindowModel::spec_new(r.id, None, None),
    {
        WindowModel::new(WindowId(String::new()), None, None)
    }
}

#[derive(Debug)]
pub struct WorkspaceModel {
    pub id: WorkspaceId,
    pub name: String,
    pub output_id: Option<OutputId>,
    pub layout_space: Option<LayoutSpaceBox>,
    pub focused: bool,
    pub visible: bool,
    pub effective_layout: Option<LayoutRef>,
}

impl Clone for WorkspaceModel {
    fn clone(&self) -> (r: Self)
        ensures
            r == *self,
    {
        WorkspaceModel {
            id: self.id.clone(),
            name: self.name.clone(),
            output_id: copy_opt_key(&self.output_id),
            layout_space: self.layout_space,
            focused: self.focused,
            visible: self.visible,
            effective_layout: match &self.effective_layout {
                Some(l) => Some(l.clone()),
                None => None,
            },
        }
    }
}

impl Clone for OutputModel {
    fn clone(&self) -> (r: Self)
        ensures
            r == *self,
    {
        OutputModel {
            id: self.id.clone(),
            name: self.name.clone(),
            logical_x: self.logical_x,
            logical_y: self.logical_y,
            logical_width: self.logical_width,
            logical_height: self.logical_height,
            enabled: self.enabled,
            focused_workspace_id: copy_opt_key(&self.focused_workspace_id),
        }
    }
}

#[derive(Debug)]
pub struct WmModel {
    pub windows: IdMap<WindowId, WindowModel>,
    pub workspaces: IdMap<WorkspaceId, WorkspaceModel>,
    pub outputs: IdMap<OutputId, OutputModel>,
    pub focused_window_id: Option<WindowId>,
    pub current_workspace_id: Option<WorkspaceId>,
    pub current_output_id: Option<OutputId>,
    pub focus_tree: Option<FocusTree>,
    pub last_focused_window_id_by_scope: IdMap<FocusScopePath, WindowId>,
    pub tiled_window_order_by_workspace: IdMap<WorkspaceId, Vec<WindowId>>,
}

impl Default for WmModel {
    fn default() -> (r: Self)
        ensures
            r.wf(),
            r.windows.entries().len() == 0,
            r.workspaces.entries().len() == 0,
            r.outputs.entries().len() == 0,
            r.focused_window_id is None,
            r.current_workspace_id is None,
            r.current_output_id is None,
            r.focus_tree is None,
            r.last_focused_window_id_by_scope.entries().len() == 0,
            r.tiled_window_order_by_workspace.entries().len() == 0,
    {
        WmModel {
            windows: IdMap::new(),
            workspaces: IdMap::new(),
            outputs: IdMap::new(),
            focused_window_id: None,
            current_workspace_id: None,
            current_output_id: None,
            focus_tree: None,
            last_focused_window_id_by_scope: IdMap::new(),
            tiled_window_order_by_workspace: IdMap::new(),
        }
    }
}

impl WmModel {
    /// Every table is in ascending key order.
    pub open spec fn wf(self) -> bool {
        &&& self.windows.wf()
        &&& self.workspaces.wf()
        &&& self.outputs.wf()
        &&& self.last_focused_window_id_by_scope.wf()
        &&& self.tiled_window_order_by_workspace.wf()
    }

    /// The window stored under `w`.
    pub open spec fn window(self, w: Seq<char>) -> Option<WindowModel> {
        self.windows.spec_get(w)
    }

    /// The workspace stored under `ws`.
    pub open spec fn workspace(self, ws: Seq<char>) -> Option<WorkspaceModel> {
        self.workspaces.spec_get(ws)
    }

    pub open spec fn current_ws(self) -> Option<Seq<char>> {
        opt_text(self.current_workspace_id)
    }

    /// Everything but the window table is as in `other`.
    pub open spec fn same_but_windows(self, other: WmModel) -> bool {
        &&& self.workspaces == other.workspaces
        &&& self.outputs == other.outputs
        &&& self.focused_window_id == other.focused_window_id
        &&& self.current_workspace_id == other.current_workspace_id
        &&& self.current_output_id == other.current_output_id
        &&& self.focus_tree == other.focus_tree
        &&& self.last_focused_window_id_by_scope == other.last_focused_window_id_by_scope
        &&& self.tiled_window_order_by_workspace == other.tiled_window_order_by_workspace
    }

    /// Everything but the workspace table is as in `other`.
    pub open spec fn same_but_workspaces(self, other: WmModel) -> bool {
        &&& self.windows == other.windows
        &&& self.outputs == other.outputs
        &&& self.focused_window_id == other.focused_window_id
        &&& self.current_workspace_id == other.current_workspace_id
        &&& self.current_output_id == other.current_output_id
        &&& self.focus_tree == other.focus_tree
        &&& self.last_focused_window_id_by_scope == other.last_focused_window_id_by_scope
        &&& self.tiled_window_order_by_workspace == other.tiled_window_order_by_workspace
    }

    /// The window table differs from `other`'s at most in the value under
    /// `w`, which (if present) becomes `f` applied to the old value.
    pub open spec fn windows_updated(
        self,
        other: WmModel,
        w: Seq<char>,
        f: spec_fn(WindowModel) -> WindowModel,
    ) -> bool {
        &&& self.windows.texts() == other.windows.texts()
        &&& forall|t: Seq<char>|
            #[trigger] self.window(t) == (if t == w && other.window(t) is Some {
                Some(f(other.window(t).unwrap()))
            } else {
                other.window(t)
            })
    }

    /// Same as `windows_updated`, for the workspace table.
    pub open spec fn workspaces_updated(
        self,
        other: WmModel,
        ws: Seq<char>,
        f: spec_fn(WorkspaceModel) -> WorkspaceModel,
    ) -> bool {
        &&& self.workspaces.texts() == other.workspaces.texts()
        &&& forall|t: Seq<char>|
            #[trigger] self.workspace(t) == (if t == ws && other.workspace(t) is Some {
                Some(f(other.workspace(t).unwrap()))
            } else {
                other.workspace(t)
            })
    }

    pub fn focused_window_id(&self) -> (r: Option<&WindowId>)
        ensures
            match r {
                Some(w) => self.focused_window_id == Some(*w),
                None => self.focused_window_id is None,
            },
    {
        match &self.focused_window_id {
            Some(w) => Some(w),
            None => None,
        }
    }

    pub fn current_workspace_id(&self) -> (r: Option<&WorkspaceId>)
        ensures
            match r {
                Some(w) => self.current_workspace_id == Some(*w),
                None => self.current_workspace_id is None,
            },
    {
        match &self.current_workspace_id {
            Some(w) => Some(w),
            None => None,
        }
    }

    pub fn current_output_id(&self) -> (r: Option<&OutputId>)
        ensures
            match r {
                Some(w) => self.current_output_id == Some(*w),
                None => self.current_output_id is None,
            },
    {
        match &self.current_output_id {
            Some(w) => Some(w),
            None => None,
        }
    }

    pub fn has_window(&self, id: &WindowId) -> (r: bool)
        requires
            self.wf(),
        ensures
            r == self.windows.contains(id@),
    {
        self.windows.contains_key(id)
    }

    /// Names of the workspace that holds window `w`, if it has one.
    pub open spec fn spec_workspace_names_for_window(self, w: Seq<char>) -> Seq<String> {
        match self.window(w) {
            Some(win) => match win.workspace_id {
                Some(ws) => match self.workspace(ws@) {
                    Some(m) => seq![m.name],
                    None => Seq::empty(),
                },
                None => Seq::empty(),
            },
            None => Seq::empty(),
        }
    }

    pub fn workspace_names_for_window(&self, id: &WindowId) -> (r: Vec<String>)
        requires
            self.wf(),
        ensures
            r@ == self.spec_workspace_names_for_window(id@),
    {
        let mut out: Vec<String> = Vec::new();
        if let Some(window) = self.windows.get(id) {
            if let Some(workspace_id) = &window.workspace_id {
                if let Some(workspace) = self.workspaces.get(workspace_id) {
                    out.push(workspace.name.clone());
                    assert(out@ =~= seq![workspace.name]);
                }
            }
        }
        out
    }

    /// Workspace names in key order.
    pub open spec fn spec_workspace_names(self) -> Seq<String> {
        self.workspaces.entries().map_values(|e: (WorkspaceId, WorkspaceModel)| e.1.name)
    }

    pub fn workspace_names(&self) -> (r: Vec<String>)
        ensures
            r@ == self.spec_workspace_names(),
    {
        let mut out: Vec<String> = Vec::new();
        let n = self.workspaces.len();
        let mut i: usize = 0;
        while i < n
            invariant
                n == self.workspaces.size(),
                i <= n,
                out@ == self.workspaces.entries().take(i as int).map_values(
                    |e: (WorkspaceId, WorkspaceModel)| e.1.name,
                ),
            decreases n - i,
        {
            out.push(self.workspaces.value_at(i).name.clone());
            assert(self.workspaces.entries().take(i + 1).map_values(
                |e: (WorkspaceId, WorkspaceModel)| e.1.name,
            ) =~= self.workspaces.entries().take(i as int).map_values(
                |e: (WorkspaceId, WorkspaceModel)| e.1.name,
            ).push(self.workspaces.entries()[i as int].1.name));
            i = i + 1;
        }
        proof {
            lemma_take_all(self.workspaces.entries());
        }
        out
    }

    /// A window is visible when it is mapped and on the current workspace
    /// (every mapped window is, when no workspace is current).
    pub open spec fn is_visible_entry(self) -> spec_fn((WindowId, WindowModel)) -> bool {
        |e: (WindowId, WindowModel)|
            e.1.mapped && (self.current_ws() is None || opt_text(e.1.workspace_id) == self.current_ws())
    }

    pub open spec fn spec_visible_window_ids(self) -> Seq<WindowId> {
        keep_where(self.windows.entries(), self.is_visible_entry()).map_values(
            |e: (WindowId, WindowModel)| e.1.id,
        )
    }

    pub fn visible_window_ids(&self) -> (r: Vec<WindowId>)
        ensures
            r@ == self.spec_visible_window_ids(),
    {
        let mut out: Vec<WindowId> = Vec::new();
        let n = self.windows.len();
        let mut i: usize = 0;
        while i < n
            invariant
                n == self.windows.size(),
                i <= n,
                out@ == keep_where(self.windows.entries().take(i as int), self.is_visible_entry()).map_values(
                    |e: (WindowId, WindowModel)| e.1.id,
                ),
            decreases n - i,
        {
            let window = self.windows.value_at(i);
            proof {
                lemma_keep_where_step(self.windows.entries(), self.is_visible_entry(), i as int);
            }
            let on_current = match &self.current_workspace_id {
                None => true,
                Some(current) => opt_key_is(&window.workspace_id, current),
            };
            if window.mapped && on_current {
                out.push(window.id.clone());
                assert(keep_where(self.windows.entries().take(i as int), self.is_visible_entry()).push(
                    self.windows.entries()[i as int]).map_values(|e: (WindowId, WindowModel)| e.1.id)
                    =~= out@);
            }
            i = i + 1;
        }
        proof {
            lemma_take_all(self.windows.entries());
        }
        out
    }

    pub fn floating_geometry(&self, id: &WindowId) -> (r: Option<WindowGeometry>)
        requires
            self.wf(),
        ensures
            r == (match self.window(id@) {
                Some(w) => w.floating_geometry,
                None => None,
            }),
    {
        match self.windows.get(id) {
            Some(window) => window.floating_geometry,
            None => None,
        }
    }
}


impl WmModel {
    pub open spec fn shows_on_output(o: Seq<char>) -> spec_fn((WorkspaceId, WorkspaceModel)) -> bool {
        |e: (WorkspaceId, WorkspaceModel)| e.1.visible && opt_text(e.1.output_id) == Some(o)
    }

    /// Names of the visible workspaces on `workspace`'s output; when there
    /// are none, `workspace`'s own name if it is visible.
    pub open spec fn spec_active_workspace_names(self, workspace: WorkspaceModel) -> Seq<String> {
        let on_output = match workspace.output_id {
            Some(o) => keep_where(self.workspaces.entries(), Self::shows_on_output(o@)).map_values(
                |e: (WorkspaceId, WorkspaceModel)| e.1.name,
            ),
            None => Seq::empty(),
        };
        if on_output.len() > 0 {
            on_output
        } else if workspace.visible {
            seq![workspace.name]
        } else {
            Seq::empty()
        }
    }

    pub fn active_workspace_names(&self, workspace: &WorkspaceModel) -> (r: Vec<String>)
        ensures
            r@ == self.spec_active_workspace_names(*workspace),
    {
        let mut names: Vec<String> = Vec::new();
        if let Some(output_id) = &workspace.output_id {
            let n = self.workspaces.len();
            let mut i: usize = 0;
            while i < n
                invariant
                    n == self.workspaces.size(),
                    i <= n,
                    names@ == keep_where(self.workspaces.entries().take(i as int), Self::shows_on_output(output_id@)).map_values(
                        |e: (WorkspaceId, WorkspaceModel)| e.1.name,
                    ),
                decreases n - i,
            {
                let candidate = self.workspaces.value_at(i);
                proof {
                    lemma_keep_where_step(self.workspaces.entries(), Self::shows_on_output(output_id@), i as int);
                }
                if candidate.visible && opt_key_is(&candidate.output_id, output_id) {
                    names.push(candidate.name.clone());
                    assert(keep_where(self.workspaces.entries().take(i as int), Self::shows_on_output(output_id@)).push(
                        self.workspaces.entries()[i as int]).map_values(|e: (WorkspaceId, WorkspaceModel)| e.1.name)
                        =~= names@);
                }
                i = i + 1;
            }
            proof {
                lemma_take_all(self.workspaces.entries());
            }
        }
        if names.len() > 0 {
            names
        } else if workspace.visible {
            let mut own: Vec<String> = Vec::new();
            own.push(workspace.name.clone());
            assert(own@ =~= seq![workspace.name]);
            own
        } else {
            Vec::new()
        }
    }

    pub open spec fn renamed(name: String) -> spec_fn(WorkspaceModel) -> WorkspaceModel {
        |w: WorkspaceModel| WorkspaceModel { name, ..w }
    }

    /// Creates the workspace, or renames it when it exists.
    pub fn upsert_workspace(&mut self, workspace_id: WorkspaceId, name: String)
        requires
            old(self).wf(),
        ensures
            final(self).wf(),
            final(self).same_but_workspaces(*old(self)),
            old(self).workspaces.contains(workspace_id@) ==> final(self).workspaces_updated(
                *old(self),
                workspace_id@,
                Self::renamed(name),
            ),
            !old(self).workspaces.contains(workspace_id@) ==> forall|t: Seq<char>|
                #[trigger] final(self).workspace(t) == (if t == workspace_id@ {
                    Some(WorkspaceModel {
                        id: workspace_id,
                        name,
                        output_id: None,
                        layout_space: None,
                        focused: false,
                        visible: false,
                        effective_layout: None,
                    })
                } else {
                    old(self).workspace(t)
                }),
            final(self).workspaces.contains(workspace_id@),
    {
        match self.workspaces.find(&workspace_id) {
            Some(i) => {
                let mut workspace = self.workspaces.value_at(i).clone();
                workspace.name = name;
                proof {
                    self.workspaces.lemma_index_of(i as int);
                }
                self.workspaces.set_value_at(i, workspace);
                proof {
                    assert(self.workspaces.texts() =~= old(self).workspaces.texts());
                    self.workspaces.lemma_index_of(i as int);
                }
            },
            None => {
                let key = workspace_id.clone();
                self.workspaces.insert(
                    key,
                    WorkspaceModel {
                        id: workspace_id,
                        name,
                        output_id: None,
                        layout_space: None,
                        focused: false,
                        visible: false,
                        effective_layout: None,
                    },
                );
            },
        }
    }

    pub open spec fn selected_as(ws: Seq<char>) -> spec_fn((WorkspaceId, WorkspaceModel)) -> (WorkspaceId, WorkspaceModel) {
        |e: (WorkspaceId, WorkspaceModel)|
            (e.0, WorkspaceModel { focused: e.0@ == ws, visible: e.0@ == ws, ..e.1 })
    }

    /// Makes `workspace_id` current; exactly that workspace is focused and
    /// visible afterwards.
    pub fn set_current_workspace(&mut self, workspace_id: WorkspaceId)
        requires
            old(self).wf(),
        ensures
            final(self).wf(),
            final(self).current_workspace_id == Some(workspace_id),
            final(self).workspaces.entries() == old(self).workspaces.entries().map_values(
                Self::selected_as(workspace_id@),
            ),
            final(self).windows == old(self).windows,
            final(self).outputs == old(self).outputs,
            final(self).focused_window_id == old(self).focused_window_id,
            final(self).current_output_id == old(self).current_output_id,
            final(self).focus_tree == old(self).focus_tree,
            final(self).last_focused_window_id_by_scope == old(self).last_focused_window_id_by_scope,
            final(self).tiled_window_order_by_workspace == old(self).tiled_window_order_by_workspace,
    {
        let n = self.workspaces.len();
        let mut i: usize = 0;
        while i < n
            invariant
                n == self.workspaces.size(),
                n == old(self).workspaces.size(),
                i <= n,
                self.workspaces.wf(),
                forall|j: int| 0 <= j < i ==> #[trigger] self.workspaces.entries()[j]
                    == Self::selected_as(workspace_id@)(old(self).workspaces.entries()[j]),
                forall|j: int| i <= j < n ==> #[trigger] self.workspaces.entries()[j]
                    == old(self).workspaces.entries()[j],
                self.windows == old(self).windows,
                self.outputs == old(self).outputs,
                self.focused_window_id == old(self).focused_window_id,
                self.current_workspace_id == old(self).current_workspace_id,
                self.current_output_id == old(self).current_output_id,
                self.focus_tree == old(self).focus_tree,
                self.last_focused_window_id_by_scope == old(self).last_focused_window_id_by_scope,
                self.tiled_window_order_by_workspace == old(self).tiled_window_order_by_workspace,
            decreases n - i,
        {
            let is_current = same_key(self.workspaces.key_at(i), &workspace_id);
            let mut workspace = self.workspaces.value_at(i).clone();
            workspace.focused = is_current;
            workspace.visible = is_current;
            self.workspaces.set_value_at(i, workspace);
            i = i + 1;
        }
        assert(self.workspaces.entries() =~= old(self).workspaces.entries().map_values(
            Self::selected_as(workspace_id@),
        ));
        self.current_workspace_id = Some(workspace_id);
    }

    /// Creates or refreshes an output; it is enabled afterwards.
    pub fn upsert_output(
        &mut self,
        output_id: OutputId,
        name: String,
        logical_width: u32,
        logical_height: u32,
        focused_workspace_id: Option<WorkspaceId>,
    )
        requires
            old(self).wf(),
        ensures
            final(self).wf(),
            final(self).windows == old(self).windows,
            final(self).workspaces == old(self).workspaces,
            final(self).current_output_id == old(self).current_output_id,
            final(self).current_workspace_id == old(self).current_workspace_id,
            final(self).focused_window_id == old(self).focused_window_id,
            final(self).focus_tree == old(self).focus_tree,
            final(self).last_focused_window_id_by_scope == old(self).last_focused_window_id_by_scope,
            final(self).tiled_window_order_by_workspace == old(self).tiled_window_order_by_workspace,
            forall|t: Seq<char>|
                #[trigger] final(self).outputs.spec_get(t) == (if t == output_id@ {
                    Some(match old(self).outputs.spec_get(t) {
                        Some(o) => OutputModel {
                            name,
                            logical_width,
                            logical_height,
                            enabled: true,
                            focused_workspace_id,
                            ..o
                        },
                        None => OutputModel {
                            id: output_id,
                            name,
                            logical_x: 0,
                            logical_y: 0,
                            logical_width,
                            logical_height,
                            enabled: true,
                            focused_workspace_id,
                        },
                    })
                } else {
                    old(self).outputs.spec_get(t)
                }),
    {
        match self.outputs.find(&output_id) {
            Some(i) => {
                let mut output = self.outputs.value_at(i).clone();
                output.name = name;
                output.logical_width = logical_width;
                output.logical_height = logical_height;
                output.enabled = true;
                output.focused_workspace_id = focused_workspace_id;
                proof {
                    self.outputs.lemma_index_of(i as int);
                }
                self.outputs.set_value_at(i, output);
            },
            None => {
                let key = output_id.clone();
                self.outputs.insert(
                    key,
                    OutputModel {
                        id: output_id,
                        name,
                        logical_x: 0,
                        logical_y: 0,
                        logical_width,
                        logical_height,
                        enabled: true,
                        focused_workspace_id,
                    },
                );
            },
        }
    }

    pub open spec fn attached_to(output_id: OutputId) -> spec_fn(WorkspaceModel) -> WorkspaceModel {
        |w: WorkspaceModel| WorkspaceModel { output_id: Some(output_id), focused: true, visible: true, ..w }
    }

    /// Shows an existing workspace on `output_id`, focused and visible.
    pub fn attach_workspace_to_output(&mut self, workspace_id: WorkspaceId, output_id: OutputId)
        requires
            old(self).wf(),
        ensures
            final(self).wf(),
            final(self).same_but_workspaces(*old(self)),
            final(self).workspaces_updated(*old(self), workspace_id@, Self::attached_to(output_id)),
    {
        if let Some(i) = self.workspaces.find(&workspace_id) {
            let mut workspace = self.workspaces.value_at(i).clone();
            workspace.output_id = Some(output_id);
            workspace.focused = true;
            workspace.visible = true;
            proof {
                self.workspaces.lemma_index_of(i as int);
            }
            self.workspaces.set_value_at(i, workspace);
        }
        assert(self.workspaces.texts() =~= old(self).workspaces.texts());
    }

    pub fn set_current_output(&mut self, output_id: OutputId)
        ensures
            final(self).current_output_id == Some(output_id),
            final(self).windows == old(self).windows,
            final(self).workspaces == old(self).workspaces,
            final(self).outputs == old(self).outputs,
            final(self).focused_window_id == old(self).focused_window_id,
            final(self).current_workspace_id == old(self).current_workspace_id,
            final(self).focus_tree == old(self).focus_tree,
            final(self).last_focused_window_id_by_scope == old(self).last_focused_window_id_by_scope,
            final(self).tiled_window_order_by_workspace == old(self).tiled_window_order_by_workspace,
    {
        self.current_output_id = Some(output_id);
    }
}


impl WmModel {
    /// Window `w` is tiled on workspace `ws`: it lives there and is mapped,
    /// not closing, not floating and not fullscreen.
    pub open spec fn tiles_on(self, ws: Seq<char>) -> spec_fn(WindowId) -> bool {
        |w: WindowId| match self.window(w@) {
            Some(win) => opt_text(win.workspace_id) == Some(ws) && win.mapped && !win.closing
                && !win.floating && !win.fullscreen,
            None => false,
        }
    }

    /// Window keys in key order.
    pub open spec fn window_keys(self) -> Seq<WindowId> {
        self.windows.entries().map_values(|e: (WindowId, WindowModel)| e.0)
    }

    /// The remembered tiled order of `ws`, empty when there is none.
    pub open spec fn stored_order(self, ws: Seq<char>) -> Seq<WindowId> {
        match self.tiled_window_order_by_workspace.spec_get(ws) {
            Some(v) => v@,
            None => Seq::empty(),
        }
    }

    /// The tiled order of `ws` after a refresh: remembered windows that
    /// still tile there, then newly tiling windows in key order.
    pub open spec fn spec_synced_order(self, ws: Seq<char>) -> Seq<WindowId> {
        append_new(keep_where(self.stored_order(ws), self.tiles_on(ws)), self.window_keys(), self.tiles_on(ws))
    }

    /// The tiled-order table after refreshing the order of `ws` in `old`.
    pub open spec fn synced_from(self, old: WmModel, ws: Seq<char>) -> bool {
        &&& self.tiled_window_order_by_workspace.wf()
        &&& forall|t: Seq<char>| t != ws ==> #[trigger] self.tiled_window_order_by_workspace.spec_get(t)
            == old.tiled_window_order_by_workspace.spec_get(t)
        &&& old.spec_synced_order(ws).len() == 0 ==> self.tiled_window_order_by_workspace.spec_get(ws) is None
        &&& old.spec_synced_order(ws).len() > 0 ==> (self.tiled_window_order_by_workspace.spec_get(ws) is Some
            && self.tiled_window_order_by_workspace.spec_get(ws).unwrap()@ == old.spec_synced_order(ws))
    }

    fn window_tiles_on(&self, id: &WindowId, workspace_id: &WorkspaceId) -> (r: bool)
        requires
            self.wf(),
        ensures
            r == self.tiles_on(workspace_id@)(*id),
    {
        match self.windows.get(id) {
            Some(win) => opt_key_is(&win.workspace_id, workspace_id) && win.mapped && !win.closing
                && !win.floating && !win.fullscreen,
            None => false,
        }
    }

    fn collect_window_keys(&self) -> (r: Vec<WindowId>)
        ensures
            r@ == self.window_keys(),
    {
        let mut out: Vec<WindowId> = Vec::new();
        let n = self.windows.len();
        let mut i: usize = 0;
        while i < n
            invariant
                n == self.windows.size(),
                i <= n,
                out@ == self.windows.entries().take(i as int).map_values(|e: (WindowId, WindowModel)| e.0),
            decreases n - i,
        {
            out.push(self.windows.key_at(i).clone());
            assert(self.windows.entries().take(i + 1).map_values(|e: (WindowId, WindowModel)| e.0)
                =~= self.windows.entries().take(i as int).map_values(|e: (WindowId, WindowModel)| e.0).push(
                self.windows.entries()[i as int].0));
            i = i + 1;
        }
        proof {
            lemma_take_all(self.windows.entries());
        }
        out
    }

    /// Refreshes the remembered tiled order of one workspace.
    pub fn sync_tiled_window_order_for_workspace(&mut self, workspace_id: &WorkspaceId)
        requires
            old(self).wf(),
        ensures
            final(self).wf(),
            final(self).synced_from(*old(self), workspace_id@),
            final(self).windows == old(self).windows,
            final(self).workspaces == old(self).workspaces,
            final(self).outputs == old(self).outputs,
            final(self).focused_window_id == old(self).focused_window_id,
            final(self).current_workspace_id == old(self).current_workspace_id,
            final(self).current_output_id == old(self).current_output_id,
            final(self).focus_tree == old(self).focus_tree,
            final(self).last_focused_window_id_by_scope == old(self).last_focused_window_id_by_scope,
    {
        let ghost before = *self;
        let ghost ws = workspace_id@;
        let previous = match self.tiled_window_order_by_workspace.remove(workspace_id) {
            Some(v) => v,
            None => Vec::new(),
        };
        assert(previous@ == before.stored_order(ws));
        let mut existing: Vec<WindowId> = Vec::new();
        let mut i: usize = 0;
        while i < previous.len()
            invariant
                i <= previous@.len(),
                self.wf(),
                self.windows == before.windows,
                ws == workspace_id@,
                existing@ == keep_where(previous@.take(i as int), before.tiles_on(ws)),
            decreases previous@.len() - i,
        {
            proof {
                lemma_keep_where_step(previous@, before.tiles_on(ws), i as int);
            }
            if self.window_tiles_on(&previous[i], workspace_id) {
                existing.push(previous[i].clone());
            }
            i = i + 1;
        }
        proof {
            lemma_take_all(previous@);
        }
        let keys = self.collect_window_keys();
        let ghost start = existing@;
        let mut j: usize = 0;
        while j < keys.len()
            invariant
                j <= keys@.len(),
                self.wf(),
                self.windows == before.windows,
                keys@ == before.window_keys(),
                ws == workspace_id@,
                existing@ == append_new(start, keys@.take(j as int), before.tiles_on(ws)),
            decreases keys@.len() - j,
        {
            proof {
                lemma_append_new_step(start, keys@, before.tiles_on(ws), j as int);
            }
            if self.window_tiles_on(&keys[j], workspace_id) && !contains_text(&existing, &keys[j]) {
                existing.push(keys[j].clone());
            }
            j = j + 1;
        }
        proof {
            lemma_take_all(keys@);
        }
        assert(existing@ == before.spec_synced_order(ws));
        if existing.len() > 0 {
            self.tiled_window_order_by_workspace.insert(workspace_id.clone(), existing);
        }
    }

    fn sync_tiled_window_order_for_window(&mut self, window_id: &WindowId)
        requires
            old(self).wf(),
        ensures
            final(self).wf(),
            match old(self).window(window_id@) {
                Some(win) => match win.workspace_id {
                    Some(ws) => final(self).synced_from(*old(self), ws@),
                    None => final(self).tiled_window_order_by_workspace == old(self).tiled_window_order_by_workspace,
                },
                None => final(self).tiled_window_order_by_workspace == old(self).tiled_window_order_by_workspace,
            },
            final(self).windows == old(self).windows,
            final(self).workspaces == old(self).workspaces,
            final(self).outputs == old(self).outputs,
            final(self).focused_window_id == old(self).focused_window_id,
            final(self).current_workspace_id == old(self).current_workspace_id,
            final(self).current_output_id == old(self).current_output_id,
            final(self).focus_tree == old(self).focus_tree,
            final(self).last_focused_window_id_by_scope == old(self).last_focused_window_id_by_scope,
    {
        let workspace_id = match self.windows.get(window_id) {
            Some(win) => copy_opt_key(&win.workspace_id),
            None => None,
        };
        if let Some(workspace_id) = workspace_id {
            self.sync_tiled_window_order_for_workspace(&workspace_id);
        }
    }

    /// Adds (or replaces) a window, unmapped, then refreshes the tiled order
    /// of its workspace.
    pub fn insert_window(
        &mut self,
        id: WindowId,
        workspace_id: Option<WorkspaceId>,
        output_id: Option<OutputId>,
    )
        requires
            old(self).wf(),
        ensures
            final(self).wf(),
            forall|t: Seq<char>|
                #[trigger] final(self).window(t) == (if t == id@ {
                    Some(WindowModel::spec_new(id, output_id, workspace_id))
                } else {
                    old(self).window(t)
                }),
            final(self).workspaces == old(self).workspaces,
            final(self).outputs == old(self).outputs,
            final(self).focused_window_id == old(self).focused_window_id,
            final(self).current_workspace_id == old(self).current_workspace_id,
            final(self).current_output_id == old(self).current_output_id,
            final(self).focus_tree == old(self).focus_tree,
            final(self).last_focused_window_id_by_scope == old(self).last_focused_window_id_by_scope,
            match workspace_id {
                Some(ws) => exists|mid: WmModel| mid.windows == final(self).windows
                    && mid.tiled_window_order_by_workspace == old(self).tiled_window_order_by_workspace
                    && #[trigger] final(self).synced_from(mid, ws@),
                None => final(self).tiled_window_order_by_workspace == old(self).tiled_window_order_by_workspace,
            },
    {
        let ghost spec_model = WindowModel::spec_new(id, output_id, workspace_id);
        let ghost ws_opt = workspace_id;
        let key = id.clone();
        let probe = id.clone();
        let model = WindowModel::new(id, output_id, workspace_id);
        self.windows.insert(key, model);
        let ghost mid = *self;
        assert(self.window(probe@) == Some(spec_model));
        self.sync_tiled_window_order_for_window(&probe);
        proof {
            if ws_opt is Some {
                assert(self.synced_from(mid, ws_opt.unwrap()@));
            }
        }
    }
}


impl WmModel {
    /// Window `w` exists and lives on the current workspace (any existing
    /// window does, when no workspace is current).
    pub open spec fn on_current(self, w: Seq<char>) -> bool {
        match self.window(w) {
            Some(win) => self.current_ws() is None || opt_text(win.workspace_id) == self.current_ws(),
            None => false,
        }
    }

    pub fn window_is_on_current_workspace(&self, id: WindowId) -> (r: bool)
        requires
            self.wf(),
        ensures
            r == self.on_current(id@),
    {
        match self.windows.get(&id) {
            None => false,
            Some(window) => match &self.current_workspace_id {
                Some(current) => opt_key_is(&window.workspace_id, current),
                None => true,
            },
        }
    }

    pub open spec fn on_current_pred(self) -> spec_fn(WindowId) -> bool {
        |w: WindowId| self.on_current(w@)
    }

    /// The given windows that are on the current workspace, in given order.
    pub fn window_ids_on_current_workspace(&self, window_ids: Vec<WindowId>) -> (r: Vec<WindowId>)
        requires
            self.wf(),
        ensures
            r@ == keep_where(window_ids@, self.on_current_pred()),
    {
        let mut out: Vec<WindowId> = Vec::new();
        let mut i: usize = 0;
        while i < window_ids.len()
            invariant
                i <= window_ids@.len(),
                self.wf(),
                out@ == keep_where(window_ids@.take(i as int), self.on_current_pred()),
            decreases window_ids@.len() - i,
        {
            proof {
                lemma_keep_where_step(window_ids@, self.on_current_pred(), i as int);
            }
            if self.window_is_on_current_workspace(window_ids[i].clone()) {
                out.push(window_ids[i].clone());
            }
            i = i + 1;
        }
        proof {
            lemma_take_all(window_ids@);
        }
        out
    }

    pub open spec fn fullscreen_on_current_pred(self) -> spec_fn(WindowId) -> bool {
        |w: WindowId| self.on_current(w@) && self.window(w@).unwrap().fullscreen
    }

    /// The first of the given windows that is on the current workspace and
    /// fullscreen.
    pub fn fullscreen_window_on_current_workspace(&self, window_ids: Vec<WindowId>) -> (r: Option<WindowId>)
        requires
            self.wf(),
        ensures
            r == crate::seq_util::first_where(window_ids@, self.fullscreen_on_current_pred()),
    {
        proof {
            crate::seq_util::lemma_first_index(window_ids@, self.fullscreen_on_current_pred());
        }
        let mut i: usize = 0;
        while i < window_ids.len()
            invariant
                i <= window_ids@.len(),
                self.wf(),
                forall|j: int| 0 <= j < i ==> !self.fullscreen_on_current_pred()(#[trigger] window_ids@[j]),
            decreases window_ids@.len() - i,
        {
            let on_current = self.window_is_on_current_workspace(window_ids[i].clone());
            let fullscreen = match self.windows.get(&window_ids[i]) {
                Some(window) => window.fullscreen,
                None => false,
            };
            if on_current && fullscreen {
                proof {
                    crate::seq_util::lemma_first_index(window_ids@, self.fullscreen_on_current_pred());
                }
                return Some(window_ids[i].clone());
            }
            i = i + 1;
        }
        None
    }

    pub open spec fn spec_is_focusable(self, w: Seq<char>) -> bool {
        match self.window(w) {
            Some(win) => !win.closing,
            None => false,
        }
    }

    pub fn window_is_focusable(&self, id: &WindowId) -> (r: bool)
        requires
            self.wf(),
        ensures
            r == self.spec_is_focusable(id@),
    {
        match self.windows.get(id) {
            Some(window) => !window.closing,
            None => false,
        }
    }

    /// The window takes part in the layout: it is on the current workspace
    /// (or both have none), mapped, not closing, floating or fullscreen.
    pub open spec fn spec_is_layout_eligible(self, w: Seq<char>) -> bool {
        match self.window(w) {
            Some(win) => opt_text(win.workspace_id) == self.current_ws() && win.mapped && !win.closing
                && !win.floating && !win.fullscreen,
            None => false,
        }
    }

    pub fn window_is_layout_eligible(&self, id: &WindowId) -> (r: bool)
        requires
            self.wf(),
        ensures
            r == self.spec_is_layout_eligible(id@),
    {
        match self.windows.get(id) {
            Some(window) => same_opt_key(&window.workspace_id, &self.current_workspace_id) && window.mapped
                && !window.closing && !window.floating && !window.fullscreen,
            None => false,
        }
    }

    pub open spec fn not_closing_entry() -> spec_fn((WindowId, WindowModel)) -> bool {
        |e: (WindowId, WindowModel)| !e.1.closing
    }

    /// Keys of the windows that are not closing, in key order.
    pub fn focusable_window_ids(&self) -> (r: Vec<WindowId>)
        ensures
            r@ == keep_where(self.windows.entries(), Self::not_closing_entry()).map_values(
                |e: (WindowId, WindowModel)| e.0,
            ),
    {
        let mut out: Vec<WindowId> = Vec::new();
        let n = self.windows.len();
        let mut i: usize = 0;
        while i < n
            invariant
                n == self.windows.size(),
                i <= n,
                out@ == keep_where(self.windows.entries().take(i as int), Self::not_closing_entry()).map_values(
                    |e: (WindowId, WindowModel)| e.0,
                ),
            decreases n - i,
        {
            proof {
                lemma_keep_where_step(self.windows.entries(), Self::not_closing_entry(), i as int);
            }
            if !self.windows.value_at(i).closing {
                out.push(self.windows.key_at(i).clone());
                assert(keep_where(self.windows.entries().take(i as int), Self::not_closing_entry()).push(
                    self.windows.entries()[i as int]).map_values(|e: (WindowId, WindowModel)| e.0)
                    =~= out@);
            }
            i = i + 1;
        }
        proof {
            lemma_take_all(self.windows.entries());
        }
        out
    }

    /// Window `w` exists and, when `ws` is given, lives on it.
    pub open spec fn belongs(self, ws: Option<Seq<char>>) -> spec_fn(WindowId) -> bool {
        |w: WindowId| match self.window(w@) {
            Some(win) => ws is None || opt_text(win.workspace_id) == ws,
            None => false,
        }
    }

    /// Windows of `ws` (all windows when `ws` is none) in their stable
    /// order: the remembered tiled order, then focus-tree order, then the
    /// hinted order, then key order; each window once.
    pub open spec fn spec_ordered_window_ids(self, ws: Option<Seq<char>>, hints: Seq<WindowId>) -> Seq<WindowId> {
        let tiled = match ws {
            Some(ws) => self.stored_order(ws),
            None => Seq::empty(),
        };
        let tree = match self.focus_tree {
            Some(tree) => tree.spec_ordered_window_ids(),
            None => Seq::empty(),
        };
        let p = self.belongs(ws);
        append_new(append_new(append_new(append_new(Seq::empty(), tiled, p), tree, p), hints, p), self.window_keys(), p)
    }

    fn belongs_exec(&self, id: &WindowId, workspace_id: &Option<WorkspaceId>) -> (r: bool)
        requires
            self.wf(),
        ensures
            r == self.belongs(opt_text(*workspace_id))(*id),
    {
        match self.windows.get(id) {
            Some(window) => match workspace_id {
                None => true,
                Some(ws) => opt_key_is(&window.workspace_id, ws),
            },
            None => false,
        }
    }

    fn extend_unique(&self, acc: &mut Vec<WindowId>, items: &Vec<WindowId>, workspace_id: &Option<WorkspaceId>)
        requires
            self.wf(),
        ensures
            final(acc)@ == append_new(old(acc)@, items@, self.belongs(opt_text(*workspace_id))),
    {
        let ghost start = acc@;
        let ghost p = self.belongs(opt_text(*workspace_id));
        let mut i: usize = 0;
        while i < items.len()
            invariant
                i <= items@.len(),
                self.wf(),
                p == self.belongs(opt_text(*workspace_id)),
                acc@ == append_new(start, items@.take(i as int), p),
            decreases items@.len() - i,
        {
            proof {
                lemma_append_new_step(start, items@, p, i as int);
            }
            if self.belongs_exec(&items[i], workspace_id) && !contains_text(acc, &items[i]) {
                acc.push(items[i].clone());
            }
            i = i + 1;
        }
        proof {
            lemma_take_all(items@);
        }
    }

    fn ordered_window_ids_for_workspace_with_hints(
        &self,
        workspace_id: Option<WorkspaceId>,
        hinted_window_ids: Vec<WindowId>,
    ) -> (r: Vec<WindowId>)
        requires
            self.wf(),
        ensures
            r@ == self.spec_ordered_window_ids(opt_text(workspace_id), hinted_window_ids@),
    {
        let mut ordered: Vec<WindowId> = Vec::new();
        let tiled: Vec<WindowId> = match &workspace_id {
            Some(ws) => match self.tiled_window_order_by_workspace.get(ws) {
                Some(order) => crate::seq_util::copy_keys(order),
                None => Vec::new(),
            },
            None => Vec::new(),
        };
        self.extend_unique(&mut ordered, &tiled, &workspace_id);
        let tree: Vec<WindowId> = match &self.focus_tree {
            Some(tree) => tree.ordered_window_ids(),
            None => Vec::new(),
        };
        self.extend_unique(&mut ordered, &tree, &workspace_id);
        self.extend_unique(&mut ordered, &hinted_window_ids, &workspace_id);
        let keys = self.collect_window_keys();
        self.extend_unique(&mut ordered, &keys, &workspace_id);
        ordered
    }

    pub fn ordered_window_ids_on_current_workspace(&self, hinted_window_ids: Vec<WindowId>) -> (r: Vec<WindowId>)
        requires
            self.wf(),
        ensures
            r@ == self.spec_ordered_window_ids(self.current_ws(), hinted_window_ids@),
    {
        let current = copy_opt_key(&self.current_workspace_id);
        self.ordered_window_ids_for_workspace_with_hints(current, hinted_window_ids)
    }

    pub fn ordered_window_ids_for_workspace(&self, workspace_id: &WorkspaceId) -> (r: Vec<WindowId>)
        requires
            self.wf(),
        ensures
            r@ == self.spec_ordered_window_ids(Some(workspace_id@), Seq::empty()),
    {
        let r = self.ordered_window_ids_for_workspace_with_hints(Some(workspace_id.clone()), Vec::new());
        r
    }

    /// The window can take focus when cycling: not closing, mapped, tiled,
    /// and on the current workspace (if any).
    pub open spec fn spec_is_focus_cycle_candidate(self, w: Seq<char>) -> bool {
        match self.window(w) {
            Some(win) => !win.closing && win.mapped && !win.floating && !win.fullscreen
                && (self.current_ws() is None || opt_text(win.workspace_id) == self.current_ws()),
            None => false,
        }
    }

    pub fn window_is_focus_cycle_candidate(&self, id: &WindowId) -> (r: bool)
        requires
            self.wf(),
        ensures
            r == self.spec_is_focus_cycle_candidate(id@),
    {
        match self.windows.get(id) {
            Some(window) => !window.closing && window.mapped && !window.floating && !window.fullscreen
                && match &self.current_workspace_id {
                None => true,
                Some(ws) => opt_key_is(&window.workspace_id, ws),
            },
            None => false,
        }
    }

    pub open spec fn cycle_pred(self) -> spec_fn(WindowId) -> bool {
        |w: WindowId| self.spec_is_focus_cycle_candidate(w@)
    }

    pub open spec fn focusable_pred(self) -> spec_fn(WindowId) -> bool {
        |w: WindowId| self.spec_is_focusable(w@)
    }

    pub open spec fn spec_ordered_focusable(self, hints: Seq<WindowId>) -> Seq<WindowId> {
        keep_where(self.spec_ordered_window_ids(self.current_ws(), hints), self.cycle_pred())
    }

    fn keep_cycle_candidates(&self, ids: Vec<WindowId>) -> (r: Vec<WindowId>)
        requires
            self.wf(),
        ensures
            r@ == keep_where(ids@, self.cycle_pred()),
    {
        let mut out: Vec<WindowId> = Vec::new();
        let mut i: usize = 0;
        while i < ids.len()
            invariant
                i <= ids@.len(),
                self.wf(),
                out@ == keep_where(ids@.take(i as int), self.cycle_pred()),
            decreases ids@.len() - i,
        {
            proof {
                lemma_keep_where_step(ids@, self.cycle_pred(), i as int);
            }
            if self.window_is_focus_cycle_candidate(&ids[i]) {
                out.push(ids[i].clone());
            }
            i = i + 1;
        }
        proof {
            lemma_take_all(ids@);
        }
        out
    }

    fn keep_focusable(&self, ids: Vec<WindowId>) -> (r: Vec<WindowId>)
        requires
            self.wf(),
        ensures
            r@ == keep_where(ids@, self.focusable_pred()),
    {
        let mut out: Vec<WindowId> = Vec::new();
        let mut i: usize = 0;
        while i < ids.len()
            invariant
                i <= ids@.len(),
                self.wf(),
                out@ == keep_where(ids@.take(i as int), self.focusable_pred()),
            decreases ids@.len() - i,
        {
            proof {
                lemma_keep_where_step(ids@, self.focusable_pred(), i as int);
            }
            if self.window_is_focusable(&ids[i]) {
                out.push(ids[i].clone());
            }
            i = i + 1;
        }
        proof {
            lemma_take_all(ids@);
        }
        out
    }

    pub fn ordered_focusable_window_ids_on_current_workspace(&self, hinted_window_ids: Vec<WindowId>) -> (r: Vec<WindowId>)
        requires
            self.wf(),
        ensures
            r@ == self.spec_ordered_focusable(hinted_window_ids@),
    {
        let ordered = self.ordered_window_ids_on_current_workspace(hinted_window_ids);
        self.keep_cycle_candidates(ordered)
    }

    /// The focused window if it can cycle focus on the current workspace,
    /// else the last such window.
    pub open spec fn spec_preferred_focusable(self) -> Option<WindowId> {
        let ordered = self.spec_ordered_focusable(Seq::empty());
        match self.focused_window_id {
            Some(f) if has_text(ordered, f@) => Some(f),
            _ => if ordered.len() > 0 {
                Some(ordered.last())
            } else {
                None
            },
        }
    }

    pub fn preferred_focusable_window_id(&self) -> (r: Option<WindowId>)
        requires
            self.wf(),
        ensures
            r == self.spec_preferred_focusable(),
    {
        let ordered = self.ordered_focusable_window_ids_on_current_workspace(Vec::new());
        if let Some(focused) = &self.focused_window_id {
            if contains_text(&ordered, focused) {
                return Some(focused.clone());
            }
        }
        if ordered.len() > 0 {
            Some(ordered[ordered.len() - 1].clone())
        } else {
            None
        }
    }

    /// The focused window if it is focusable among `window_ids` on the
    /// current workspace, else the window remembered for the workspace
    /// scope, else the last focusable one.
    pub open spec fn spec_preferred_focus(self, window_ids: Seq<WindowId>) -> Option<WindowId> {
        let visible = keep_where(self.spec_ordered_window_ids(self.current_ws(), window_ids), self.focusable_pred());
        let remembered = self.last_focused_window_id_by_scope.spec_get(crate::focus::workspace_scope_text());
        match self.focused_window_id {
            Some(f) if has_text(visible, f@) => Some(f),
            _ => match remembered {
                Some(rw) if has_text(visible, rw@) => Some(rw),
                _ => if visible.len() > 0 {
                    Some(visible.last())
                } else {
                    None
                },
            },
        }
    }

    pub fn preferred_focus_window_on_current_workspace(&self, window_ids: Vec<WindowId>) -> (r: Option<WindowId>)
        requires
            self.wf(),
        ensures
            r == self.spec_preferred_focus(window_ids@),
    {
        let ordered = self.ordered_window_ids_on_current_workspace(window_ids);
        let visible = self.keep_focusable(ordered);
        if let Some(focused) = &self.focused_window_id {
            if contains_text(&visible, focused) {
                return Some(focused.clone());
            }
        }
        let scope = FocusTree::workspace_scope();
        if let Some(remembered) = self.last_focused_window_id_by_scope.get(&scope) {
            if contains_text(&visible, remembered) {
                return Some(remembered.clone());
            }
        }
        if visible.len() > 0 {
            Some(visible[visible.len() - 1].clone())
        } else {
            None
        }
    }

    pub fn focus_scope_path(&self, window_id: &WindowId) -> (r: Option<&Vec<FocusScopePath>>)
        ensures
            match r {
                Some(p) => self.focus_tree is Some && self.focus_tree.unwrap().spec_scope_path(window_id@) == Some(p@),
                None => self.focus_tree is None || self.focus_tree.unwrap().spec_scope_path(window_id@) is None,
            },
    {
        match &self.focus_tree {
            Some(tree) => tree.scope_path(window_id),
            None => None,
        }
    }

    pub fn focus_scope_descendants(&self, scope_key: &FocusScopePath) -> (r: Option<&Vec<WindowId>>)
        ensures
            match r {
                Some(d) => self.focus_tree is Some && self.focus_tree.unwrap().spec_descendants(scope_key@) == Some(d@),
                None => self.focus_tree is None || self.focus_tree.unwrap().spec_descendants(scope_key@) is None,
            },
    {
        match &self.focus_tree {
            Some(tree) => tree.descendants(scope_key),
            None => None,
        }
    }

    pub fn remembered_focus_for_scope(&self, scope_key: &FocusScopePath) -> (r: Option<&WindowId>)
        requires
            self.wf(),
        ensures
            match r {
                Some(w) => self.last_focused_window_id_by_scope.spec_get(scope_key@) == Some(*w),
                None => self.last_focused_window_id_by_scope.spec_get(scope_key@) is None,
            },
    {
        self.last_focused_window_id_by_scope.get(scope_key)
    }
}


impl WmModel {
    pub open spec fn set_window_mapped_change(mapped: bool) -> spec_fn(WindowModel) -> WindowModel {
        |w: WindowModel| WindowModel { mapped, ..w }
    }

    pub fn set_window_mapped(&mut self, id: WindowId, mapped: bool)
        requires
            old(self).wf(),
        ensures
            final(self).wf(),
            final(self).same_but_windows(*old(self)),
            final(self).windows_updated(*old(self), id@, Self::set_window_mapped_change(mapped)),
    {
        if let Some(i) = self.windows.find(&id) {
            let mut window = self.windows.value_at(i).clone();
            window.mapped = mapped;
            proof {
                self.windows.lemma_index_of(i as int);
            }
            self.windows.set_value_at(i, window);
        }
        assert(self.windows.texts() =~= old(self).windows.texts());
    }

    pub open spec fn set_window_floating_change(floating: bool) -> spec_fn(WindowModel) -> WindowModel {
        |w: WindowModel| WindowModel { floating, ..w }
    }

    pub fn set_window_floating(&mut self, id: WindowId, floating: bool)
        requires
            old(self).wf(),
        ensures
            final(self).wf(),
            final(self).same_but_windows(*old(self)),
            final(self).windows_updated(*old(self), id@, Self::set_window_floating_change(floating)),
    {
        if let Some(i) = self.windows.find(&id) {
            let mut window = self.windows.value_at(i).clone();
            window.floating = floating;
            proof {
                self.windows.lemma_index_of(i as int);
            }
            self.windows.set_value_at(i, window);
        }
        assert(self.windows.texts() =~= old(self).windows.texts());
    }

    /// Floating geometry survives floating toggles: along any run of states,
    /// each got from the one before by `set_window_floating` on some window,
    /// every window keeps the floating geometry it had, and no window comes
    /// or goes.
    pub proof fn lemma_floating_toggles_keep_geometry(
        states: Seq<WmModel>,
        ids: Seq<Seq<char>>,
        flags: Seq<bool>,
        w: Seq<char>,
    )
        requires
            states.len() == ids.len() + 1,
            flags.len() == ids.len(),
            forall|i: int|
                0 <= i < ids.len() ==> #[trigger] states[i + 1].windows_updated(
                    states[i],
                    ids[i],
                    Self::set_window_floating_change(flags[i]),
                ),
        ensures
            match states[0].window(w) {
                Some(x) => states.last().window(w) is Some && states.last().window(w).unwrap().floating_geometry
                    == x.floating_geometry,
                None => states.last().window(w) is None,
            },
        decreases ids.len(),
    {
        if ids.len() > 0 {
            let n = ids.len() - 1;
            Self::lemma_floating_toggles_keep_geometry(states.drop_last(), ids.drop_last(), flags.drop_last(), w);
            assert(states.drop_last().last() == states[n]);
            assert(states[n + 1].windows_updated(states[n], ids[n], Self::set_window_floating_change(flags[n])));
            assert(states[n + 1].window(w) == (if w == ids[n] && states[n].window(w) is Some {
                Some(Self::set_window_floating_change(flags[n])(states[n].window(w).unwrap()))
            } else {
                states[n].window(w)
            }));
        }
    }

    /// Every stored window appears among the window keys.
    proof fn lemma_window_keys_cover(self, t: Seq<char>)
        requires
            self.window(t) is Some,
        ensures
            exists|k: int| 0 <= k < self.window_keys().len() && (#[trigger] self.window_keys()[k])@ == t,
    {
        let i = self.windows.index_of(t);
        assert(self.windows.contains(t));
        assert(self.windows.text_at(i) == t);
        assert(self.window_keys()[i] == self.windows.entries()[i].0);
    }

    /// The windows of `ws` in their stable order: each window of `ws` once
    /// and nothing else, and the remembered tiled order of `ws` (kept to
    /// windows still there, each once) in front.
    pub proof fn lemma_ordered_window_ids_of_workspace(self, ws: Seq<char>)
        requires
            self.wf(),
        ensures
            distinct_texts(self.spec_ordered_window_ids(Some(ws), Seq::empty())),
            forall|t: Seq<char>|
                #[trigger] has_text(self.spec_ordered_window_ids(Some(ws), Seq::empty()), t) <==> (self.window(
                    t,
                ) is Some && opt_text(self.window(t).unwrap().workspace_id) == Some(ws)),
            ({
                let r = self.spec_ordered_window_ids(Some(ws), Seq::empty());
                let front = append_new(Seq::empty(), self.stored_order(ws), self.belongs(Some(ws)));
                front.len() <= r.len() && r.take(front.len() as int) == front
            }),
    {
        let p = self.belongs(Some(ws));
        let tree = match self.focus_tree {
            Some(tree) => tree.spec_ordered_window_ids(),
            None => Seq::empty(),
        };
        let e: Seq<WindowId> = Seq::empty();
        let a = append_new(e, self.stored_order(ws), p);
        let b = append_new(a, tree, p);
        let c = append_new(b, e, p);
        let r = append_new(c, self.window_keys(), p);
        assert(r == self.spec_ordered_window_ids(Some(ws), Seq::empty()));
        lemma_append_new_shape(e, self.stored_order(ws), p);
        lemma_append_new_shape(a, tree, p);
        lemma_append_new_shape(b, e, p);
        lemma_append_new_shape(c, self.window_keys(), p);
        assert(distinct_texts(e));
        assert(r.take(a.len() as int) =~= r.take(c.len() as int).take(a.len() as int));
        assert(c.take(a.len() as int) =~= c.take(b.len() as int).take(a.len() as int));
        assert forall|t: Seq<char>| #[trigger] has_text(r, t) <==> (self.window(t) is Some && opt_text(
            self.window(t).unwrap().workspace_id,
        ) == Some(ws)) by {
            if has_text(r, t) {
                let i = choose|i: int| 0 <= i < r.len() && #[trigger] r[i].key_text() == t;
                assert(p(r[i])) by {
                    if i >= c.len() {
                    } else {
                        assert(r[i] == c[i]);
                        if i >= b.len() {
                        } else {
                            assert(c[i] == b[i]);
                            if i >= a.len() {
                            } else {
                                assert(b[i] == a[i]);
                            }
                        }
                    }
                }
            }
            if self.window(t) is Some && opt_text(self.window(t).unwrap().workspace_id) == Some(ws) {
                self.lemma_window_keys_cover(t);
                let k = choose|k: int| 0 <= k < self.window_keys().len() && (#[trigger] self.window_keys()[k])@ == t;
                assert(p(self.window_keys()[k]));
                assert(self.window_keys()[k].key_text() == t);
                assert(offers(self.window_keys(), p, t));
            }
        }
    }

    /// Both windows take part in the layout of one workspace: then both are
    /// in the refreshed tiled order of that workspace.
    proof fn lemma_swappable_windows_are_synced(self, a: Seq<char>, b: Seq<char>)
        requires
            self.wf(),
            self.can_swap(a, b),
        ensures
            has_text(self.spec_synced_order(self.window(a).unwrap().workspace_id.unwrap()@), a),
            has_text(self.spec_synced_order(self.window(a).unwrap().workspace_id.unwrap()@), b),
    {
        let ws = self.window(a).unwrap().workspace_id.unwrap()@;
        let p = self.tiles_on(ws);
        let kept = keep_where(self.stored_order(ws), p);
        lemma_append_new_shape(kept, self.window_keys(), p);
        self.lemma_window_keys_cover(a);
        let k = choose|k: int| 0 <= k < self.window_keys().len() && (#[trigger] self.window_keys()[k])@ == a;
        assert(p(self.window_keys()[k]));
        assert(self.window_keys()[k].key_text() == a);
        assert(offers(self.window_keys(), p, a));
        self.lemma_window_keys_cover(b);
        let m = choose|m: int| 0 <= m < self.window_keys().len() && (#[trigger] self.window_keys()[m])@ == b;
        assert(p(self.window_keys()[m]));
        assert(self.window_keys()[m].key_text() == b);
        assert(offers(self.window_keys(), p, b));
    }

    /// Floating geometry persists across floating toggles: after
    /// `set_window_floating_geometry(w, g)` on a stored window `w` (giving
    /// `states[0]`) and then any sequence of `set_window_floating(ids[i],
    /// flags[i])` calls (giving `states[i + 1]`), `floating_geometry(w)` is
    /// `Some(g)`; a window that was never stored (`other`) still is not, so
    /// its `floating_geometry` is `None`.
    pub proof fn lemma_floating_geometry_persists_across_floating_toggles(
        before: WmModel,
        states: Seq<WmModel>,
        ids: Seq<Seq<char>>,
        flags: Seq<bool>,
        w: Seq<char>,
        g: WindowGeometry,
        other: Seq<char>,
    )
        requires
            before.window(w) is Some,
            states.len() == ids.len() + 1,
            flags.len() == ids.len(),
            states[0].windows_updated(before, w, Self::set_window_floating_geometry_change(g)),
            forall|i: int|
                0 <= i < ids.len() ==> #[trigger] states[i + 1].windows_updated(
                    states[i],
                    ids[i],
                    Self::set_window_floating_change(flags[i]),
                ),
        ensures
            states.last().window(w) is Some,
            states.last().window(w).unwrap().floating_geometry == Some(g),
            before.window(other) is None ==> states.last().window(other) is None,
    {
        assert(states[0].window(w) == Some(Self::set_window_floating_geometry_change(g)(before.window(w).unwrap())));
        Self::lemma_floating_toggles_keep_geometry(states, ids, flags, w);
        assert(before.window(other) is None ==> states[0].window(other) is None);
        Self::lemma_floating_toggles_keep_geometry(states, ids, flags, other);
    }

    pub open spec fn set_window_floating_geometry_change(geometry: WindowGeometry) -> spec_fn(WindowModel) -> WindowModel {
        |w: WindowModel| WindowModel { floating_geometry: Some(geometry), ..w }
    }

    pub fn set_window_floating_geometry(&mut self, id: WindowId, geometry: WindowGeometry)
        requires
            old(self).wf(),
        ensures
            final(self).wf(),
            final(self).same_but_windows(*old(self)),
            final(self).windows_updated(*old(self), id@, Self::set_window_floating_geometry_change(geometry)),
    {
        if let Some(i) = self.windows.find(&id) {
            let mut window = self.windows.value_at(i).clone();
            window.floating_geometry = Some(geometry);
            proof {
                self.windows.lemma_index_of(i as int);
            }
            self.windows.set_value_at(i, window);
        }
        assert(self.windows.texts() =~= old(self).windows.texts());
    }

    pub open spec fn set_window_fullscreen_change(fullscreen: bool) -> spec_fn(WindowModel) -> WindowModel {
        |w: WindowModel| WindowModel { fullscreen, ..w }
    }

    pub fn set_window_fullscreen(&mut self, id: WindowId, fullscreen: bool)
        requires
            old(self).wf(),
        ensures
            final(self).wf(),
            final(self).same_but_windows(*old(self)),
            final(self).windows_updated(*old(self), id@, Self::set_window_fullscreen_change(fullscreen)),
    {
        if let Some(i) = self.windows.find(&id) {
            let mut window = self.windows.value_at(i).clone();
            window.fullscreen = fullscreen;
            proof {
                self.windows.lemma_index_of(i as int);
            }
            self.windows.set_value_at(i, window);
        }
        assert(self.windows.texts() =~= old(self).windows.texts());
    }

    pub open spec fn set_window_closing_change(closing: bool) -> spec_fn(WindowModel) -> WindowModel {
        |w: WindowModel| WindowModel { closing, ..w }
    }

    pub fn set_window_closing(&mut self, id: WindowId, closing: bool)
        requires
            old(self).wf(),
        ensures
            final(self).wf(),
            final(self).same_but_windows(*old(self)),
            final(self).windows_updated(*old(self), id@, Self::set_window_closing_change(closing)),
    {
        if let Some(i) = self.windows.find(&id) {
            let mut window = self.windows.value_at(i).clone();
            window.closing = closing;
            proof {
                self.windows.lemma_index_of(i as int);
            }
            self.windows.set_value_at(i, window);
        }
        assert(self.windows.texts() =~= old(self).windows.texts());
    }

    pub open spec fn identity_change(
        title: Option<String>,
        app_id: Option<String>,
        class: Option<String>,
        instance: Option<String>,
        role: Option<String>,
        window_type: Option<String>,
        urgent: bool,
    ) -> spec_fn(WindowModel) -> WindowModel {
        |w: WindowModel| WindowModel { title, app_id, class, instance, role, window_type, urgent, ..w }
    }

    pub fn set_window_identity(
        &mut self,
        id: WindowId,
        title: Option<String>,
        app_id: Option<String>,
        class: Option<String>,
        instance: Option<String>,
        role: Option<String>,
        window_type: Option<String>,
        urgent: bool,
    )
        requires
            old(self).wf(),
        ensures
            final(self).wf(),
            final(self).same_but_windows(*old(self)),
            final(self).windows_updated(
                *old(self),
                id@,
                Self::identity_change(title, app_id, class, instance, role, window_type, urgent),
            ),
    {
        if let Some(i) = self.windows.find(&id) {
            let mut window = self.windows.value_at(i).clone();
            window.title = title;
            window.app_id = app_id;
            window.class = class;
            window.instance = instance;
            window.role = role;
            window.window_type = window_type;
            window.urgent = urgent;
            proof {
                self.windows.lemma_index_of(i as int);
            }
            self.windows.set_value_at(i, window);
        }
        assert(self.windows.texts() =~= old(self).windows.texts());
    }

    pub open spec fn layout_change(effective_layout: Option<LayoutRef>) -> spec_fn(WorkspaceModel) -> WorkspaceModel {
        |w: WorkspaceModel| WorkspaceModel { effective_layout, ..w }
    }

    pub fn set_workspace_effective_layout(&mut self, workspace_id: WorkspaceId, effective_layout: Option<LayoutRef>)
        requires
            old(self).wf(),
        ensures
            final(self).wf(),
            final(self).same_but_workspaces(*old(self)),
            final(self).workspaces_updated(*old(self), workspace_id@, Self::layout_change(effective_layout)),
    {
        if let Some(i) = self.workspaces.find(&workspace_id) {
            let mut workspace = self.workspaces.value_at(i).clone();
            workspace.effective_layout = effective_layout;
            proof {
                self.workspaces.lemma_index_of(i as int);
            }
            self.workspaces.set_value_at(i, workspace);
        }
        assert(self.workspaces.texts() =~= old(self).workspaces.texts());
    }

    pub open spec fn space_change(layout_space: Option<LayoutSpaceBox>) -> spec_fn(WorkspaceModel) -> WorkspaceModel {
        |w: WorkspaceModel| WorkspaceModel { layout_space, ..w }
    }

    pub fn set_workspace_layout_space(&mut self, workspace_id: WorkspaceId, layout_space: Option<LayoutSpaceBox>)
        requires
            old(self).wf(),
        ensures
            final(self).wf(),
            final(self).same_but_workspaces(*old(self)),
            final(self).workspaces_updated(*old(self), workspace_id@, Self::space_change(layout_space)),
    {
        if let Some(i) = self.workspaces.find(&workspace_id) {
            let mut workspace = self.workspaces.value_at(i).clone();
            workspace.layout_space = layout_space;
            proof {
                self.workspaces.lemma_index_of(i as int);
            }
            self.workspaces.set_value_at(i, workspace);
        }
        assert(self.workspaces.texts() =~= old(self).workspaces.texts());
    }
}


impl WmModel {
    pub open spec fn workspace_change(workspace_id: Option<WorkspaceId>) -> spec_fn(WindowModel) -> WindowModel {
        |w: WindowModel| WindowModel { workspace_id, ..w }
    }

    /// Moves a window to another workspace (or none), then refreshes the
    /// tiled order of the workspace it left and of the one it joined.
    pub fn set_window_workspace(&mut self, id: WindowId, workspace_id: Option<WorkspaceId>)
        requires
            old(self).wf(),
        ensures
            final(self).wf(),
            final(self).windows_updated(*old(self), id@, Self::workspace_change(workspace_id)),
            final(self).workspaces == old(self).workspaces,
            final(self).outputs == old(self).outputs,
            final(self).focused_window_id == old(self).focused_window_id,
            final(self).current_workspace_id == old(self).current_workspace_id,
            final(self).current_output_id == old(self).current_output_id,
            final(self).focus_tree == old(self).focus_tree,
            final(self).last_focused_window_id_by_scope == old(self).last_focused_window_id_by_scope,
            exists|mid: WmModel, last: WmModel|
                #![trigger mid.tiled_window_order_by_workspace, last.tiled_window_order_by_workspace]
                {
                &&& mid.windows == final(self).windows
                &&& mid.tiled_window_order_by_workspace == old(self).tiled_window_order_by_workspace
                &&& last.windows == final(self).windows
                &&& match old(self).window(id@) {
                    Some(w) if w.workspace_id is Some => last.synced_from(mid, w.workspace_id.unwrap()@),
                    _ => last.tiled_window_order_by_workspace == mid.tiled_window_order_by_workspace,
                }
                &&& match workspace_id {
                    Some(ws) => final(self).synced_from(last, ws@),
                    None => final(self).tiled_window_order_by_workspace == last.tiled_window_order_by_workspace,
                }
            },
    {
        let previous = match self.windows.get(&id) {
            Some(window) => copy_opt_key(&window.workspace_id),
            None => None,
        };
        if let Some(i) = self.windows.find(&id) {
            let mut window = self.windows.value_at(i).clone();
            window.workspace_id = copy_opt_key(&workspace_id);
            proof {
                self.windows.lemma_index_of(i as int);
            }
            self.windows.set_value_at(i, window);
        }
        assert(self.windows.texts() =~= old(self).windows.texts());
        let ghost mid = *self;
        if let Some(previous) = &previous {
            self.sync_tiled_window_order_for_workspace(previous);
        }
        let ghost last = *self;
        if let Some(ws) = &workspace_id {
            self.sync_tiled_window_order_for_workspace(ws);
        }
        proof {
            match old(self).window(id@) {
                Some(w) if w.workspace_id is Some => {
                    assert(last.synced_from(mid, w.workspace_id.unwrap()@));
                },
                _ => {},
            }
            match workspace_id {
                Some(ws) => {
                    assert(self.synced_from(last, ws@));
                },
                None => {},
            }
        }
    }

    pub open spec fn focus_flag(f: Option<Seq<char>>) -> spec_fn((WindowId, WindowModel)) -> (WindowId, WindowModel) {
        |e: (WindowId, WindowModel)| (e.0, WindowModel { focused: f == Some(e.0@), ..e.1 })
    }

    /// The focus memory after `w` takes focus: every scope enclosing `w`
    /// remembers it.
    pub open spec fn remembers_focus(self, old: WmModel, w: WindowId) -> bool {
        &&& self.last_focused_window_id_by_scope.wf()
        &&& match old.focus_tree {
            Some(tree) => match tree.spec_scope_path(w@) {
                Some(path) => forall|s: Seq<char>|
                    #[trigger] self.last_focused_window_id_by_scope.spec_get(s) == (if has_text(path, s) {
                        Some(w)
                    } else {
                        old.last_focused_window_id_by_scope.spec_get(s)
                    }),
                None => self.last_focused_window_id_by_scope == old.last_focused_window_id_by_scope,
            },
            None => self.last_focused_window_id_by_scope == old.last_focused_window_id_by_scope,
        }
    }

    fn remember_focus_for_window(&mut self, window_id: &WindowId)
        requires
            old(self).wf(),
        ensures
            final(self).wf(),
            final(self).remembers_focus(*old(self), *window_id),
            final(self).windows == old(self).windows,
            final(self).workspaces == old(self).workspaces,
            final(self).outputs == old(self).outputs,
            final(self).focused_window_id == old(self).focused_window_id,
            final(self).current_workspace_id == old(self).current_workspace_id,
            final(self).current_output_id == old(self).current_output_id,
            final(self).focus_tree == old(self).focus_tree,
            final(self).tiled_window_order_by_workspace == old(self).tiled_window_order_by_workspace,
    {
        if let Some(tree) = &self.focus_tree {
            if let Some(path) = tree.scope_path(window_id) {
                let ghost start = self.last_focused_window_id_by_scope;
                let mut i: usize = 0;
                while i < path.len()
                    invariant
                        i <= path@.len(),
                        self.last_focused_window_id_by_scope.wf(),
                        self.windows == old(self).windows,
                        self.workspaces == old(self).workspaces,
                        self.outputs == old(self).outputs,
                        self.tiled_window_order_by_workspace == old(self).tiled_window_order_by_workspace,
                        self.focused_window_id == old(self).focused_window_id,
                        self.current_workspace_id == old(self).current_workspace_id,
                        self.current_output_id == old(self).current_output_id,
                        self.focus_tree == old(self).focus_tree,
                        forall|s: Seq<char>|
                            #[trigger] self.last_focused_window_id_by_scope.spec_get(s) == (if has_text(path@.take(i as int), s) {
                                Some(*window_id)
                            } else {
                                start.spec_get(s)
                            }),
                    decreases path@.len() - i,
                {
                    self.last_focused_window_id_by_scope.insert(path[i].clone(), window_id.clone());
                    proof {
                        assert forall|s: Seq<char>| has_text(path@.take(i + 1), s) == (has_text(path@.take(i as int), s) || path@[i as int]@ == s) by {
                            if has_text(path@.take(i + 1), s) {
                                let k = choose|k: int| 0 <= k < i + 1 && #[trigger] path@.take(i + 1)[k].key_text() == s;
                                if k < i {
                                    assert(path@.take(i as int)[k] == path@.take(i + 1)[k]);
                                }
                            }
                            if has_text(path@.take(i as int), s) {
                                let k = choose|k: int| 0 <= k < i && #[trigger] path@.take(i as int)[k].key_text() == s;
                                assert(path@.take(i + 1)[k] == path@.take(i as int)[k]);
                            }
                            if path@[i as int]@ == s {
                                assert(path@.take(i + 1)[i as int] == path@[i as int]);
                            }
                        }
                    }
                    i = i + 1;
                }
                proof {
                    lemma_take_all(path@);
                }
            }
        }
    }

    /// Moves focus to `focused_id` (or nowhere): the focus flags follow,
    /// and each scope enclosing the newly focused window remembers it.
    pub fn set_window_focused(&mut self, focused_id: Option<WindowId>)
        requires
            old(self).wf(),
        ensures
            final(self).wf(),
            final(self).focused_window_id == focused_id,
            final(self).windows.entries() == old(self).windows.entries().map_values(
                Self::focus_flag(opt_text(focused_id)),
            ),
            final(self).workspaces == old(self).workspaces,
            final(self).outputs == old(self).outputs,
            final(self).current_workspace_id == old(self).current_workspace_id,
            final(self).current_output_id == old(self).current_output_id,
            final(self).focus_tree == old(self).focus_tree,
            final(self).tiled_window_order_by_workspace == old(self).tiled_window_order_by_workspace,
            match focused_id {
                Some(f) => final(self).remembers_focus(*old(self), f),
                None => final(self).last_focused_window_id_by_scope == old(self).last_focused_window_id_by_scope,
            },
    {
        let ghost flag = Self::focus_flag(opt_text(focused_id));
        let n = self.windows.len();
        let mut i: usize = 0;
        while i < n
            invariant
                n == self.windows.size(),
                n == old(self).windows.size(),
                i <= n,
                self.wf(),
                flag == Self::focus_flag(opt_text(focused_id)),
                forall|j: int| 0 <= j < i ==> #[trigger] self.windows.entries()[j] == flag(old(self).windows.entries()[j]),
                forall|j: int| i <= j < n ==> #[trigger] self.windows.entries()[j] == old(self).windows.entries()[j],
                self.workspaces == old(self).workspaces,
                self.outputs == old(self).outputs,
                self.focused_window_id == old(self).focused_window_id,
                self.current_workspace_id == old(self).current_workspace_id,
                self.current_output_id == old(self).current_output_id,
                self.focus_tree == old(self).focus_tree,
                self.last_focused_window_id_by_scope == old(self).last_focused_window_id_by_scope,
                self.tiled_window_order_by_workspace == old(self).tiled_window_order_by_workspace,
            decreases n - i,
        {
            let is_focused = match &focused_id {
                Some(f) => same_key(self.windows.key_at(i), f),
                None => false,
            };
            let mut window = self.windows.value_at(i).clone();
            window.focused = is_focused;
            self.windows.set_value_at(i, window);
            i = i + 1;
        }
        assert(self.windows.entries() =~= old(self).windows.entries().map_values(flag));
        self.focused_window_id = copy_opt_key(&focused_id);
        if let Some(f) = &focused_id {
            self.remember_focus_for_window(f);
        }
    }

    /// A remembered (scope, window) pair stays while the tree has the scope
    /// and both the model and the tree have the window.
    pub open spec fn memory_is_live(self, tree: FocusTree) -> spec_fn((FocusScopePath, WindowId)) -> bool {
        |e: (FocusScopePath, WindowId)| tree.spec_has_scope(e.0@) && self.windows.contains(e.1@)
            && tree.spec_contains_window(e.1@)
    }

    /// The focus memory after pruning.
    pub open spec fn pruned_memory(self, old: WmModel) -> bool {
        &&& self.last_focused_window_id_by_scope.wf()
        &&& match self.focus_tree {
            None => self.last_focused_window_id_by_scope.entries().len() == 0,
            Some(tree) => self.last_focused_window_id_by_scope.entries() == keep_where(
                old.last_focused_window_id_by_scope.entries(),
                old.memory_is_live(tree),
            ),
        }
    }

    fn prune_focus_memory(&mut self)
        requires
            old(self).wf(),
        ensures
            final(self).wf(),
            final(self).pruned_memory(*old(self)),
            final(self).windows == old(self).windows,
            final(self).workspaces == old(self).workspaces,
            final(self).outputs == old(self).outputs,
            final(self).focused_window_id == old(self).focused_window_id,
            final(self).current_workspace_id == old(self).current_workspace_id,
            final(self).current_output_id == old(self).current_output_id,
            final(self).focus_tree == old(self).focus_tree,
            final(self).tiled_window_order_by_workspace == old(self).tiled_window_order_by_workspace,
    {
        match &self.focus_tree {
            None => {
                self.last_focused_window_id_by_scope.clear();
            },
            Some(tree) => {
                let ghost live = old(self).memory_is_live(*tree);
                let mut kept: IdMap<FocusScopePath, WindowId> = IdMap::new();
                let n = self.last_focused_window_id_by_scope.len();
                let mut i: usize = 0;
                while i < n
                    invariant
                        n == self.last_focused_window_id_by_scope.size(),
                        i <= n,
                        *self == *old(self),
                        self.focus_tree == Some(*tree),
                        live == old(self).memory_is_live(*tree),
                        self.wf(),
                        kept.wf(),
                        kept.entries() == keep_where(self.last_focused_window_id_by_scope.entries().take(i as int), live),
                        kept.size() == 0 || exists|j: int| 0 <= j < i && kept.text_at(kept.size() - 1)
                            == #[trigger] self.last_focused_window_id_by_scope.text_at(j),
                    decreases n - i,
                {
                    proof {
                        lemma_keep_where_step(self.last_focused_window_id_by_scope.entries(), live, i as int);
                    }
                    let scope = self.last_focused_window_id_by_scope.key_at(i);
                    let window_id = self.last_focused_window_id_by_scope.value_at(i);
                    if tree.has_scope(scope) && self.windows.contains_key(window_id) && tree.contains_window(window_id) {
                        proof {
                            if kept.size() > 0 {
                                let j = choose|j: int| 0 <= j < i && kept.text_at(kept.size() - 1)
                                    == #[trigger] self.last_focused_window_id_by_scope.text_at(j);
                                assert(text_lt(self.last_focused_window_id_by_scope.text_at(j),
                                    self.last_focused_window_id_by_scope.text_at(i as int)));
                            }
                        }
                        kept.push_last(scope.clone(), window_id.clone());
                        assert(kept.text_at(kept.size() - 1) == self.last_focused_window_id_by_scope.text_at(i as int));
                    }
                    i = i + 1;
                }
                proof {
                    lemma_take_all(self.last_focused_window_id_by_scope.entries());
                }
                self.last_focused_window_id_by_scope = kept;
            },
        }
    }

    /// Replaces the navigation of every scope of the focus tree by the one
    /// stored under its path; without a focus tree nothing changes.
    pub fn set_focus_navigation(&mut self, navigation_by_scope: IdMap<FocusScopePath, FocusScopeNavigation>)
        requires
            old(self).wf(),
            navigation_by_scope.wf(),
        ensures
            final(self).wf(),
            old(self).focus_tree is None ==> *final(self) == *old(self),
            old(self).focus_tree is Some ==> {
                let before = old(self).focus_tree.unwrap();
                &&& final(self).focus_tree is Some
                &&& final(self).focus_tree.unwrap().windows == before.windows
                &&& final(self).focus_tree.unwrap().scopes@.len() == before.scopes@.len()
                &&& forall|j: int|
                    0 <= j < before.scopes@.len() ==> {
                        &&& (#[trigger] final(self).focus_tree.unwrap().scopes@[j]).key == before.scopes@[j].key
                        &&& final(self).focus_tree.unwrap().scopes@[j].descendants
                            == before.scopes@[j].descendants
                    }
                &&& forall|t: Seq<char>|
                    #[trigger] final(self).focus_tree.unwrap().spec_navigation(t) == (if before.spec_has_scope(t) {
                        navigation_by_scope.spec_get(t)
                    } else {
                        None
                    })
            },
            final(self).windows == old(self).windows,
            final(self).workspaces == old(self).workspaces,
            final(self).outputs == old(self).outputs,
            final(self).focused_window_id == old(self).focused_window_id,
            final(self).current_workspace_id == old(self).current_workspace_id,
            final(self).current_output_id == old(self).current_output_id,
            final(self).last_focused_window_id_by_scope == old(self).last_focused_window_id_by_scope,
            final(self).tiled_window_order_by_workspace == old(self).tiled_window_order_by_workspace,
    {
        if let Some(tree) = &mut self.focus_tree {
            tree.set_navigation(navigation_by_scope);
        }
    }

    /// Installs a focus tree (or none) and forgets focus memory it no
    /// longer supports.
    pub fn set_focus_tree_value(&mut self, focus_tree: Option<FocusTree>)
        requires
            old(self).wf(),
        ensures
            final(self).wf(),
            final(self).focus_tree == focus_tree,
            exists|mid: WmModel| mid.windows == old(self).windows && mid.last_focused_window_id_by_scope
                == old(self).last_focused_window_id_by_scope && #[trigger] final(self).pruned_memory(mid),
            final(self).windows == old(self).windows,
            final(self).workspaces == old(self).workspaces,
            final(self).outputs == old(self).outputs,
            final(self).focused_window_id == old(self).focused_window_id,
            final(self).current_workspace_id == old(self).current_workspace_id,
            final(self).current_output_id == old(self).current_output_id,
            final(self).tiled_window_order_by_workspace == old(self).tiled_window_order_by_workspace,
    {
        self.focus_tree = focus_tree;
        let ghost mid = *self;
        self.prune_focus_memory();
        assert(self.pruned_memory(mid));
    }
}


impl WmModel {
    /// Forgets a window: it leaves the table and the focus, the tiled order
    /// of its workspace is refreshed, and focus memory is pruned.
    pub fn remove_window(&mut self, id: WindowId)
        requires
            old(self).wf(),
        ensures
            final(self).wf(),
            forall|t: Seq<char>|
                #[trigger] final(self).window(t) == (if t == id@ { None } else { old(self).window(t) }),
            final(self).focused_window_id == (if opt_text(old(self).focused_window_id) == Some(id@) {
                None
            } else {
                old(self).focused_window_id
            }),
            final(self).workspaces == old(self).workspaces,
            final(self).outputs == old(self).outputs,
            final(self).current_workspace_id == old(self).current_workspace_id,
            final(self).current_output_id == old(self).current_output_id,
            final(self).focus_tree == old(self).focus_tree,
            match old(self).window(id@) {
                Some(w) if w.workspace_id is Some => !has_text(final(self).stored_order(w.workspace_id.unwrap()@), id@),
                _ => true,
            },
            forall|i: int|
                0 <= i < final(self).last_focused_window_id_by_scope.entries().len() ==> final(self).windows.contains(
                    (#[trigger] final(self).last_focused_window_id_by_scope.entries()[i]).1@,
                ),
            exists|mid: WmModel|
                #![trigger mid.tiled_window_order_by_workspace]
                {
                &&& mid.windows == final(self).windows
                &&& mid.last_focused_window_id_by_scope == old(self).last_focused_window_id_by_scope
                &&& mid.focus_tree == final(self).focus_tree
                &&& match old(self).window(id@) {
                    Some(w) if w.workspace_id is Some => {
                        let after = WmModel { tiled_window_order_by_workspace: old(self).tiled_window_order_by_workspace, ..mid };
                        mid.synced_from(after, w.workspace_id.unwrap()@)
                    },
                    _ => mid.tiled_window_order_by_workspace == old(self).tiled_window_order_by_workspace,
                }
                &&& final(self).tiled_window_order_by_workspace == mid.tiled_window_order_by_workspace
                &&& final(self).pruned_memory(mid)
            },
    {
        let workspace_id = match self.windows.get(&id) {
            Some(window) => copy_opt_key(&window.workspace_id),
            None => None,
        };
        self.windows.remove(&id);
        let clear_focus = opt_key_is(&self.focused_window_id, &id);
        if clear_focus {
            self.focused_window_id = None;
        }
        let ghost after = *self;
        if let Some(workspace_id) = &workspace_id {
            self.sync_tiled_window_order_for_workspace(workspace_id);
        }
        let ghost mid = *self;
        self.prune_focus_memory();
        proof {
            match old(self).window(id@) {
                Some(w) if w.workspace_id is Some => {
                    assert(after == WmModel { tiled_window_order_by_workspace: old(self).tiled_window_order_by_workspace, ..mid });
                    assert(mid.synced_from(after, w.workspace_id.unwrap()@));
                    after.lemma_synced_order_lacks_missing(w.workspace_id.unwrap()@, id@);
                },
                _ => {},
            }
            assert(self.pruned_memory(mid));
            if self.focus_tree is Some {
                lemma_keep_where_all(
                    mid.last_focused_window_id_by_scope.entries(),
                    mid.memory_is_live(self.focus_tree.unwrap()),
                );
            }
        }
    }

    /// A window that is not stored tiles nowhere, so no refreshed tiled
    /// order holds it.
    proof fn lemma_synced_order_lacks_missing(self, ws: Seq<char>, t: Seq<char>)
        requires
            self.window(t) is None,
        ensures
            !has_text(self.spec_synced_order(ws), t),
    {
        let p = self.tiles_on(ws);
        let kept = keep_where(self.stored_order(ws), p);
        lemma_append_new_shape(kept, self.window_keys(), p);
        lemma_keep_where_all(self.stored_order(ws), p);
        if has_text(kept, t) {
            let i = choose|i: int| 0 <= i < kept.len() && #[trigger] kept[i].key_text() == t;
            assert(p(kept[i]));
        }
        if offers(self.window_keys(), p, t) {
            let k = choose|k: int|
                0 <= k < self.window_keys().len() && p(self.window_keys()[k]) && #[trigger] self.window_keys()[k].key_text()
                    == t;
        }
    }

    /// Index of the first window in `s` whose text is `t`.
    pub open spec fn first_text_index(s: Seq<WindowId>, t: Seq<char>) -> int {
        crate::seq_util::first_index(s, |w: WindowId| w@ == t)
    }

    /// Both windows take part in the layout of the same workspace.
    pub open spec fn can_swap(self, a: Seq<char>, b: Seq<char>) -> bool {
        &&& self.spec_is_layout_eligible(a)
        &&& self.spec_is_layout_eligible(b)
        &&& self.window(a).unwrap().workspace_id is Some
        &&& opt_text(self.window(b).unwrap().workspace_id) == opt_text(self.window(a).unwrap().workspace_id)
    }

    /// Swaps two tiled windows in the remembered order of their workspace
    /// (refreshed first). Refused, with nothing changed, unless both windows
    /// take part in the layout of the same workspace.
    pub fn move_tiled_window(&mut self, first_window_id: &WindowId, second_window_id: &WindowId) -> (r: bool)
        requires
            old(self).wf(),
        ensures
            final(self).wf(),
            final(self).windows == old(self).windows,
            final(self).workspaces == old(self).workspaces,
            final(self).outputs == old(self).outputs,
            final(self).focused_window_id == old(self).focused_window_id,
            final(self).current_workspace_id == old(self).current_workspace_id,
            final(self).current_output_id == old(self).current_output_id,
            final(self).focus_tree == old(self).focus_tree,
            final(self).last_focused_window_id_by_scope == old(self).last_focused_window_id_by_scope,
            r == old(self).can_swap(first_window_id@, second_window_id@),
            !old(self).can_swap(first_window_id@, second_window_id@) ==> !r
                && final(self).tiled_window_order_by_workspace == old(self).tiled_window_order_by_workspace,
            old(self).can_swap(first_window_id@, second_window_id@) ==> ({
                let ws = old(self).window(first_window_id@).unwrap().workspace_id.unwrap()@;
                let synced = old(self).spec_synced_order(ws);
                let i = Self::first_text_index(synced, first_window_id@);
                let j = Self::first_text_index(synced, second_window_id@);
                &&& r == (has_text(synced, first_window_id@) && has_text(synced, second_window_id@))
                &&& forall|t: Seq<char>| t != ws ==> #[trigger] final(self).tiled_window_order_by_workspace.spec_get(t)
                    == old(self).tiled_window_order_by_workspace.spec_get(t)
                &&& !r ==> final(self).synced_from(*old(self), ws)
                &&& r ==> final(self).tiled_window_order_by_workspace.spec_get(ws) is Some
                    && final(self).tiled_window_order_by_workspace.spec_get(ws).unwrap()@
                    == synced.update(i, synced[j]).update(j, synced[i])
            }),
    {
        proof {
            if self.can_swap(first_window_id@, second_window_id@) {
                self.lemma_swappable_windows_are_synced(first_window_id@, second_window_id@);
            }
        }
        if !self.has_window(first_window_id) || !self.has_window(second_window_id) {
            return false;
        }
        if !self.window_is_layout_eligible(first_window_id) || !self.window_is_layout_eligible(second_window_id) {
            return false;
        }
        let workspace_id = match self.windows.get(first_window_id) {
            Some(window) => match &window.workspace_id {
                Some(ws) => ws.clone(),
                None => return false,
            },
            None => return false,
        };
        let second_matches = match self.windows.get(second_window_id) {
            Some(window) => opt_key_is(&window.workspace_id, &workspace_id),
            None => false,
        };
        if !second_matches {
            return false;
        }
        self.sync_tiled_window_order_for_workspace(&workspace_id);
        let ghost ws = workspace_id@;
        let ghost synced = old(self).spec_synced_order(ws);
        let index = match self.tiled_window_order_by_workspace.find(&workspace_id) {
            Some(i) => i,
            None => {
                proof {
                    if has_text(synced, first_window_id@) {
                        assert(synced.len() > 0);
                    }
                }
                return false;
            },
        };
        proof {
            self.tiled_window_order_by_workspace.lemma_index_of(index as int);
        }
        let mut order = crate::seq_util::copy_keys(self.tiled_window_order_by_workspace.value_at(index));
        assert(order@ == synced);
        match crate::navigation::managed_window_swap_positions(&order, first_window_id.clone(), second_window_id.clone()) {
            None => false,
            Some((i, j)) => {
                proof {
                    crate::seq_util::lemma_first_index(synced, |w: WindowId| w@ == first_window_id@);
                    crate::seq_util::lemma_first_index(synced, |w: WindowId| w@ == second_window_id@);
                    assert((|w: WindowId| w@ == first_window_id@)(synced[i as int]));
                    assert((|w: WindowId| w@ == second_window_id@)(synced[j as int]));
                    assert(forall|k: int| 0 <= k < i ==> !(|w: WindowId| w@ == first_window_id@)(#[trigger] synced[k]));
                    assert(forall|k: int| 0 <= k < j ==> !(|w: WindowId| w@ == second_window_id@)(#[trigger] synced[k]));
                    assert(i as int == Self::first_text_index(synced, first_window_id@));
                    assert(j as int == Self::first_text_index(synced, second_window_id@));
                    assert(synced[i as int].key_text() == first_window_id@);
                    assert(synced[j as int].key_text() == second_window_id@);
                    assert(has_text(synced, first_window_id@));
                    assert(has_text(synced, second_window_id@));
                }
                let first = order[i].clone();
                let second = order[j].clone();
                order.set(i, second);
                order.set(j, first);
                self.tiled_window_order_by_workspace.set_value_at(index, order);
                proof {
                    self.tiled_window_order_by_workspace.lemma_index_of(index as int);
                }
                true
            },
        }
    }

    pub open spec fn detached_from(o: Seq<char>) -> spec_fn((WorkspaceId, WorkspaceModel)) -> (WorkspaceId, WorkspaceModel) {
        |e: (WorkspaceId, WorkspaceModel)| if opt_text(e.1.output_id) == Some(o) {
            (e.0, WorkspaceModel { output_id: None, visible: false, focused: false, ..e.1 })
        } else {
            e
        }
    }

    pub open spec fn window_detached_from(o: Seq<char>) -> spec_fn((WindowId, WindowModel)) -> (WindowId, WindowModel) {
        |e: (WindowId, WindowModel)| if opt_text(e.1.output_id) == Some(o) {
            (e.0, WindowModel { output_id: None, ..e.1 })
        } else {
            e
        }
    }

    /// Forgets an output: a current output moves to the first remaining one;
    /// its workspaces become detached, hidden and unfocused; its windows
    /// lose their output.
    pub fn remove_output(&mut self, output_id: &OutputId)
        requires
            old(self).wf(),
        ensures
            final(self).wf(),
            forall|t: Seq<char>|
                #[trigger] final(self).outputs.spec_get(t) == (if t == output_id@ {
                    None
                } else {
                    old(self).outputs.spec_get(t)
                }),
            opt_text(old(self).current_output_id) == Some(output_id@) ==> final(self).current_output_id == (
                if final(self).outputs.entries().len() > 0 {
                    Some(final(self).outputs.entries()[0].0)
                } else {
                    None
                }),
            opt_text(old(self).current_output_id) != Some(output_id@) ==> final(self).current_output_id
                == old(self).current_output_id,
            final(self).workspaces.entries() == old(self).workspaces.entries().map_values(
                Self::detached_from(output_id@),
            ),
            final(self).windows.entries() == old(self).windows.entries().map_values(
                Self::window_detached_from(output_id@),
            ),
            final(self).focused_window_id == old(self).focused_window_id,
            final(self).current_workspace_id == old(self).current_workspace_id,
            final(self).focus_tree == old(self).focus_tree,
            final(self).last_focused_window_id_by_scope == old(self).last_focused_window_id_by_scope,
            final(self).tiled_window_order_by_workspace == old(self).tiled_window_order_by_workspace,
    {
        self.outputs.remove(output_id);
        if opt_key_is(&self.current_output_id, output_id) {
            if self.outputs.len() > 0 {
                self.current_output_id = Some(self.outputs.key_at(0).clone());
            } else {
                self.current_output_id = None;
            }
        }
        let ghost detach = Self::detached_from(output_id@);
        let ghost mid = *self;
        let n = self.workspaces.len();
        let mut i: usize = 0;
        while i < n
            invariant
                n == self.workspaces.size(),
                n == mid.workspaces.size(),
                i <= n,
                self.wf(),
                detach == Self::detached_from(output_id@),
                forall|j: int| 0 <= j < i ==> #[trigger] self.workspaces.entries()[j] == detach(mid.workspaces.entries()[j]),
                forall|j: int| i <= j < n ==> #[trigger] self.workspaces.entries()[j] == mid.workspaces.entries()[j],
                self.windows == mid.windows,
                self.outputs == mid.outputs,
                self.focused_window_id == mid.focused_window_id,
                self.current_workspace_id == mid.current_workspace_id,
                self.current_output_id == mid.current_output_id,
                self.focus_tree == mid.focus_tree,
                self.last_focused_window_id_by_scope == mid.last_focused_window_id_by_scope,
                self.tiled_window_order_by_workspace == mid.tiled_window_order_by_workspace,
            decreases n - i,
        {
            let on_output = opt_key_is(&self.workspaces.value_at(i).output_id, output_id);
            if on_output {
                let mut workspace = self.workspaces.value_at(i).clone();
                workspace.output_id = None;
                workspace.visible = false;
                workspace.focused = false;
                self.workspaces.set_value_at(i, workspace);
            }
            i = i + 1;
        }
        assert(self.workspaces.entries() =~= mid.workspaces.entries().map_values(detach));
        let ghost detach_window = Self::window_detached_from(output_id@);
        let ghost mid2 = *self;
        let m = self.windows.len();
        let mut k: usize = 0;
        while k < m
            invariant
                m == self.windows.size(),
                m == mid2.windows.size(),
                k <= m,
                self.wf(),
                detach_window == Self::window_detached_from(output_id@),
                forall|j: int| 0 <= j < k ==> #[trigger] self.windows.entries()[j] == detach_window(mid2.windows.entries()[j]),
                forall|j: int| k <= j < m ==> #[trigger] self.windows.entries()[j] == mid2.windows.entries()[j],
                self.workspaces == mid2.workspaces,
                self.outputs == mid2.outputs,
                self.focused_window_id == mid2.focused_window_id,
                self.current_workspace_id == mid2.current_workspace_id,
                self.current_output_id == mid2.current_output_id,
                self.focus_tree == mid2.focus_tree,
                self.last_focused_window_id_by_scope == mid2.last_focused_window_id_by_scope,
                self.tiled_window_order_by_workspace == mid2.tiled_window_order_by_workspace,
            decreases m - k,
        {
            let on_output = opt_key_is(&self.windows.value_at(k).output_id, output_id);
            if on_output {
                let mut window = self.windows.value_at(k).clone();
                window.output_id = None;
                self.windows.set_value_at(k, window);
            }
            k = k + 1;
        }
        assert(self.windows.entries() =~= mid2.windows.entries().map_values(detach_window));
    }
}

} // verus!
