//! What a layout is evaluated against: the monitor, the workspace, its
//! tiled windows and the state around them, taken from a state snapshot.
use vstd::prelude::*;

use crate::ids::{copy_opt_key, OutputId, WindowId, WorkspaceId};
use crate::resize::WorkspaceResizeState;
use crate::seq_util::copy_keys;
use crate::snapshot::{OutputSnapshot, StateSnapshot, WindowSnapshot, WorkspaceSnapshot};
use crate::types::{copy_opt_string, copy_strings, WindowMode, WindowShell};

verus! {

/// The monitor a layout fills.
#[derive(Debug)]
pub struct LayoutMonitorContext {
    pub name: String,
    pub width: u32,
    pub height: u32,
    pub scale: Option<u32>,
}

/// The workspace being laid out.
#[derive(Debug)]
pub struct LayoutWorkspaceContext {
    pub name: String,
    pub workspaces: Vec<String>,
    pub window_count: usize,
}

/// A window a layout places.
#[derive(Debug)]
pub struct LayoutWindowContext {
    pub id: WindowId,
    pub app_id: Option<String>,
    pub title: Option<String>,
    pub class: Option<String>,
    pub instance: Option<String>,
    pub role: Option<String>,
    pub shell: Option<String>,
    pub window_type: Option<String>,
    pub floating: bool,
    pub fullscreen: bool,
    pub focused: bool,
}

/// The window-manager state around the layout.
#[derive(Debug)]
pub struct LayoutStateContext {
    pub focused_window_id: Option<WindowId>,
    pub current_output_id: Option<OutputId>,
    pub current_workspace_id: Option<WorkspaceId>,
    pub visible_window_ids: Vec<WindowId>,
    pub workspace_names: Vec<String>,
    pub selected_layout_name: Option<String>,
    pub resize_state: WorkspaceResizeState,
}

/// Everything a layout is evaluated against.
#[derive(Debug)]
pub struct LayoutEvaluationContext {
    pub monitor: LayoutMonitorContext,
    pub workspace: LayoutWorkspaceContext,
    pub windows: Vec<LayoutWindowContext>,
    pub state: Option<LayoutStateContext>,
    pub workspace_id: WorkspaceId,
    pub output: Option<OutputSnapshot>,
    pub selected_layout_name: Option<String>,
}

/// The name a shell goes by.
pub open spec fn shell_name(shell: WindowShell) -> Seq<char> {
    match shell {
        WindowShell::Wayland => "wayland"@,
        WindowShell::Xwayland => "xwayland"@,
    }
}

/// `c` describes the window `w`.
pub open spec fn describes_window(c: LayoutWindowContext, w: WindowSnapshot) -> bool {
    &&& c.id == w.id
    &&& c.app_id == w.app_id
    &&& c.title == w.title
    &&& c.class == w.class
    &&& c.instance == w.instance
    &&& c.role == w.role
    &&& c.shell matches Some(s) && s@ == shell_name(w.shell)
    &&& c.window_type == w.window_type
    &&& c.floating == (w.mode is Floating)
    &&& c.fullscreen == (w.mode is Fullscreen)
    &&& c.focused == w.focused
}

impl StateSnapshot {
    /// The output of the workspace, else the current output.
    pub open spec fn context_output(self, workspace: WorkspaceSnapshot) -> Option<OutputSnapshot> {
        let own = match workspace.output_id {
            Some(id) => self.spec_output_by_id(id@),
            None => None,
        };
        match own {
            Some(o) => Some(o),
            None => match self.current_output_id {
                Some(id) => self.spec_output_by_id(id@),
                None => None,
            },
        }
    }

    /// The monitor's width: the workspace's layout space, else the
    /// output's, else zero.
    pub open spec fn context_width(self, workspace: WorkspaceSnapshot) -> u32 {
        match workspace.layout_space {
            Some(s) => s.width as u32,
            None => match self.context_output(workspace) {
                Some(o) => o.logical_width,
                None => 0,
            },
        }
    }

    pub open spec fn context_height(self, workspace: WorkspaceSnapshot) -> u32 {
        match workspace.layout_space {
            Some(s) => s.height as u32,
            None => match self.context_output(workspace) {
                Some(o) => o.logical_height,
                None => 0,
            },
        }
    }

    fn window_context(w: &WindowSnapshot) -> (r: LayoutWindowContext)
        ensures
            describes_window(r, *w),
    {
        let shell = match w.shell {
            WindowShell::Wayland => "wayland".to_owned(),
            WindowShell::Xwayland => "xwayland".to_owned(),
        };
        LayoutWindowContext {
            id: w.id.clone(),
            app_id: copy_opt_string(&w.app_id),
            title: copy_opt_string(&w.title),
            class: copy_opt_string(&w.class),
            instance: copy_opt_string(&w.instance),
            role: copy_opt_string(&w.role),
            shell: Some(shell),
            window_type: copy_opt_string(&w.window_type),
            floating: w.mode.is_floating(),
            fullscreen: w.mode.is_fullscreen(),
            focused: w.focused,
        }
    }

    /// The context `workspace` is laid out in: its monitor (the workspace's
    /// output, else the current one), the workspace, the windows that take
    /// part in its layout in layout order, and the state around them.
    pub fn layout_context(&self, workspace: &WorkspaceSnapshot, selected_layout_name: Option<String>) -> (r:
        LayoutEvaluationContext)
        requires
            self.resize_state.tables_wf(),
        ensures
            r.windows@.len() == self.spec_windows_for_workspace(*workspace).len(),
            forall|i: int|
                0 <= i < r.windows@.len() ==> describes_window(
                    #[trigger] r.windows@[i],
                    self.windows@[self.spec_windows_for_workspace(*workspace)[i]],
                ),
            r.workspace.window_count == r.windows@.len(),
            r.workspace.name == workspace.name,
            r.workspace.workspaces@ == workspace.active_workspaces@,
            r.output == self.context_output(*workspace),
            r.monitor.name@ == (match self.context_output(*workspace) {
                Some(o) => o.name@,
                None => Seq::empty(),
            }),
            r.monitor.width == self.context_width(*workspace),
            r.monitor.height == self.context_height(*workspace),
            r.monitor.scale == (match self.context_output(*workspace) {
                Some(o) => Some(o.scale),
                None => None,
            }),
            r.workspace_id == workspace.id,
            r.selected_layout_name == selected_layout_name,
            r.state matches Some(s) && {
                &&& s.focused_window_id == self.focused_window_id
                &&& s.current_output_id == self.current_output_id
                &&& s.current_workspace_id == self.current_workspace_id
                &&& s.visible_window_ids@ == self.visible_window_ids@
                &&& s.workspace_names@ == self.workspace_names@
                &&& s.selected_layout_name == selected_layout_name
                &&& match self.resize_state.by_workspace_id.spec_get(workspace.id@) {
                    Some(w) => s.resize_state.same(w),
                    None => s.resize_state.adjustments_by_partition_id.size() == 0,
                }
            },
    {
        let windows = self.windows_for_workspace(workspace);
        let own = match &workspace.output_id {
            Some(id) => self.output_by_id(id),
            None => None,
        };
        let output = match own {
            Some(o) => Some(o.copy()),
            None => match self.current_output() {
                Some(o) => Some(o.copy()),
                None => None,
            },
        };
        let width = match workspace.layout_space {
            Some(s) => s.width as u32,
            None => match &output {
                Some(o) => o.logical_width,
                None => 0,
            },
        };
        let height = match workspace.layout_space {
            Some(s) => s.height as u32,
            None => match &output {
                Some(o) => o.logical_height,
                None => 0,
            },
        };
        let name = match &output {
            Some(o) => o.name.clone(),
            None => String::new(),
        };
        let scale = match &output {
            Some(o) => Some(o.scale),
            None => None,
        };
        let mut contexts: Vec<LayoutWindowContext> = Vec::new();
        let mut i: usize = 0;
        while i < windows.len()
            invariant
                i <= windows@.len(),
                contexts@.len() == i,
                forall|k: int| 0 <= k < i ==> describes_window(#[trigger] contexts@[k], windows@[k]),
            decreases windows@.len() - i,
        {
            contexts.push(Self::window_context(&windows[i]));
            i = i + 1;
        }
        proof {
            assert forall|k: int| 0 <= k < contexts@.len() implies describes_window(
                #[trigger] contexts@[k],
                self.windows@[self.spec_windows_for_workspace(*workspace)[k]],
            ) by {
                assert(windows@[k].same(self.windows@[self.spec_windows_for_workspace(*workspace)[k]]));
            }
        }
        let count = contexts.len();
        let state = LayoutStateContext {
            focused_window_id: copy_opt_key(&self.focused_window_id),
            current_output_id: copy_opt_key(&self.current_output_id),
            current_workspace_id: copy_opt_key(&self.current_workspace_id),
            visible_window_ids: copy_keys(&self.visible_window_ids),
            workspace_names: copy_strings(&self.workspace_names),
            selected_layout_name: copy_opt_string(&selected_layout_name),
            resize_state: self.workspace_resize_state(&workspace.id),
        };
        LayoutEvaluationContext {
            monitor: LayoutMonitorContext { name, width, height, scale },
            workspace: LayoutWorkspaceContext {
                name: workspace.name.clone(),
                workspaces: copy_strings(&workspace.active_workspaces),
                window_count: count,
            },
            windows: contexts,
            state: Some(state),
            workspace_id: workspace.id.clone(),
            output,
            selected_layout_name,
        }
    }
}

} // verus!
