//! Commands that a user or a binding can issue to the window manager.
use vstd::prelude::*;

use crate::ids::{WindowId, WorkspaceId};

verus! {

#[derive(Debug, Clone, Copy, PartialEq, Eq)]
pub enum FocusDirection {
    Left,
    Right,
    Up,
    Down,
}

#[derive(Debug, Clone, Copy, PartialEq, Eq)]
pub enum LayoutCycleDirection {
    Next,
    Previous,
}

#[derive(Debug, PartialEq, Eq)]
pub enum WmCommand {
    Spawn { command: String },
    ReloadConfig,
    SetLayout { name: String },
    CycleLayout { direction: Option<LayoutCycleDirection> },
    ViewWorkspace { workspace: u8 },
    ActivateWorkspace { workspace_id: WorkspaceId },
    ToggleFloating,
    ToggleFullscreen,
    AssignFocusedWindowToWorkspace { workspace: u8 },
    ToggleAssignFocusedWindowToWorkspace { workspace: u8 },
    FocusWindow { window_id: WindowId },
    FocusDirection { direction: FocusDirection },
    SwapDirection { direction: FocusDirection },
    ResizeDirection { direction: FocusDirection },
    MoveDirection { direction: FocusDirection },
    FocusNextWindow,
    FocusPreviousWindow,
    SelectNextWorkspace,
    SelectPreviousWorkspace,
    SelectWorkspace { workspace_id: WorkspaceId },
    CloseFocusedWindow,
}

} // verus!
