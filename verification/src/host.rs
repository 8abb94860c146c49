//! Window-manager commands turned into actions for the host compositor.
use vstd::prelude::*;

use crate::command::{FocusDirection, LayoutCycleDirection, WmCommand};
use crate::text::{decimal, decimal_text};

verus! {

#[derive(Debug, PartialEq, Eq)]
pub enum HostAction {
    SpawnCommand { command: String },
    ReloadConfig,
    SetLayout { name: String },
    CycleLayout { direction: Option<LayoutCycleDirection> },
    ActivateWorkspace { workspace_id: String },
    AssignFocusedWindowToWorkspace { workspace: u8 },
    ToggleAssignFocusedWindowToWorkspace { workspace: u8 },
    ToggleFloating,
    ToggleFullscreen,
    FocusWindow { window_id: String },
    FocusDirection { direction: FocusDirection },
    FocusNextWindow,
    FocusPreviousWindow,
    SwapDirection { direction: FocusDirection },
    MoveDirection { direction: FocusDirection },
    ResizeDirection { direction: FocusDirection },
    CloseFocusedWindow,
}

/// Decimal notation of a workspace number.
pub fn workspace_number_text(n: u8) -> (r: String)
    ensures
        r@ == decimal(n as nat),
{
    decimal_text(n as u32)
}

/// The action a command becomes. Workspace steps go to the host as the
/// relative ids `e+1` and `e-1`; workspace numbers as their decimal text.
pub open spec fn dispatches_to(command: WmCommand, action: HostAction) -> bool {
    match command {
        WmCommand::Spawn { command } => action matches HostAction::SpawnCommand { command: c } && c == command,
        WmCommand::ReloadConfig => action is ReloadConfig,
        WmCommand::SetLayout { name } => action matches HostAction::SetLayout { name: n } && n == name,
        WmCommand::CycleLayout { direction } => action matches HostAction::CycleLayout { direction: d } && d == direction,
        WmCommand::ActivateWorkspace { workspace_id } => action matches HostAction::ActivateWorkspace {
            workspace_id: w,
        } && w@ == workspace_id@,
        WmCommand::SelectWorkspace { workspace_id } => action matches HostAction::ActivateWorkspace {
            workspace_id: w,
        } && w@ == workspace_id@,
        WmCommand::SelectNextWorkspace => action matches HostAction::ActivateWorkspace { workspace_id: w }
            && w@ == seq!['e', '+', '1'],
        WmCommand::SelectPreviousWorkspace => action matches HostAction::ActivateWorkspace { workspace_id: w }
            && w@ == seq!['e', '-', '1'],
        WmCommand::ViewWorkspace { workspace } => action matches HostAction::ActivateWorkspace { workspace_id: w }
            && w@ == decimal(workspace as nat),
        WmCommand::AssignFocusedWindowToWorkspace { workspace } => action matches HostAction::AssignFocusedWindowToWorkspace {
            workspace: n,
        } && n == workspace,
        WmCommand::ToggleAssignFocusedWindowToWorkspace { workspace } => action matches HostAction::ToggleAssignFocusedWindowToWorkspace {
            workspace: n,
        } && n == workspace,
        WmCommand::ToggleFloating => action is ToggleFloating,
        WmCommand::ToggleFullscreen => action is ToggleFullscreen,
        WmCommand::FocusWindow { window_id } => action matches HostAction::FocusWindow { window_id: w }
            && w@ == window_id@,
        WmCommand::FocusDirection { direction } => action matches HostAction::FocusDirection { direction: d }
            && d == direction,
        WmCommand::FocusNextWindow => action is FocusNextWindow,
        WmCommand::FocusPreviousWindow => action is FocusPreviousWindow,
        WmCommand::SwapDirection { direction } => action matches HostAction::SwapDirection { direction: d }
            && d == direction,
        WmCommand::MoveDirection { direction } => action matches HostAction::MoveDirection { direction: d }
            && d == direction,
        WmCommand::ResizeDirection { direction } => action matches HostAction::ResizeDirection { direction: d }
            && d == direction,
        WmCommand::CloseFocusedWindow => action is CloseFocusedWindow,
    }
}

/// Every command becomes exactly one host action.
pub fn dispatch_wm_command(command: WmCommand) -> (r: Vec<HostAction>)
    ensures
        r@.len() == 1,
        dispatches_to(command, r@[0]),
{
    let ghost given = command;
    let action = match command {
        WmCommand::Spawn { command } => HostAction::SpawnCommand { command },
        WmCommand::ReloadConfig => HostAction::ReloadConfig,
        WmCommand::SetLayout { name } => HostAction::SetLayout { name },
        WmCommand::CycleLayout { direction } => HostAction::CycleLayout { direction },
        WmCommand::ActivateWorkspace { workspace_id } => HostAction::ActivateWorkspace { workspace_id: workspace_id.0 },
        WmCommand::SelectWorkspace { workspace_id } => HostAction::ActivateWorkspace { workspace_id: workspace_id.0 },
        WmCommand::SelectNextWorkspace => {
            proof {
                reveal_strlit("e+1");
                assert("e+1"@ =~= seq!['e', '+', '1']);
            }
            HostAction::ActivateWorkspace { workspace_id: "e+1".to_owned() }
        },
        WmCommand::SelectPreviousWorkspace => {
            proof {
                reveal_strlit("e-1");
                assert("e-1"@ =~= seq!['e', '-', '1']);
            }
            HostAction::ActivateWorkspace { workspace_id: "e-1".to_owned() }
        },
        WmCommand::ViewWorkspace { workspace } => HostAction::ActivateWorkspace {
            workspace_id: workspace_number_text(workspace),
        },
        WmCommand::AssignFocusedWindowToWorkspace { workspace } => HostAction::AssignFocusedWindowToWorkspace { workspace },
        WmCommand::ToggleAssignFocusedWindowToWorkspace { workspace } => HostAction::ToggleAssignFocusedWindowToWorkspace {
            workspace,
        },
        WmCommand::ToggleFloating => HostAction::ToggleFloating,
        WmCommand::ToggleFullscreen => HostAction::ToggleFullscreen,
        WmCommand::FocusWindow { window_id } => HostAction::FocusWindow { window_id: window_id.0 },
        WmCommand::FocusDirection { direction } => HostAction::FocusDirection { direction },
        WmCommand::FocusNextWindow => HostAction::FocusNextWindow,
        WmCommand::FocusPreviousWindow => HostAction::FocusPreviousWindow,
        WmCommand::SwapDirection { direction } => HostAction::SwapDirection { direction },
        WmCommand::MoveDirection { direction } => HostAction::MoveDirection { direction },
        WmCommand::ResizeDirection { direction } => HostAction::ResizeDirection { direction },
        WmCommand::CloseFocusedWindow => HostAction::CloseFocusedWindow,
    };
    assert(dispatches_to(given, action));
    let mut actions = Vec::new();
    actions.push(action);
    actions
}

} // verus!
