use hypreact::command::WmCommand;
use hypreact::host::{HostAction, dispatch_wm_command};
use hypreact::ids::{WindowId, WorkspaceId};

#[test]
fn dispatch_maps_commands_to_host_actions() {
    assert_eq!(
        dispatch_wm_command(WmCommand::FocusWindow { window_id: WindowId("win-1".into()) }),
        vec![HostAction::FocusWindow { window_id: "win-1".into() }]
    );

    assert_eq!(
        dispatch_wm_command(WmCommand::SelectWorkspace {
            workspace_id: WorkspaceId("2".into())
        }),
        vec![HostAction::ActivateWorkspace { workspace_id: "2".into() }]
    );
}
