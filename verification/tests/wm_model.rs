use hypreact::ids::{OutputId, WindowId, WorkspaceId};
use hypreact::wm::{WindowGeometry, WmModel};

fn window_id(value: u64) -> WindowId {
    WindowId(value.to_string())
}

#[test]
fn setting_current_workspace_updates_focus_and_visibility() {
    let mut model = WmModel::default();
    model.upsert_workspace(WorkspaceId("1".to_string()), "1".to_string());
    model.upsert_workspace(WorkspaceId("2".to_string()), "2".to_string());

    model.set_current_workspace(WorkspaceId("2".to_string()));

    assert_eq!(model.current_workspace_id, Some(WorkspaceId("2".to_string())));
    assert_eq!(
        model.workspaces.get(&WorkspaceId("1".to_string())).map(|workspace| workspace.focused),
        Some(false)
    );
    assert_eq!(
        model.workspaces.get(&WorkspaceId("2".to_string())).map(|workspace| workspace.focused),
        Some(true)
    );
    assert_eq!(
        model.workspaces.get(&WorkspaceId("1".to_string())).map(|workspace| workspace.visible),
        Some(false)
    );
    assert_eq!(
        model.workspaces.get(&WorkspaceId("2".to_string())).map(|workspace| workspace.visible),
        Some(true)
    );
}

#[test]
fn setting_window_workspace_updates_that_window() {
    let mut model = WmModel::default();
    model.insert_window(window_id(9), Some(WorkspaceId("1".to_string())), None);

    model.set_window_workspace(window_id(9), Some(WorkspaceId("2".to_string())));

    assert_eq!(
        model.windows.get(&window_id(9)).and_then(|window| window.workspace_id.clone()),
        Some(WorkspaceId("2".to_string()))
    );
}

#[test]
fn setting_window_floating_updates_that_window() {
    let mut model = WmModel::default();
    model.insert_window(window_id(10), None, None);

    model.set_window_floating(window_id(10), true);

    assert_eq!(model.windows.get(&window_id(10)).map(|window| window.floating), Some(true));
}

#[test]
fn setting_window_floating_geometry_updates_that_window() {
    let mut model = WmModel::default();
    model.insert_window(window_id(12), None, None);

    model.set_window_floating_geometry(
        window_id(12),
        WindowGeometry { x: 40, y: 50, width: 800, height: 600 },
    );

    assert_eq!(
        model.floating_geometry(&window_id(12)),
        Some(WindowGeometry { x: 40, y: 50, width: 800, height: 600 })
    );
}

#[test]
fn floating_geometry_persists_across_floating_toggles() {
    let mut model = WmModel::default();
    model.insert_window(window_id(13), None, None);
    model.set_window_floating(window_id(13), true);
    model.set_window_floating_geometry(
        window_id(13),
        WindowGeometry { x: 10, y: 20, width: 900, height: 700 },
    );

    model.set_window_floating(window_id(13), false);
    model.set_window_floating(window_id(13), true);

    assert_eq!(
        model.floating_geometry(&window_id(13)),
        Some(WindowGeometry { x: 10, y: 20, width: 900, height: 700 })
    );
}

#[test]
fn setting_window_fullscreen_updates_that_window() {
    let mut model = WmModel::default();
    model.insert_window(window_id(11), None, None);

    model.set_window_fullscreen(window_id(11), true);

    assert_eq!(model.windows.get(&window_id(11)).map(|window| window.fullscreen), Some(true));
}

#[test]
fn fullscreen_window_on_current_workspace_returns_matching_visible_window() {
    let mut model = WmModel::default();
    model.upsert_workspace(WorkspaceId("1".to_string()), "1".to_string());
    model.upsert_workspace(WorkspaceId("2".to_string()), "2".to_string());
    model.set_current_workspace(WorkspaceId("1".to_string()));
    model.insert_window(window_id(1), Some(WorkspaceId("1".to_string())), None);
    model.insert_window(window_id(2), Some(WorkspaceId("2".to_string())), None);
    model.set_window_fullscreen(window_id(1), true);
    model.set_window_fullscreen(window_id(2), true);

    assert_eq!(
        model.fullscreen_window_on_current_workspace(vec![window_id(1), window_id(2)]),
        Some(window_id(1))
    );
}

#[test]
fn layout_eligibility_excludes_floating_and_fullscreen_windows() {
    let mut model = WmModel::default();
    model.upsert_workspace(WorkspaceId("1".to_string()), "1".to_string());
    model.set_current_workspace(WorkspaceId("1".to_string()));

    model.insert_window(window_id(1), Some(WorkspaceId("1".to_string())), None);
    model.insert_window(window_id(2), Some(WorkspaceId("1".to_string())), None);
    model.insert_window(window_id(3), Some(WorkspaceId("1".to_string())), None);

    model.set_window_mapped(window_id(1), true);
    model.set_window_mapped(window_id(2), true);
    model.set_window_mapped(window_id(3), true);
    model.set_window_floating(window_id(2), true);
    model.set_window_fullscreen(window_id(3), true);

    assert!(model.window_is_layout_eligible(&window_id(1)));
    assert!(!model.window_is_layout_eligible(&window_id(2)));
    assert!(!model.window_is_layout_eligible(&window_id(3)));
}

#[test]
fn move_tiled_window_swaps_persistent_workspace_order() {
    let mut model = WmModel::default();
    model.upsert_workspace(WorkspaceId("1".to_string()), "1".to_string());
    model.set_current_workspace(WorkspaceId("1".to_string()));

    model.insert_window(window_id(1), Some(WorkspaceId("1".to_string())), None);
    model.insert_window(window_id(2), Some(WorkspaceId("1".to_string())), None);
    model.set_window_mapped(window_id(1), true);
    model.set_window_mapped(window_id(2), true);
    model.sync_tiled_window_order_for_workspace(&WorkspaceId("1".to_string()));

    assert!(model.move_tiled_window(&window_id(1), &window_id(2)));
    assert_eq!(
        model.ordered_window_ids_for_workspace(&WorkspaceId("1".to_string())),
        vec![window_id(2), window_id(1)]
    );
}

#[test]
fn move_tiled_window_rejects_non_layout_eligible_windows() {
    let mut model = WmModel::default();
    model.upsert_workspace(WorkspaceId("1".to_string()), "1".to_string());
    model.set_current_workspace(WorkspaceId("1".to_string()));

    model.insert_window(window_id(1), Some(WorkspaceId("1".to_string())), None);
    model.insert_window(window_id(2), Some(WorkspaceId("1".to_string())), None);
    model.set_window_mapped(window_id(1), true);
    model.set_window_mapped(window_id(2), true);
    model.set_window_floating(window_id(2), true);
    model.sync_tiled_window_order_for_workspace(&WorkspaceId("1".to_string()));
    let original_order = model.ordered_window_ids_for_workspace(&WorkspaceId("1".to_string()));

    assert!(!model.move_tiled_window(&window_id(1), &window_id(2)));
    assert_eq!(
        model.ordered_window_ids_for_workspace(&WorkspaceId("1".to_string())),
        original_order
    );
}

#[test]
fn upserting_output_assigns_current_workspace() {
    let mut model = WmModel::default();
    model.upsert_workspace(WorkspaceId("1".to_string()), "1".to_string());
    model.set_current_workspace(WorkspaceId("1".to_string()));

    model.upsert_output(OutputId("winit".to_string()), "winit".to_string(), 1280, 720, Some(WorkspaceId("1".to_string())));
    model.attach_workspace_to_output(
        WorkspaceId("1".to_string()),
        OutputId("winit".to_string()),
    );
    model.set_current_output(OutputId("winit".to_string()));

    assert_eq!(model.current_output_id, Some(OutputId("winit".to_string())));
    assert_eq!(
        model.outputs.get(&OutputId("winit".to_string())).map(|output| output.logical_width),
        Some(1280)
    );
    assert_eq!(
        model
            .workspaces
            .get(&WorkspaceId("1".to_string()))
            .and_then(|workspace| workspace.output_id.clone()),
        Some(OutputId("winit".to_string()))
    );
}

#[test]
fn inserting_window_uses_current_workspace_and_output() {
    let mut model = WmModel::default();
    model.upsert_workspace(WorkspaceId("1".to_string()), "1".to_string());
    model.set_current_workspace(WorkspaceId("1".to_string()));
    model.upsert_output(OutputId("winit".to_string()), "winit".to_string(), 1280, 720, Some(WorkspaceId("1".to_string())));
    model.attach_workspace_to_output(
        WorkspaceId("1".to_string()),
        OutputId("winit".to_string()),
    );
    model.set_current_output(OutputId("winit".to_string()));

    model.insert_window(
        window_id(7),
        model.current_workspace_id.clone(),
        model.current_output_id.clone(),
    );

    let window = model.windows.get(&window_id(7)).expect("window missing");
    assert_eq!(window.workspace_id, Some(WorkspaceId("1".to_string())));
    assert_eq!(window.output_id, Some(OutputId("winit".to_string())));
    assert!(!window.mapped);
}

#[test]
fn focusing_window_updates_focus_flags() {
    let mut model = WmModel::default();
    model.insert_window(window_id(1), None, None);
    model.insert_window(window_id(2), None, None);

    model.set_window_focused(Some(window_id(2)));

    assert_eq!(model.focused_window_id, Some(window_id(2)));
    assert_eq!(model.windows.get(&window_id(1)).map(|window| window.focused), Some(false));
    assert_eq!(model.windows.get(&window_id(2)).map(|window| window.focused), Some(true));
}

#[test]
fn setting_window_identity_updates_title_and_app_id() {
    let mut model = WmModel::default();
    model.insert_window(window_id(3), None, None);

    model.set_window_identity(
        window_id(3),
        Some("Terminal".to_string()),
        Some("foot".to_string()),
        Some("foot".to_string()),
        Some("foot".to_string()),
        None,
        None,
        false,
    );

    let window = model.windows.get(&window_id(3)).expect("window missing");
    assert_eq!(window.title.as_deref(), Some("Terminal"));
    assert_eq!(window.app_id.as_deref(), Some("foot"));
    assert_eq!(window.class.as_deref(), Some("foot"));
    assert_eq!(window.instance.as_deref(), Some("foot"));
}

#[test]
fn current_workspace_window_membership_is_explicit() {
    let mut model = WmModel::default();
    model.upsert_workspace(WorkspaceId("1".to_string()), "1".to_string());
    model.upsert_workspace(WorkspaceId("2".to_string()), "2".to_string());
    model.set_current_workspace(WorkspaceId("2".to_string()));
    model.insert_window(
        window_id(1),
        Some(WorkspaceId("1".to_string())),
        Some(OutputId("winit".to_string())),
    );
    model.insert_window(
        window_id(2),
        Some(WorkspaceId("2".to_string())),
        Some(OutputId("winit".to_string())),
    );

    assert!(!model.window_is_on_current_workspace(window_id(1)));
    assert!(model.window_is_on_current_workspace(window_id(2)));
    assert!(!model.window_is_on_current_workspace(window_id(99)));
}

#[test]
fn current_workspace_window_order_preserves_stack_order_input() {
    let mut model = WmModel::default();
    model.upsert_workspace(WorkspaceId("1".to_string()), "1".to_string());
    model.upsert_workspace(WorkspaceId("2".to_string()), "2".to_string());
    model.set_current_workspace(WorkspaceId("2".to_string()));
    model.insert_window(window_id(1), Some(WorkspaceId("1".to_string())), None);
    model.insert_window(window_id(2), Some(WorkspaceId("2".to_string())), None);
    model.insert_window(window_id(3), Some(WorkspaceId("2".to_string())), None);

    let visible =
        model.window_ids_on_current_workspace(vec![window_id(3), window_id(1), window_id(2)]);

    assert_eq!(visible, vec![window_id(3), window_id(2)]);
}

#[test]
fn preferred_focus_window_falls_back_to_last_visible_window() {
    let mut model = WmModel::default();
    model.upsert_workspace(WorkspaceId("1".to_string()), "1".to_string());
    model.upsert_workspace(WorkspaceId("2".to_string()), "2".to_string());
    model.set_current_workspace(WorkspaceId("2".to_string()));
    model.insert_window(window_id(1), Some(WorkspaceId("1".to_string())), None);
    model.insert_window(window_id(2), Some(WorkspaceId("2".to_string())), None);
    model.insert_window(window_id(3), Some(WorkspaceId("2".to_string())), None);
    model.set_window_focused(Some(window_id(1)));

    let focused = model.preferred_focus_window_on_current_workspace(vec![
        window_id(1),
        window_id(2),
        window_id(3),
    ]);

    assert_eq!(focused, Some(window_id(3)));
}
