use hypreact::ids::{OutputId, WindowId, WorkspaceId};
use hypreact::resize::ResizeState;
use hypreact::snapshot::{
    state_snapshot_for_model, window_mode, OutputSnapshot, StateSnapshot, WindowSnapshot, WorkspaceSnapshot,
};
use hypreact::types::{LayoutRef, WindowMode, WindowShell};
use hypreact::wm::WmModel;

fn wid(text: &str) -> WindowId {
    WindowId(text.to_string())
}

fn wsid(text: &str) -> WorkspaceId {
    WorkspaceId(text.to_string())
}

fn oid(text: &str) -> OutputId {
    OutputId(text.to_string())
}

fn window_id(value: u64) -> WindowId {
    WindowId(value.to_string())
}

fn output(id: &str, name: &str, width: u32, height: u32, workspace: &str) -> OutputSnapshot {
    OutputSnapshot {
        id: oid(id),
        name: name.to_string(),
        logical_width: width,
        logical_height: height,
        scale: 1,
        enabled: true,
        current_workspace_id: Some(wsid(workspace)),
    }
}

fn workspace(id: &str, name: &str, output_id: &str, focused: bool) -> WorkspaceSnapshot {
    WorkspaceSnapshot {
        id: wsid(id),
        name: name.to_string(),
        output_id: Some(oid(output_id)),
        layout_space: None,
        active_workspaces: vec![name.to_string()],
        focused,
        visible: true,
        effective_layout: Some(LayoutRef { name: "master-stack".to_string() }),
    }
}

fn window(id: &str, output_id: &str, workspace_id: &str, mode: WindowMode) -> WindowSnapshot {
    WindowSnapshot {
        id: wid(id),
        shell: WindowShell::Wayland,
        app_id: None,
        title: None,
        class: None,
        instance: None,
        role: None,
        window_type: None,
        mapped: true,
        mode,
        focused: false,
        urgent: false,
        closing: false,
        output_id: Some(oid(output_id)),
        workspace_id: Some(wsid(workspace_id)),
        workspaces: vec![workspace_id.to_string()],
    }
}

fn sample_model() -> WmModel {
    let mut model = WmModel::default();
    model.upsert_workspace(wsid("1"), "1".to_string());
    model.upsert_workspace(wsid("2"), "2".to_string());
    model.set_current_workspace(wsid("1"));
    model.upsert_output(oid("output-1"), "HDMI-A-1".to_string(), 1920, 1080, Some(wsid("1")));
    model.attach_workspace_to_output(wsid("1"), oid("output-1"));
    model.set_current_output(oid("output-1"));
    model.insert_window(window_id(1), Some(wsid("1")), Some(oid("output-1")));
    let window = model.windows.get_mut(&window_id(1)).unwrap();
    window.app_id = Some("foot".to_string());
    window.title = Some("terminal".to_string());
    window.mapped = true;
    window.focused = true;
    model.focused_window_id = Some(window_id(1));
    model
}

#[test]
fn state_snapshot_tracks_query_state() {
    let snapshot = state_snapshot_for_model(&sample_model());

    assert_eq!(snapshot.current_workspace_id, Some(wsid("1")));
    assert_eq!(snapshot.current_output_id, Some(oid("output-1")));
    assert_eq!(snapshot.focused_window_id, Some(window_id(1)));
    assert_eq!(snapshot.workspace_names, vec!["1".to_string(), "2".to_string()]);
    assert_eq!(snapshot.visible_window_ids, vec![window_id(1)]);
    assert_eq!(snapshot.outputs.len(), 1);
    assert_eq!(snapshot.workspaces.len(), 2);
    assert_eq!(snapshot.windows.len(), 1);
    assert_eq!(snapshot.windows[0].mode, WindowMode::Tiled);
}

#[test]
fn window_snapshot_reports_identity_and_mode() {
    let mut model = sample_model();
    let window = model.windows.get_mut(&window_id(1)).unwrap();
    window.floating = true;
    assert_eq!(window_mode(window), WindowMode::Floating);
    window.fullscreen = true;
    assert_eq!(window_mode(window), WindowMode::Fullscreen);

    let snapshot = state_snapshot_for_model(&model);
    let first = &snapshot.windows[0];
    assert_eq!(first.app_id, Some("foot".to_string()));
    assert_eq!(first.shell, WindowShell::Wayland);
    assert_eq!(first.mode, WindowMode::Fullscreen);
    assert_eq!(first.workspaces, vec!["1".to_string()]);
    assert!(first.role.is_none());
    assert!(!first.urgent);
    assert_eq!(snapshot.outputs[0].scale, 1);
    assert_eq!(snapshot.outputs[0].name, "HDMI-A-1");
}

#[test]
fn state_snapshot_filters_windows_for_workspace_visibility() {
    let mut first = window("w1", "out-1", "ws-1", WindowMode::Tiled);
    first.focused = true;
    let state = StateSnapshot {
        focused_window_id: Some(wid("w1")),
        current_output_id: Some(oid("out-1")),
        current_workspace_id: Some(wsid("ws-1")),
        outputs: vec![output("out-1", "HDMI-A-1", 1920, 1080, "ws-1")],
        workspaces: vec![workspace("ws-1", "1", "out-1", true)],
        windows: vec![first, window("w2", "out-1", "ws-1", WindowMode::Tiled), window("w3", "out-2", "ws-2", WindowMode::Tiled)],
        visible_window_ids: vec![wid("w1")],
        workspace_names: vec!["1".to_string(), "2".to_string()],
        resize_state: ResizeState::default(),
    };

    let windows = state.windows_for_workspace(state.current_workspace().unwrap());

    assert_eq!(windows.len(), 1);
    assert_eq!(windows[0].id, wid("w1"));
}

#[test]
fn windows_for_workspace_skip_floating_fullscreen_and_group_repeated_ids() {
    let state = StateSnapshot {
        focused_window_id: None,
        current_output_id: Some(oid("out-1")),
        current_workspace_id: Some(wsid("ws-1")),
        outputs: vec![output("out-1", "HDMI-A-1", 1920, 1080, "ws-1")],
        workspaces: vec![workspace("ws-1", "1", "out-1", true)],
        windows: vec![
            window("a", "out-1", "ws-1", WindowMode::Tiled),
            window("float", "out-1", "ws-1", WindowMode::Floating),
            window("b", "out-1", "ws-1", WindowMode::Tiled),
            window("full", "out-1", "ws-1", WindowMode::Fullscreen),
            window("a", "out-1", "ws-1", WindowMode::Tiled),
        ],
        visible_window_ids: vec![],
        workspace_names: vec!["1".to_string()],
        resize_state: ResizeState::default(),
    };

    let windows = state.windows_for_workspace(state.current_workspace().unwrap());

    let ids: Vec<String> = windows.iter().map(|window| window.id.0.clone()).collect();
    assert_eq!(ids, vec!["a".to_string(), "a".to_string(), "b".to_string()]);
}

#[test]
fn state_snapshot_can_be_filtered_for_specific_output() {
    let mut first = window("w1", "out-1", "ws-1", WindowMode::Tiled);
    first.focused = true;
    let state = StateSnapshot {
        focused_window_id: Some(wid("w1")),
        current_output_id: Some(oid("out-1")),
        current_workspace_id: Some(wsid("ws-1")),
        outputs: vec![output("out-1", "HDMI-A-1", 1920, 1080, "ws-1"), output("out-2", "DP-1", 1280, 720, "ws-2")],
        workspaces: vec![workspace("ws-1", "1", "out-1", true), workspace("ws-2", "2", "out-2", false)],
        windows: vec![first, window("w2", "out-2", "ws-2", WindowMode::Tiled)],
        visible_window_ids: vec![wid("w1"), wid("w2")],
        workspace_names: vec!["1".to_string(), "2".to_string()],
        resize_state: ResizeState::default(),
    };

    let filtered = state
        .filtered_for_output(&state.visible_window_ids, &oid("out-2"))
        .expect("filtered state should exist for output");

    assert_eq!(filtered.current_output_id, Some(oid("out-2")));
    assert_eq!(filtered.current_workspace_id, Some(wsid("ws-2")));
    assert_eq!(filtered.visible_window_ids, vec![wid("w2")]);
    assert_eq!(filtered.windows.len(), 1);
    assert_eq!(filtered.windows[0].id, wid("w2"));
    assert!(!filtered.workspaces[0].focused && !filtered.workspaces[0].visible);
    assert!(filtered.workspaces[1].focused && filtered.workspaces[1].visible);
    assert!(state.filtered_for_output(&state.visible_window_ids, &oid("out-9")).is_none());
}

#[test]
fn snapshot_lookups_find_outputs_and_resize_state() {
    let state = StateSnapshot {
        focused_window_id: None,
        current_output_id: Some(oid("out-2")),
        current_workspace_id: Some(wsid("missing")),
        outputs: vec![output("out-1", "HDMI-A-1", 1920, 1080, "ws-1"), output("out-2", "DP-1", 1280, 720, "ws-2")],
        workspaces: vec![workspace("ws-1", "1", "out-1", true)],
        windows: vec![],
        visible_window_ids: vec![],
        workspace_names: vec![],
        resize_state: ResizeState::default(),
    };
    assert_eq!(state.current_output().map(|o| o.name.clone()), Some("DP-1".to_string()));
    assert_eq!(state.output_by_id(&oid("out-1")).map(|o| o.logical_width), Some(1920));
    assert!(state.output_by_id(&oid("out-3")).is_none());
    assert!(state.current_workspace().is_none());
    assert!(state.workspace_resize_state(&wsid("ws-1")).is_empty());
}

#[test]
fn layout_context_excludes_floating_and_fullscreen_windows() {
    let mut tiled = window("tiled", "out-1", "ws-1", WindowMode::Tiled);
    tiled.app_id = Some("foot".to_string());
    tiled.title = Some("Terminal".to_string());
    tiled.focused = true;
    let mut floating = window("floating", "out-1", "ws-1", WindowMode::Floating);
    floating.app_id = Some("pavucontrol".to_string());
    floating.title = Some("Volume".to_string());
    let mut fullscreen = window("fullscreen", "out-1", "ws-1", WindowMode::Fullscreen);
    fullscreen.app_id = Some("mpv".to_string());
    fullscreen.title = Some("Video".to_string());
    let state = StateSnapshot {
        focused_window_id: Some(wid("tiled")),
        current_output_id: Some(oid("out-1")),
        current_workspace_id: Some(wsid("ws-1")),
        outputs: vec![output("out-1", "HDMI-A-1", 1920, 1080, "ws-1")],
        workspaces: vec![workspace("ws-1", "1", "out-1", true)],
        windows: vec![tiled, floating, fullscreen],
        visible_window_ids: vec![wid("tiled"), wid("floating"), wid("fullscreen")],
        workspace_names: vec!["1".to_string()],
        resize_state: ResizeState::default(),
    };

    let workspace = state.current_workspace().unwrap();
    let context = state.layout_context(workspace, None);

    assert_eq!(context.workspace.window_count, 1);
    assert_eq!(context.windows.len(), 1);
    assert_eq!(context.windows[0].id, wid("tiled"));
}

#[test]
fn layout_context_falls_back_to_the_current_output() {
    let mut ws = workspace("ws-1", "1", "out-1", true);
    ws.output_id = None;
    let state = StateSnapshot {
        focused_window_id: None,
        current_output_id: Some(oid("out-1")),
        current_workspace_id: Some(wsid("ws-1")),
        outputs: vec![output("out-1", "HDMI-A-1", 1920, 1080, "ws-1")],
        workspaces: vec![ws],
        windows: vec![],
        visible_window_ids: vec![],
        workspace_names: vec!["1".to_string()],
        resize_state: ResizeState::default(),
    };
    let workspace = state.current_workspace().unwrap();
    let context = state.layout_context(workspace, Some("master-stack".to_string()));
    assert_eq!(context.output.unwrap().id, oid("out-1"));
    assert_eq!((context.monitor.width, context.monitor.height), (1920, 1080));
    assert_eq!(context.monitor.name, "HDMI-A-1");
    assert_eq!(context.monitor.scale, Some(1));
    assert_eq!(context.selected_layout_name.as_deref(), Some("master-stack"));
    let state_context = context.state.unwrap();
    assert_eq!(state_context.selected_layout_name.as_deref(), Some("master-stack"));
    assert_eq!(state_context.workspace_names, vec!["1".to_string()]);
}
