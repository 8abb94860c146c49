use hypreact::ids::{OutputId, WindowId, WorkspaceId};
use hypreact::layout::{ResolvedLayoutNode, SourceLayoutNode};
use hypreact::wm::WmModel;
use hypreact::workspace::{
    WorkspaceSelection, ensure_default_workspace, ensure_workspace, fallback_master_stack_layout_tree,
    flat_workspace_root, place_new_window, request_select_next_workspace, request_select_previous_workspace,
    request_select_workspace,
};

fn window_id(value: u64) -> WindowId {
    WindowId(value.to_string())
}

#[test]
fn ensuring_default_workspace_creates_and_selects_it() {
    let mut model = WmModel::default();

    let workspace_id = ensure_default_workspace(&mut model, "1");

    assert_eq!(workspace_id, WorkspaceId("1".to_string()));
    assert_eq!(model.current_workspace_id, Some(WorkspaceId("1".to_string())));
    assert_eq!(
        model.workspaces.get(&WorkspaceId("1".to_string())).map(|workspace| workspace.focused),
        Some(true)
    );
}

#[test]
fn selecting_workspace_updates_focus_and_visibility() {
    let mut model = WmModel::default();
    ensure_workspace(&mut model, "1");
    ensure_workspace(&mut model, "2");
    ensure_default_workspace(&mut model, "1");

    let selected =
        request_select_workspace(&mut model, WorkspaceId("2".to_string()), Vec::new());

    assert_eq!(
        selected,
        Some(WorkspaceSelection {
            workspace_id: WorkspaceId("2".to_string()),
            focused_window_id: None,
        })
    );
    assert_eq!(model.current_workspace_id, Some(WorkspaceId("2".to_string())));
    assert_eq!(
        model.workspaces.get(&WorkspaceId("1".to_string())).map(|workspace| workspace.focused),
        Some(false)
    );
    assert_eq!(
        model.workspaces.get(&WorkspaceId("2".to_string())).map(|workspace| workspace.visible),
        Some(true)
    );
}

#[test]
fn selecting_next_workspace_advances_and_wraps() {
    let mut model = WmModel::default();
    ensure_workspace(&mut model, "1");
    ensure_workspace(&mut model, "2");
    ensure_workspace(&mut model, "3");
    ensure_default_workspace(&mut model, "2");

    let next = request_select_next_workspace(&mut model, Vec::new());
    assert_eq!(
        next,
        Some(WorkspaceSelection {
            workspace_id: WorkspaceId("3".to_string()),
            focused_window_id: None,
        })
    );

    let wrapped = request_select_next_workspace(&mut model, Vec::new());
    assert_eq!(
        wrapped,
        Some(WorkspaceSelection {
            workspace_id: WorkspaceId("1".to_string()),
            focused_window_id: None,
        })
    );
}

#[test]
fn selecting_previous_workspace_rewinds_and_wraps() {
    let mut model = WmModel::default();
    ensure_workspace(&mut model, "1");
    ensure_workspace(&mut model, "2");
    ensure_workspace(&mut model, "3");
    ensure_default_workspace(&mut model, "2");

    let previous = request_select_previous_workspace(&mut model, Vec::new());
    assert_eq!(
        previous,
        Some(WorkspaceSelection {
            workspace_id: WorkspaceId("1".to_string()),
            focused_window_id: None,
        })
    );

    let wrapped = request_select_previous_workspace(&mut model, Vec::new());
    assert_eq!(
        wrapped,
        Some(WorkspaceSelection {
            workspace_id: WorkspaceId("3".to_string()),
            focused_window_id: None,
        })
    );
}

#[test]
fn request_select_workspace_returns_preferred_focus_for_selected_workspace() {
    let mut model = WmModel::default();
    ensure_workspace(&mut model, "1");
    ensure_workspace(&mut model, "2");
    model.insert_window(window_id(1), Some(WorkspaceId("1".to_string())), None);
    model.insert_window(window_id(2), Some(WorkspaceId("2".to_string())), None);
    model.insert_window(window_id(3), Some(WorkspaceId("2".to_string())), None);
    model.set_window_focused(Some(window_id(1)));

    let selection = request_select_workspace(
        &mut model,
        WorkspaceId("2".to_string()),
        vec![window_id(1), window_id(2), window_id(3)],
    );

    assert_eq!(
        selection,
        Some(WorkspaceSelection {
            workspace_id: WorkspaceId("2".to_string()),
            focused_window_id: Some(window_id(3)),
        })
    );
}

#[test]
fn places_new_window_on_current_workspace_and_output() {
    let mut model = WmModel::default();
    ensure_default_workspace(&mut model, "1");
    model.current_output_id = Some(OutputId("winit".to_string()));

    let placed_window_id = place_new_window(&mut model, window_id(5));

    assert_eq!(placed_window_id, window_id(5));
    let window = model.windows.get(&window_id(5)).expect("window missing");
    assert_eq!(window.workspace_id, Some(WorkspaceId("1".to_string())));
    assert_eq!(window.output_id, Some(OutputId("winit".to_string())));
}

#[test]
fn places_new_window_even_without_current_workspace_or_output() {
    let mut model = WmModel::default();

    let placed_window_id = place_new_window(&mut model, window_id(6));

    assert_eq!(placed_window_id, window_id(6));
    let window = model.windows.get(&window_id(6)).expect("window missing");
    assert_eq!(window.workspace_id, None);
    assert_eq!(window.output_id, None);
}

#[test]
fn fallback_master_stack_layout_tree_contains_main_and_stack_groups() {
    let SourceLayoutNode::Workspace { children, .. } = fallback_master_stack_layout_tree()
    else {
        panic!("expected workspace root");
    };

    assert_eq!(children.len(), 2);
    assert!(matches!(
        &children[0],
        SourceLayoutNode::Group { meta, .. } if meta.id.as_deref() == Some("main")
    ));
    assert!(matches!(
        &children[1],
        SourceLayoutNode::Group { meta, .. } if meta.id.as_deref() == Some("stack")
    ));
}

#[test]
fn flat_workspace_root_materializes_windows_in_order() {
    let ResolvedLayoutNode::Workspace { children, .. } =
        flat_workspace_root(vec![window_id(1), window_id(2)])
    else {
        panic!("expected workspace root");
    };

    assert_eq!(children.len(), 2);
    assert!(matches!(
        &children[0],
        ResolvedLayoutNode::Window { window_id: Some(id), .. } if id == &window_id(1)
    ));
    assert!(matches!(
        &children[1],
        ResolvedLayoutNode::Window { window_id: Some(id), .. } if id == &window_id(2)
    ));
}

#[test]
fn next_then_previous_returns_to_the_starting_workspace() {
    for start in ["1", "2", "3"] {
        let mut model = WmModel::default();
        for name in ["1", "2", "3"] {
            model.upsert_workspace(WorkspaceId(name.to_string()), name.to_string());
        }
        model.set_current_workspace(WorkspaceId(start.to_string()));
        request_select_next_workspace(&mut model, Vec::new());
        let back = request_select_previous_workspace(&mut model, Vec::new()).unwrap();
        assert_eq!(back.workspace_id, WorkspaceId(start.to_string()));
        request_select_previous_workspace(&mut model, Vec::new());
        let forward = request_select_next_workspace(&mut model, Vec::new()).unwrap();
        assert_eq!(forward.workspace_id, WorkspaceId(start.to_string()));
    }
}
