use hypreact::focus::{
    FocusAxis, FocusBranchKey, FocusScope, FocusScopeNavigation, FocusScopePath, FocusTree,
    FocusWindow,
};
use hypreact::id_map::IdMap;
use hypreact::ids::WindowId;
use hypreact::navigation::{
    managed_window_swap_positions, select_directional_focus_candidate, NavigationDirection,
    WindowGeometryCandidate,
};
use hypreact::wm::WindowGeometry;

fn window_id(value: u64) -> WindowId {
    WindowId(value.to_string())
}

fn scope(text: &str) -> FocusScopePath {
    FocusScopePath(text.to_string())
}

fn scope_path(scopes: &[&str]) -> Vec<FocusScopePath> {
    let mut resolved: Vec<FocusScopePath> = Vec::new();
    let mut current = "$workspace".to_string();
    for (depth, name) in scopes.iter().enumerate() {
        let next = if depth == 0 && *name == "$workspace" {
            "$workspace".to_string()
        } else if name.starts_with("$workspace") {
            name.to_string()
        } else {
            format!("{}/{}", current, name)
        };
        current = next.clone();
        resolved.push(scope(&next));
    }
    resolved
}

fn remember(remembered: &mut IdMap<FocusScopePath, WindowId>, scopes: &[&str], id: WindowId) {
    for key in scope_path(scopes) {
        remembered.insert(key, id.clone());
    }
}

fn candidate(id: u64, x: i32, y: i32, width: i32, height: i32, scopes: &[&str]) -> WindowGeometryCandidate {
    WindowGeometryCandidate {
        window_id: window_id(id),
        geometry: WindowGeometry { x, y, width, height },
        scope_path: scope_path(scopes),
    }
}

fn window_branch(id: u64) -> FocusBranchKey {
    FocusBranchKey::Window(window_id(id))
}

fn scope_branch(text: &str) -> FocusBranchKey {
    FocusBranchKey::Scope(scope(text))
}

fn scope_entry(key: &str, windows: &[u64], navigation: Option<(FocusAxis, Vec<FocusBranchKey>)>) -> FocusScope {
    FocusScope {
        key: scope(key),
        descendants: windows.iter().map(|id| window_id(*id)).collect(),
        navigation: navigation.map(|(axis, branches)| FocusScopeNavigation { axis, branches }),
    }
}

fn window_entry(id: u64, scopes: &[&str]) -> FocusWindow {
    FocusWindow { window_id: window_id(id), scope_path: scopes.iter().map(|s| scope(s)).collect() }
}

fn select(
    candidates: &Vec<WindowGeometryCandidate>,
    focused: u64,
    direction: NavigationDirection,
    remembered: &IdMap<FocusScopePath, WindowId>,
    tree: Option<&FocusTree>,
) -> Option<WindowId> {
    select_directional_focus_candidate(candidates, Some(window_id(focused)), direction, remembered, tree)
}

fn step(
    candidates: &Vec<WindowGeometryCandidate>,
    focused: &mut WindowId,
    remembered: &mut IdMap<FocusScopePath, WindowId>,
    focus_tree: &FocusTree,
    direction: NavigationDirection,
    expected: u64,
) {
    *focused = select_directional_focus_candidate(
        candidates,
        Some(focused.clone()),
        direction,
        remembered,
        Some(focus_tree),
    )
    .expect("directional target");
    let path = candidates
        .iter()
        .find(|candidate| candidate.window_id == *focused)
        .expect("focused candidate")
        .scope_path
        .clone();
    for key in path {
        remembered.insert(key, focused.clone());
    }
    assert_eq!(*focused, window_id(expected));
}

#[test]
fn directional_focus_prefers_nearest_window_in_direction() {
    let candidates = vec![
        candidate(1, 0, 0, 100, 100, &["$workspace", "main"]),
        candidate(2, 140, 10, 100, 100, &["$workspace", "main"]),
        candidate(3, 320, 0, 100, 100, &["$workspace", "stack"]),
    ];
    assert_eq!(
        select(&candidates, 1, NavigationDirection::Right, &IdMap::new(), None),
        Some(window_id(2))
    );
}

#[test]
fn directional_focus_cycles_within_requested_axis() {
    let candidates = vec![
        candidate(1, 120, 120, 100, 100, &["$workspace", "main"]),
        candidate(2, 120, 0, 100, 100, &["$workspace", "main"]),
        candidate(3, 260, 120, 100, 100, &["$workspace", "stack"]),
    ];
    assert_eq!(
        select(&candidates, 1, NavigationDirection::Up, &IdMap::new(), None),
        Some(window_id(2))
    );
    assert_eq!(
        select(&candidates, 1, NavigationDirection::Left, &IdMap::new(), None),
        Some(window_id(3))
    );
}

#[test]
fn directional_focus_prefers_lower_cross_axis_offset() {
    let candidates = vec![
        candidate(1, 100, 100, 100, 100, &["$workspace", "main"]),
        candidate(2, 260, 90, 100, 100, &["$workspace", "main"]),
        candidate(3, 250, 220, 100, 100, &["$workspace", "stack"]),
    ];
    assert_eq!(
        select(&candidates, 1, NavigationDirection::Right, &IdMap::new(), None),
        Some(window_id(2))
    );
}

#[test]
fn directional_focus_prefers_same_group_before_climbing() {
    let candidates = vec![
        candidate(1, 100, 100, 100, 100, &["$workspace", "main"]),
        candidate(2, 280, 105, 100, 100, &["$workspace", "main"]),
        candidate(3, 220, 100, 100, 100, &["$workspace", "stack"]),
    ];
    assert_eq!(
        select(&candidates, 1, NavigationDirection::Right, &IdMap::new(), None),
        Some(window_id(2))
    );
}

#[test]
fn directional_focus_climbs_to_parent_scope_when_group_has_no_match() {
    let candidates = vec![
        candidate(1, 100, 100, 100, 100, &["$workspace", "main"]),
        candidate(2, 100, 260, 100, 100, &["$workspace", "main"]),
        candidate(3, 260, 100, 100, 100, &["$workspace", "stack"]),
    ];
    assert_eq!(
        select(&candidates, 1, NavigationDirection::Right, &IdMap::new(), None),
        Some(window_id(3))
    );
}

#[test]
fn directional_focus_descends_into_remembered_nested_branch() {
    let candidates = vec![
        candidate(1, 0, 0, 100, 400, &["$workspace"]),
        candidate(2, 100, 0, 100, 200, &["$workspace", "right"]),
        candidate(3, 100, 200, 50, 200, &["$workspace", "right", "bottom"]),
        candidate(4, 150, 200, 50, 200, &["$workspace", "right", "bottom"]),
    ];
    let mut remembered = IdMap::new();

    assert_eq!(
        select(&candidates, 1, NavigationDirection::Right, &remembered, None),
        Some(window_id(2))
    );

    remember(&mut remembered, &["$workspace", "right"], window_id(2));
    assert_eq!(
        select(&candidates, 2, NavigationDirection::Down, &remembered, None),
        Some(window_id(3))
    );

    remember(&mut remembered, &["$workspace", "right", "bottom"], window_id(4));
    assert_eq!(
        select(&candidates, 2, NavigationDirection::Down, &remembered, None),
        Some(window_id(4))
    );

    remember(&mut remembered, &["$workspace", "right", "bottom"], window_id(3));
    assert_eq!(
        select(&candidates, 1, NavigationDirection::Right, &remembered, None),
        Some(window_id(3))
    );
}

#[test]
fn directional_focus_replays_sway_memory_sequence() {
    let right = "$workspace/group[1]:right";
    let bottom = "$workspace/group[1]:right/group[1]:bottom";
    let candidates = vec![
        candidate(1, 0, 0, 600, 600, &["$workspace"]),
        candidate(2, 600, 0, 400, 300, &["$workspace", right]),
        candidate(3, 600, 300, 200, 300, &["$workspace", right, bottom]),
        candidate(4, 800, 300, 200, 300, &["$workspace", right, bottom]),
    ];
    let focus_tree = FocusTree {
        scopes: vec![
            scope_entry(
                "$workspace",
                &[1, 2, 3, 4],
                Some((FocusAxis::Horizontal, vec![window_branch(1), scope_branch(right)])),
            ),
            scope_entry(right, &[2, 3, 4], Some((FocusAxis::Vertical, vec![window_branch(2), scope_branch(bottom)]))),
            scope_entry(bottom, &[3, 4], Some((FocusAxis::Horizontal, vec![window_branch(3), window_branch(4)]))),
        ],
        windows: vec![
            window_entry(1, &["$workspace"]),
            window_entry(2, &["$workspace", right]),
            window_entry(3, &["$workspace", right, bottom]),
            window_entry(4, &["$workspace", right, bottom]),
        ],
    };
    let mut remembered = IdMap::new();
    let mut focused = window_id(1);

    step(&candidates, &mut focused, &mut remembered, &focus_tree, NavigationDirection::Right, 2);
    focused = window_id(1);
    remembered.insert(FocusTree::workspace_scope(), window_id(2));

    step(&candidates, &mut focused, &mut remembered, &focus_tree, NavigationDirection::Down, 3);
    step(&candidates, &mut focused, &mut remembered, &focus_tree, NavigationDirection::Right, 4);
    step(&candidates, &mut focused, &mut remembered, &focus_tree, NavigationDirection::Up, 2);
    step(&candidates, &mut focused, &mut remembered, &focus_tree, NavigationDirection::Down, 4);
    step(&candidates, &mut focused, &mut remembered, &focus_tree, NavigationDirection::Left, 3);
    step(&candidates, &mut focused, &mut remembered, &focus_tree, NavigationDirection::Left, 1);
    step(&candidates, &mut focused, &mut remembered, &focus_tree, NavigationDirection::Right, 3);
}

#[test]
fn directional_focus_wraps_within_axis_and_preserves_column_memory() {
    let main_scope = "$workspace/group[0]:main-column";
    let side_scope = "$workspace/group[1]:side-column";
    let candidates = vec![
        candidate(1, 0, 0, 2553, 702, &["$workspace", main_scope]),
        candidate(2, 0, 702, 2553, 702, &["$workspace", main_scope]),
        candidate(3, 2553, 0, 851, 464, &["$workspace", side_scope]),
        candidate(4, 2553, 464, 851, 464, &["$workspace", side_scope]),
        candidate(5, 2553, 928, 851, 464, &["$workspace", side_scope]),
    ];
    let focus_tree = FocusTree {
        scopes: vec![
            scope_entry(
                "$workspace",
                &[1, 2, 3, 4, 5],
                Some((FocusAxis::Horizontal, vec![scope_branch(main_scope), scope_branch(side_scope)])),
            ),
            scope_entry(main_scope, &[1, 2], Some((FocusAxis::Vertical, vec![window_branch(1), window_branch(2)]))),
            scope_entry(
                side_scope,
                &[3, 4, 5],
                Some((FocusAxis::Vertical, vec![window_branch(3), window_branch(4), window_branch(5)])),
            ),
        ],
        windows: vec![
            window_entry(1, &["$workspace", main_scope]),
            window_entry(2, &["$workspace", main_scope]),
            window_entry(3, &["$workspace", side_scope]),
            window_entry(4, &["$workspace", side_scope]),
            window_entry(5, &["$workspace", side_scope]),
        ],
    };
    let mut remembered = IdMap::new();
    let mut focused = window_id(1);
    remembered.insert(FocusTree::workspace_scope(), focused.clone());
    remembered.insert(scope(main_scope), focused.clone());

    step(&candidates, &mut focused, &mut remembered, &focus_tree, NavigationDirection::Down, 2);
    step(&candidates, &mut focused, &mut remembered, &focus_tree, NavigationDirection::Down, 1);
    step(&candidates, &mut focused, &mut remembered, &focus_tree, NavigationDirection::Right, 3);
    step(&candidates, &mut focused, &mut remembered, &focus_tree, NavigationDirection::Down, 4);
    step(&candidates, &mut focused, &mut remembered, &focus_tree, NavigationDirection::Down, 5);
    step(&candidates, &mut focused, &mut remembered, &focus_tree, NavigationDirection::Left, 1);
    step(&candidates, &mut focused, &mut remembered, &focus_tree, NavigationDirection::Right, 5);
    step(&candidates, &mut focused, &mut remembered, &focus_tree, NavigationDirection::Right, 1);
}

/// Focus tree of four windows laid out as one tall window on the left and,
/// on the right, a wide window above two side-by-side windows; each child of
/// a visual scope is itself a scope holding its windows.
fn visual_ancestor_tree() -> FocusTree {
    let v0 = "$workspace/visual[0]";
    let v1 = "$workspace/visual[1]";
    let v10 = "$workspace/visual[1]/visual[0]";
    let v11 = "$workspace/visual[1]/visual[1]";
    let v110 = "$workspace/visual[1]/visual[1]/visual[0]";
    let v111 = "$workspace/visual[1]/visual[1]/visual[1]";
    FocusTree {
        scopes: vec![
            scope_entry("$workspace", &[1, 2, 3, 4], Some((FocusAxis::Horizontal, vec![scope_branch(v0), scope_branch(v1)]))),
            scope_entry(v0, &[1], None),
            scope_entry(v1, &[2, 3, 4], Some((FocusAxis::Vertical, vec![scope_branch(v10), scope_branch(v11)]))),
            scope_entry(v10, &[2], None),
            scope_entry(v11, &[3, 4], Some((FocusAxis::Horizontal, vec![scope_branch(v110), scope_branch(v111)]))),
            scope_entry(v110, &[3], None),
            scope_entry(v111, &[4], None),
        ],
        windows: vec![
            window_entry(1, &["$workspace", v0]),
            window_entry(2, &["$workspace", v1, v10]),
            window_entry(3, &["$workspace", v1, v11, v110]),
            window_entry(4, &["$workspace", v1, v11, v111]),
        ],
    }
}

#[test]
fn directional_focus_prefers_visual_ancestor_neighbor_before_inner_wrap() {
    let candidates = vec![
        candidate(1, 0, 0, 2052, 1416, &["$workspace", "$workspace/visual[0]"]),
        candidate(2, 2052, 0, 1352, 714, &["$workspace", "$workspace/visual[1]", "$workspace/visual[1]/visual[0]"]),
        candidate(
            3,
            2052,
            714,
            670,
            690,
            &[
                "$workspace",
                "$workspace/visual[1]",
                "$workspace/visual[1]/visual[1]",
                "$workspace/visual[1]/visual[1]/visual[0]",
            ],
        ),
        candidate(
            4,
            2734,
            714,
            670,
            690,
            &[
                "$workspace",
                "$workspace/visual[1]",
                "$workspace/visual[1]/visual[1]",
                "$workspace/visual[1]/visual[1]/visual[1]",
            ],
        ),
    ];
    let focus_tree = visual_ancestor_tree();
    let mut remembered = IdMap::new();
    remembered.insert(FocusTree::workspace_scope(), window_id(3));
    remembered.insert(scope("$workspace/visual[1]"), window_id(3));
    remembered.insert(scope("$workspace/visual[1]/visual[1]"), window_id(3));

    assert_eq!(
        select(&candidates, 3, NavigationDirection::Left, &remembered, Some(&focus_tree)),
        Some(window_id(1))
    );
    assert_eq!(
        select(&candidates, 4, NavigationDirection::Right, &remembered, Some(&focus_tree)),
        Some(window_id(1))
    );
}

#[test]
fn directional_focus_wraps_within_visual_grid_rows() {
    let candidates = vec![
        candidate(1, 0, 0, 500, 400, &["$workspace", "$workspace/visual[0]", "$workspace/visual[0]/visual[0]"]),
        candidate(2, 500, 0, 500, 400, &["$workspace", "$workspace/visual[0]", "$workspace/visual[0]/visual[1]"]),
        candidate(3, 0, 400, 500, 400, &["$workspace", "$workspace/visual[1]", "$workspace/visual[1]/visual[0]"]),
        candidate(4, 500, 400, 500, 400, &["$workspace", "$workspace/visual[1]", "$workspace/visual[1]/visual[1]"]),
    ];
    let v0 = "$workspace/visual[0]";
    let v1 = "$workspace/visual[1]";
    let focus_tree = FocusTree {
        scopes: vec![
            scope_entry("$workspace", &[1, 2, 3, 4], Some((FocusAxis::Vertical, vec![scope_branch(v0), scope_branch(v1)]))),
            scope_entry(
                v0,
                &[1, 2],
                Some((FocusAxis::Horizontal, vec![scope_branch("$workspace/visual[0]/visual[0]"), scope_branch("$workspace/visual[0]/visual[1]")])),
            ),
            scope_entry("$workspace/visual[0]/visual[0]", &[1], None),
            scope_entry("$workspace/visual[0]/visual[1]", &[2], None),
            scope_entry(
                v1,
                &[3, 4],
                Some((FocusAxis::Horizontal, vec![scope_branch("$workspace/visual[1]/visual[0]"), scope_branch("$workspace/visual[1]/visual[1]")])),
            ),
            scope_entry("$workspace/visual[1]/visual[0]", &[3], None),
            scope_entry("$workspace/visual[1]/visual[1]", &[4], None),
        ],
        windows: vec![
            window_entry(1, &["$workspace", v0, "$workspace/visual[0]/visual[0]"]),
            window_entry(2, &["$workspace", v0, "$workspace/visual[0]/visual[1]"]),
            window_entry(3, &["$workspace", v1, "$workspace/visual[1]/visual[0]"]),
            window_entry(4, &["$workspace", v1, "$workspace/visual[1]/visual[1]"]),
        ],
    };

    assert_eq!(
        select(&candidates, 2, NavigationDirection::Right, &IdMap::new(), Some(&focus_tree)),
        Some(window_id(1))
    );
    assert_eq!(
        select(&candidates, 4, NavigationDirection::Right, &IdMap::new(), Some(&focus_tree)),
        Some(window_id(3))
    );
}

#[test]
fn directional_focus_preserves_memory_in_nested_wrap_rows() {
    let v0 = "$workspace/visual[0]";
    let v1 = "$workspace/visual[1]";
    let v10 = "$workspace/visual[1]/visual[0]";
    let v11 = "$workspace/visual[1]/visual[1]";
    let v110 = "$workspace/visual[1]/visual[1]/visual[0]";
    let v111 = "$workspace/visual[1]/visual[1]/visual[1]";
    let v12 = "$workspace/visual[1]/visual[2]";
    let candidates = vec![
        candidate(1, 0, 0, 1200, 900, &["$workspace", v0]),
        candidate(2, 1200, 0, 1200, 300, &["$workspace", v1, v10]),
        candidate(3, 1200, 300, 600, 300, &["$workspace", v1, v11, v110]),
        candidate(4, 1800, 300, 600, 300, &["$workspace", v1, v11, v111]),
        candidate(5, 1200, 600, 1200, 300, &["$workspace", v1, v12]),
    ];
    let focus_tree = FocusTree {
        scopes: vec![
            scope_entry("$workspace", &[1, 2, 3, 4, 5], Some((FocusAxis::Horizontal, vec![scope_branch(v0), scope_branch(v1)]))),
            scope_entry(v0, &[1], None),
            scope_entry(
                v1,
                &[2, 3, 4, 5],
                Some((FocusAxis::Vertical, vec![scope_branch(v10), scope_branch(v11), scope_branch(v12)])),
            ),
            scope_entry(v10, &[2], None),
            scope_entry(v11, &[3, 4], Some((FocusAxis::Horizontal, vec![scope_branch(v110), scope_branch(v111)]))),
            scope_entry(v110, &[3], None),
            scope_entry(v111, &[4], None),
            scope_entry(v12, &[5], None),
        ],
        windows: vec![
            window_entry(1, &["$workspace", v0]),
            window_entry(2, &["$workspace", v1, v10]),
            window_entry(3, &["$workspace", v1, v11, v110]),
            window_entry(4, &["$workspace", v1, v11, v111]),
            window_entry(5, &["$workspace", v1, v12]),
        ],
    };
    let mut remembered = IdMap::new();
    remembered.insert(FocusTree::workspace_scope(), window_id(4));
    remembered.insert(scope(v1), window_id(4));
    remembered.insert(scope(v11), window_id(4));

    assert_eq!(
        select(&candidates, 1, NavigationDirection::Right, &remembered, Some(&focus_tree)),
        Some(window_id(4))
    );
    assert_eq!(
        select(&candidates, 4, NavigationDirection::Down, &remembered, Some(&focus_tree)),
        Some(window_id(5))
    );
}

#[test]
fn directional_focus_needs_a_known_focused_window() {
    let candidates = vec![candidate(1, 0, 0, 100, 100, &["$workspace"])];
    assert_eq!(
        select_directional_focus_candidate(&candidates, None, NavigationDirection::Right, &IdMap::new(), None),
        None
    );
    assert_eq!(select(&candidates, 9, NavigationDirection::Right, &IdMap::new(), None), None);
    assert_eq!(select(&candidates, 1, NavigationDirection::Right, &IdMap::new(), None), None);
}

#[test]
fn geometric_fallback_ignores_windows_behind_the_move() {
    let candidates = vec![
        candidate(1, 100, 0, 100, 100, &[]),
        candidate(2, 0, 0, 100, 100, &[]),
        candidate(3, 300, 0, 100, 100, &[]),
        candidate(4, 250, 0, 100, 100, &[]),
    ];
    assert_eq!(
        select(&candidates, 1, NavigationDirection::Right, &IdMap::new(), None),
        Some(window_id(4))
    );
    assert_eq!(
        select(&candidates, 1, NavigationDirection::Left, &IdMap::new(), None),
        Some(window_id(2))
    );
    assert_eq!(select(&candidates, 1, NavigationDirection::Up, &IdMap::new(), None), None);
}

#[test]
fn managed_window_swap_positions_resolves_both_indices() {
    let window_order = vec![window_id(10), window_id(20), window_id(30)];

    assert_eq!(
        managed_window_swap_positions(&window_order, window_id(10), window_id(30)),
        Some((0, 2))
    );
}

#[test]
fn managed_window_swap_positions_requires_both_windows() {
    let window_order = vec![window_id(10), window_id(20)];

    assert_eq!(
        managed_window_swap_positions(&window_order, window_id(10), window_id(30)),
        None
    );
}

#[test]
fn set_focus_navigation_replaces_each_scope_navigation() {
    let mut model = hypreact::wm::WmModel::default();
    let mut unchanged = hypreact::wm::WmModel::default();
    let mut map: IdMap<FocusScopePath, FocusScopeNavigation> = IdMap::new();
    map.insert(
        scope("$workspace"),
        FocusScopeNavigation { axis: FocusAxis::Vertical, branches: vec![window_branch(2), window_branch(1)] },
    );
    map.insert(
        scope("$workspace/unknown"),
        FocusScopeNavigation { axis: FocusAxis::Horizontal, branches: vec![] },
    );
    unchanged.set_focus_navigation(IdMap::new());
    assert!(unchanged.focus_tree.is_none());

    model.set_focus_tree_value(Some(FocusTree {
        scopes: vec![
            scope_entry("$workspace", &[1, 2], Some((FocusAxis::Horizontal, vec![window_branch(1), window_branch(2)]))),
            scope_entry("$workspace/side", &[2], Some((FocusAxis::Horizontal, vec![window_branch(2)]))),
        ],
        windows: vec![window_entry(1, &["$workspace"]), window_entry(2, &["$workspace", "$workspace/side"])],
    }));
    model.set_focus_navigation(map);

    let tree = model.focus_tree.as_ref().unwrap();
    let root = tree.navigation(&scope("$workspace")).unwrap();
    assert_eq!(root.axis, FocusAxis::Vertical);
    assert_eq!(root.branches.len(), 2);
    assert!(tree.navigation(&scope("$workspace/side")).is_none());
    assert!(tree.navigation(&scope("$workspace/unknown")).is_none());
    assert_eq!(tree.descendants(&scope("$workspace/side")).unwrap().len(), 1);
}
