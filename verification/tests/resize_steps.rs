use hypreact::id_map::IdMap;
use hypreact::ids::WindowId;
use hypreact::resize::{
    apply_resize_step, gc_resize_state, reconciled_branch_shares, scale_authored_share_units,
    select_resize_candidate, PartitionAdjustment, PartitionAxis, PartitionBranch,
    PartitionConstraints, PartitionId, PartitionNode, PartitionTree, ResizeCandidate,
    ResizeDirection, ResizeState, WorkspaceResizeState, DEFAULT_RESIZE_STEP_UNITS,
};

fn window(name: &str) -> WindowId {
    WindowId(name.to_string())
}

fn branch(id: &str, window_name: &str, default_share: Option<u32>) -> PartitionBranch {
    PartitionBranch {
        branch_id: id.to_string(),
        descendant_window_ids: vec![window(window_name)],
        default_share,
        constraints: PartitionConstraints::default(),
    }
}

fn tree_with_branches(branches: Vec<PartitionBranch>) -> PartitionTree {
    let partition_id = PartitionId::new("frame");
    let mut partitions = IdMap::new();
    partitions.insert(
        partition_id.clone(),
        PartitionNode {
            partition_id: partition_id.clone(),
            axis: PartitionAxis::Horizontal,
            adjustable: true,
            branches,
        },
    );
    let mut paths = IdMap::new();
    paths.insert(window("master"), vec![partition_id.clone()]);
    paths.insert(window("stack"), vec![partition_id.clone()]);
    PartitionTree {
        root_partition_ids: vec![partition_id],
        partitions,
        window_to_partition_path: paths,
    }
}

fn partition_tree() -> PartitionTree {
    tree_with_branches(vec![branch("master", "master", None), branch("stack", "stack", None)])
}

fn frame_shares(state: &WorkspaceResizeState) -> Vec<u32> {
    state
        .adjustments_by_partition_id
        .get(&PartitionId::new("frame"))
        .expect("frame adjustment")
        .branch_shares
        .clone()
}

fn candidate(grow: usize, shrink: usize) -> ResizeCandidate {
    ResizeCandidate {
        partition_id: PartitionId::new("frame"),
        grow_branch_index: grow,
        shrink_branch_index: shrink,
    }
}

#[test]
fn select_resize_candidate_uses_requested_side() {
    let tree = partition_tree();

    assert_eq!(
        select_resize_candidate(&tree, &window("master"), ResizeDirection::Right),
        Some(candidate(0, 1))
    );
    assert_eq!(
        select_resize_candidate(&tree, &window("stack"), ResizeDirection::Left),
        Some(candidate(1, 0))
    );
    assert_eq!(
        select_resize_candidate(&tree, &window("master"), ResizeDirection::Left),
        Some(candidate(1, 0))
    );
    assert_eq!(
        select_resize_candidate(&tree, &window("stack"), ResizeDirection::Right),
        Some(candidate(0, 1))
    );
}

#[test]
fn select_resize_candidate_rejects_missing_side() {
    let tree = partition_tree();

    assert_eq!(select_resize_candidate(&tree, &window("master"), ResizeDirection::Up), None);
    assert_eq!(select_resize_candidate(&tree, &window("stack"), ResizeDirection::Down), None);
}

#[test]
fn apply_resize_step_mutates_partition_shares() {
    let tree = partition_tree();
    let mut state = WorkspaceResizeState::default();
    let candidate = select_resize_candidate(&tree, &window("master"), ResizeDirection::Right)
        .expect("resize candidate");

    assert!(apply_resize_step(&mut state, &tree, &candidate, DEFAULT_RESIZE_STEP_UNITS));
    assert_eq!(frame_shares(&state), vec![132, 108]);
}

#[test]
fn gc_resize_state_removes_unknown_partitions() {
    let tree = partition_tree();
    let mut state = WorkspaceResizeState::default();
    state.adjustments_by_partition_id.insert(
        PartitionId::new("frame"),
        PartitionAdjustment {
            branch_ids: vec!["master".into(), "stack".into()],
            branch_shares: vec![12, 12],
        },
    );
    state.adjustments_by_partition_id.insert(
        PartitionId::new("stale"),
        PartitionAdjustment {
            branch_ids: vec!["left".into(), "right".into()],
            branch_shares: vec![8, 16],
        },
    );

    gc_resize_state(&mut state, &tree);

    assert!(state.adjustments_by_partition_id.contains_key(&PartitionId::new("frame")));
    assert!(!state.adjustments_by_partition_id.contains_key(&PartitionId::new("stale")));
}

#[test]
fn apply_resize_step_uses_authored_default_branch_shares() {
    let tree = tree_with_branches(vec![
        branch("master", "master", Some(scale_authored_share_units(3))),
        branch("stack", "stack", Some(scale_authored_share_units(2))),
    ]);
    let mut state = WorkspaceResizeState::default();
    let candidate = select_resize_candidate(&tree, &window("master"), ResizeDirection::Right)
        .expect("resize candidate");

    assert!(apply_resize_step(&mut state, &tree, &candidate, DEFAULT_RESIZE_STEP_UNITS));
    assert_eq!(frame_shares(&state), vec![48, 12]);
}

#[test]
fn reconciled_branch_shares_preserve_matching_branch_ids_and_default_new_branches() {
    let adjustment = PartitionAdjustment {
        branch_ids: vec!["master".into(), "stack".into()],
        branch_shares: vec![5, 7],
    };

    assert_eq!(
        reconciled_branch_shares(
            &adjustment,
            &["stack".into(), "master".into(), "extra".into()],
            &[
                Some(scale_authored_share_units(2)),
                Some(scale_authored_share_units(3)),
                Some(scale_authored_share_units(4)),
            ],
        ),
        vec![7, 5, 48]
    );
}

#[test]
fn apply_resize_step_clamps_against_branch_min_and_max() {
    let mut master = branch("master", "master", Some(scale_authored_share_units(3)));
    master.constraints.max_share = Some(scale_authored_share_units(4));
    let mut stack = branch("stack", "stack", Some(scale_authored_share_units(2)));
    stack.constraints.min_share = Some(scale_authored_share_units(1));
    let tree = tree_with_branches(vec![master, stack]);

    let mut state = WorkspaceResizeState::default();
    let candidate = select_resize_candidate(&tree, &window("master"), ResizeDirection::Right)
        .expect("resize candidate");

    assert!(apply_resize_step(&mut state, &tree, &candidate, 10));
    assert_eq!(frame_shares(&state), vec![46, 14]);
    assert!(apply_resize_step(&mut state, &tree, &candidate, 10));
    assert_eq!(frame_shares(&state), vec![48, 12]);
    assert!(!apply_resize_step(&mut state, &tree, &candidate, 10));
}

#[test]
fn scale_authored_share_units_multiplies_and_saturates() {
    assert_eq!(scale_authored_share_units(3), 36);
    assert_eq!(scale_authored_share_units(0), 0);
    assert_eq!(scale_authored_share_units(u32::MAX), u32::MAX);
}

#[test]
fn reconciled_branch_shares_fall_back_to_positions_when_ids_do_not_line_up() {
    let adjustment = PartitionAdjustment { branch_ids: vec![], branch_shares: vec![5] };
    assert_eq!(
        reconciled_branch_shares(&adjustment, &["a".into(), "b".into()], &[None, None]),
        vec![5, 120]
    );
}

#[test]
fn refused_steps_leave_state_untouched() {
    let mut fixed = branch("master", "master", None);
    fixed.constraints.fixed = true;
    let tree = tree_with_branches(vec![fixed, branch("stack", "stack", None)]);
    let mut state = WorkspaceResizeState::default();
    assert!(!apply_resize_step(&mut state, &tree, &candidate(0, 1), 12));
    assert!(!apply_resize_step(&mut state, &tree, &candidate(1, 1), 12));
    assert!(!apply_resize_step(&mut state, &tree, &candidate(0, 5), 12));
    assert!(state.is_empty());
    assert!(ResizeState::default().is_empty());
    assert!(PartitionConstraints::default().is_default());
}

#[test]
fn a_step_keeps_the_total_share() {
    let tree = partition_tree();
    let mut state = WorkspaceResizeState::default();
    assert!(apply_resize_step(&mut state, &tree, &candidate(1, 0), 500));
    let shares = frame_shares(&state);
    assert_eq!(shares, vec![1, 239]);
    assert_eq!(shares.iter().sum::<u32>(), 240);
    assert_eq!(PartitionAxis::from_resize_direction(ResizeDirection::Up), PartitionAxis::Vertical);
}
