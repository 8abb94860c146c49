use hypreact::css_source::{leading_trimmed_len, trailing_trimmed_len, CssRange, SourceMap};
use hypreact::ids::{OutputId, WorkspaceId};
use hypreact::runtime_error::RuntimeRefreshSummary;
use hypreact::snapshot::{output_snapshot, workspace_snapshot};
use hypreact::wm::WmModel;

#[test]
fn snapshots_copy_output_and_workspace_state() {
    let mut model = WmModel::default();
    model.upsert_workspace(WorkspaceId("1".to_string()), "one".to_string());
    model.upsert_workspace(WorkspaceId("2".to_string()), "two".to_string());
    model.upsert_output(OutputId("DP-1".to_string()), "DP-1".to_string(), 1920, 1080, None);
    model.attach_workspace_to_output(WorkspaceId("1".to_string()), OutputId("DP-1".to_string()));
    model.attach_workspace_to_output(WorkspaceId("2".to_string()), OutputId("DP-1".to_string()));

    let output = output_snapshot(model.outputs.get(&OutputId("DP-1".to_string())).unwrap());
    assert_eq!(output.id, OutputId("DP-1".to_string()));
    assert_eq!((output.logical_width, output.logical_height, output.scale), (1920, 1080, 1));
    assert!(output.enabled);

    let workspace = model.workspaces.get(&WorkspaceId("1".to_string())).unwrap();
    let snapshot = workspace_snapshot(&model, workspace);
    assert_eq!(snapshot.id, WorkspaceId("1".to_string()));
    assert_eq!(snapshot.name, "one");
    assert_eq!(snapshot.output_id, Some(OutputId("DP-1".to_string())));
    assert_eq!(snapshot.active_workspaces, model.active_workspace_names(workspace));
}

#[test]
fn refresh_summary_is_noop_only_without_changes() {
    assert!(RuntimeRefreshSummary::default().is_noop());
    assert!(!RuntimeRefreshSummary { refreshed_files: 1, pruned_files: 0 }.is_noop());
    assert!(!RuntimeRefreshSummary { refreshed_files: 0, pruned_files: 2 }.is_noop());
}

#[test]
fn source_map_counts_lines_and_characters() {
    let source = "a {\n  color: réd;\n}\n";
    let map = SourceMap::new(source);
    assert_eq!(map.position(0), (1, 1));
    assert_eq!(map.position(3), (1, 4));
    assert_eq!(map.position(4), (2, 1));
    // "  color: r" is 10 bytes and 10 characters; "é" is two bytes, one character
    assert_eq!(map.position(14), (2, 11));
    assert_eq!(map.position(16), (2, 12));
    assert_eq!(map.position(source.len()), (4, 1));
    let range = map.range(4, 16);
    assert_eq!(
        range,
        CssRange { start_line: 2, start_column: 1, end_line: 2, end_column: 12 }
    );
    let whole = CssRange::whole_document();
    assert_eq!((whole.start_line, whole.start_column), (1, 1));
    assert_eq!((whole.end_line, whole.end_column), (u32::MAX, u32::MAX));
}

#[test]
fn trimmed_lengths_count_bytes_of_white_space() {
    assert_eq!(leading_trimmed_len("  \tx  "), 3);
    assert_eq!(trailing_trimmed_len("  \tx  "), 2);
    assert_eq!(leading_trimmed_len("\u{3000}x"), 3);
    assert_eq!(trailing_trimmed_len("x\u{a0}"), 2);
    assert_eq!(leading_trimmed_len("   "), 3);
    assert_eq!(trailing_trimmed_len(""), 0);
}
