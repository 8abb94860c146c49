use hypreact::focus::FocusAxis;
use hypreact::focus_visual::{infer_visual_scope, VisualChild, VisualEntry, VisualScope};
use hypreact::ids::WindowId;
use hypreact::wm::WindowGeometry;

fn entry(id: u64, x: i32, y: i32, width: i32, height: i32, index: usize) -> VisualEntry {
    VisualEntry {
        window_id: WindowId(id.to_string()),
        geometry: WindowGeometry { x, y, width, height },
        original_index: index,
    }
}

fn render(scope: &VisualScope) -> String {
    let axis = match scope.axis {
        Some(FocusAxis::Horizontal) => "H",
        Some(FocusAxis::Vertical) => "V",
        None => "-",
    };
    let children: Vec<String> = scope
        .children
        .iter()
        .map(|child| match child {
            VisualChild::Window(entry) => entry.window_id.0.clone(),
            VisualChild::Scope(inner) => render(inner),
        })
        .collect();
    format!("{}({})", axis, children.join(" "))
}

#[test]
fn grid_splits_into_rows_first() {
    let entries = vec![
        entry(1, 0, 0, 500, 400, 0),
        entry(2, 500, 0, 500, 400, 1),
        entry(3, 0, 400, 500, 400, 2),
        entry(4, 500, 400, 500, 400, 3),
    ];
    assert_eq!(render(&infer_visual_scope(&entries)), "V(H(1 2) H(3 4))");
}

#[test]
fn column_beside_nested_rows() {
    let entries = vec![
        entry(1, 0, 0, 2052, 1416, 0),
        entry(2, 2052, 0, 1352, 714, 1),
        entry(3, 2052, 714, 670, 690, 2),
        entry(4, 2734, 714, 670, 690, 3),
    ];
    assert_eq!(render(&infer_visual_scope(&entries)), "H(1 V(2 H(3 4)))");
}

#[test]
fn unsplittable_windows_keep_their_original_order() {
    let entries = vec![entry(7, 0, 0, 100, 100, 5), entry(8, 10, 10, 100, 100, 2)];
    assert_eq!(render(&infer_visual_scope(&entries)), "-(8 7)");
    assert_eq!(render(&infer_visual_scope(&vec![entry(9, 0, 0, 1, 1, 0)])), "-(9)");
    assert_eq!(render(&infer_visual_scope(&vec![])), "-()");
}

#[test]
fn axis_with_fewer_order_breaks_wins() {
    // Original order goes down the first column, then the second: splitting
    // into columns keeps each band contiguous in that order.
    let entries = vec![
        entry(1, 0, 0, 500, 400, 0),
        entry(3, 0, 400, 500, 400, 1),
        entry(2, 500, 0, 500, 400, 2),
        entry(4, 500, 400, 500, 400, 3),
    ];
    assert_eq!(render(&infer_visual_scope(&entries)), "H(V(1 3) V(2 4))");
}
