use hypreact::css_source::CssRange;
use hypreact::cursor::{Position, Range};
use hypreact::lsp_project::{ProjectSelectorKind, ProjectSelectorMatch};
use hypreact::selector_references::{
    selector_for_references, selector_reference_locations, SourceLocation, StylesheetDocument,
};

fn span(line: u32, start: u32, end: u32) -> Range {
    Range { start: Position { line, character: start }, end: Position { line, character: end } }
}

fn rule(line: u32, start_column: u32, end_column: u32) -> CssRange {
    CssRange { start_line: line, start_column, end_line: line, end_column }
}

fn document(uri: &str, path: &str) -> StylesheetDocument {
    StylesheetDocument {
        uri: uri.to_string(),
        path: path.to_string(),
        source: "window.shell { color: red; }\n#main, .shell { }".to_string(),
        rule_selectors: vec![rule(1, 1, 13), rule(2, 1, 14)],
    }
}

#[test]
fn finds_class_uses_in_every_rule_once() {
    let doc = document("file:///p/index.css", "/p/index.css");
    let def = SourceLocation { uri: "file:///p/index.tsx".to_string(), range: span(3, 10, 15) };
    let found = selector_reference_locations(
        ProjectSelectorKind::Class,
        "shell",
        true,
        &vec![def.clone(), def.clone()],
        &vec![],
        &vec![doc],
    );
    let got: Vec<(String, Range)> = found.iter().map(|l| (l.uri.clone(), l.range)).collect();
    assert_eq!(
        got,
        vec![
            ("file:///p/index.tsx".to_string(), span(3, 10, 15)),
            ("file:///p/index.css".to_string(), span(0, 6, 12)),
            ("file:///p/index.css".to_string(), span(1, 7, 13)),
        ]
    );
}

#[test]
fn ids_and_non_stylesheets_are_told_apart() {
    let doc = document("file:///p/index.css", "/p/index.css");
    let other = document("file:///p/notes.txt", "/p/notes.txt");
    let found = selector_reference_locations(ProjectSelectorKind::Id, "main", false, &vec![], &vec![doc, other], &vec![]);
    assert_eq!(found.len(), 1);
    assert_eq!(found[0].range, span(1, 0, 5));
}

#[test]
fn the_indexed_selector_wins_over_the_text() {
    let source = "window.shell { }";
    let indexed = ProjectSelectorMatch { kind: ProjectSelectorKind::Id, name: "main".to_string() };
    assert_eq!(selector_for_references(source, 9, Some(indexed.clone())), Some(indexed));
    assert_eq!(
        selector_for_references(source, 9, None),
        Some(ProjectSelectorMatch { kind: ProjectSelectorKind::Class, name: "shell".to_string() })
    );
    assert_eq!(selector_for_references(source, 15, None), None);
}
