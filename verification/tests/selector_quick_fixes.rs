use hypreact::code_actions::{code_actions_for, quoted_selector_name, rank_candidates, QuickFixDiagnostic};
use hypreact::cursor::{Position, Range};

fn range() -> Range {
    Range { start: Position { line: 0, character: 6 }, end: Position { line: 0, character: 14 } }
}

fn class_diagnostic(name: &str) -> QuickFixDiagnostic {
    QuickFixDiagnostic {
        code: Some("unknown-selector-class".to_string()),
        message: format!("unknown selector class `.{}` in authored TSX layouts", name),
        range: range(),
    }
}

fn names(v: &[&str]) -> Vec<String> {
    v.iter().map(|s| s.to_string()).collect()
}

#[test]
fn suggests_every_known_class_for_an_unknown_class() {
    let actions = code_actions_for(&vec![class_diagnostic("missing")], &vec![], &names(&["shell", "stack-group"]));
    assert!(actions.iter().any(|a| a.title == "Replace with `.shell`" && a.new_text == ".shell"));
    assert!(actions.iter().any(|a| a.title == "Replace with `.stack-group`" && a.new_text == ".stack-group"));
    assert_eq!(actions.len(), 2);
    assert!(actions.iter().all(|a| a.range == range()));
}

#[test]
fn ranks_the_closest_class_first() {
    let actions =
        code_actions_for(&vec![class_diagnostic("stack")], &vec![], &names(&["shell", "stack-group", "shell-stack"]));
    assert_eq!(actions[0].title, "Replace with `.stack-group`");
}

#[test]
fn unknown_ids_get_id_replacements() {
    let d = QuickFixDiagnostic {
        code: Some("unknown-selector-id".to_string()),
        message: "unknown selector id `#mian` in authored TSX layouts".to_string(),
        range: range(),
    };
    let actions = code_actions_for(&vec![d], &names(&["main", "side"]), &names(&["main-class"]));
    assert_eq!(actions.len(), 2);
    assert_eq!(actions[0].new_text, "#main");
    assert_eq!(actions[1].new_text, "#side");
}

#[test]
fn other_diagnostics_get_no_fix() {
    let other = QuickFixDiagnostic { code: Some("unsupported-property".to_string()), message: "x".to_string(), range: range() };
    let none = QuickFixDiagnostic { code: None, message: "unknown selector class `.a`".to_string(), range: range() };
    assert!(code_actions_for(&vec![other, none], &names(&["a"]), &names(&["a"])).is_empty());
}

#[test]
fn quoted_name_drops_the_marker() {
    assert_eq!(quoted_selector_name("unknown selector class `..x` here", b'.'), "x");
    assert_eq!(quoted_selector_name("no quote", b'.'), "");
    assert_eq!(quoted_selector_name("open `#abc", b'#'), "abc");
}

#[test]
fn ties_keep_the_given_order() {
    let ranked = rank_candidates("zzz", &names(&["b", "a", "c"]));
    assert_eq!(ranked, names(&["b", "a", "c"]));
}
