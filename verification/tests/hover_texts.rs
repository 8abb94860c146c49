use hypreact::cursor::{cursor_context, Position};
use hypreact::hover::{
    attribute_key_hover, looks_like_attribute_key, looks_like_property_name, property_hover, pseudo_class_hover,
    pseudo_element_hover, selector_targets_label, style_targets_label, support_status_label,
};
use hypreact::language::{SelectorTarget, StyleTarget, SupportStatus};
use hypreact::syntax::{identifier_bounds, CursorContext};

fn token_at(source: &str, line: u32, character: u32) -> (CursorContext, usize, usize, String) {
    let (context, offset, _) = cursor_context(source, Position { line, character }).unwrap();
    let (start, end) = identifier_bounds(source, offset).unwrap();
    (context, start, end, source[start..end].to_string())
}

#[test]
fn property_name_hover_documents_the_property() {
    let source = "window { display: flex; }";
    let (context, start, end, token) = token_at(source, 0, 10);
    assert_eq!(context, CursorContext::PropertyName);
    let text = property_hover(source, start, end, &token, context).unwrap();
    assert!(text.starts_with("`display`\n\n"));
    assert!(text.contains("Status: full"));
    assert!(text.contains("Applies to: `workspace`, `group`, `window`"));
    assert!(property_hover(source, start, end, &token, CursorContext::PropertyValue).is_none());
    assert!(property_hover(source, start, end, "flex", context).is_none());
}

#[test]
fn pseudo_class_hover_needs_a_single_colon() {
    let source = "window:focused { display: flex; }";
    let (context, start, end, token) = token_at(source, 0, 8);
    assert_eq!(context, CursorContext::PseudoClass);
    let text = pseudo_class_hover(source, start, end, &token, context).unwrap();
    assert!(text.starts_with("`:focused`\n\n"));
    assert!(pseudo_class_hover("window::focused", 8, 15, "focused", CursorContext::PseudoClass).is_none());
}

#[test]
fn attribute_key_hover_documents_the_key() {
    let source = "window[app_id='foot'] { display: flex; }";
    let (context, start, end, token) = token_at(source, 0, 8);
    assert_eq!(context, CursorContext::AttributeKey);
    let text = attribute_key_hover(source, start, end, &token, context).unwrap();
    assert!(text.starts_with("`[app_id]`\n\n"));
    assert!(text.ends_with("Applies to: `window`"));
}

#[test]
fn pseudo_elements_have_no_documentation_yet() {
    assert!(pseudo_element_hover("window::before", 8, 14, "before", CursorContext::PseudoElement).is_none());
}

#[test]
fn recognizes_names_from_the_text_around_them() {
    assert!(looks_like_property_name("window { gap : 1px }", 9, 12));
    assert!(!looks_like_property_name("window[gap: 1]", 7, 10));
    assert!(!looks_like_property_name("window { gap }", 9, 12));
    assert!(looks_like_attribute_key("window[ app_id ]", 8, 14));
    assert!(looks_like_attribute_key("window[title~='x']", 7, 12));
    assert!(!looks_like_attribute_key("window[a title]", 9, 14));
    assert!(!looks_like_attribute_key("window title", 7, 12));
}

#[test]
fn labels_join_targets_and_name_statuses() {
    assert_eq!(support_status_label(SupportStatus::Partial), "partial");
    assert_eq!(style_targets_label(&vec![StyleTarget::Group, StyleTarget::Window]), "`group`, `window`");
    assert_eq!(style_targets_label(&vec![]), "");
    assert_eq!(selector_targets_label(&vec![SelectorTarget::Workspace]), "`workspace`");
}
