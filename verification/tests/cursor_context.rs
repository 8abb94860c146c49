use hypreact::css_source::CssRange;
use hypreact::cursor::{
    cursor_context, enclosing_property_name, offset_to_position, position_to_offset, range_contains, range_for,
    to_lsp_range, Position,
};
use hypreact::syntax::CursorContext;

fn at(line: u32, character: u32) -> Position {
    Position { line, character }
}

#[test]
fn detects_pseudo_class_context() {
    let (context, _, _) = cursor_context("window:fo", at(0, 8)).unwrap();
    assert_eq!(context, CursorContext::PseudoClass);
}

#[test]
fn detects_selector_id_context() {
    let (context, _, _) = cursor_context("window#ro", at(0, 8)).unwrap();
    assert_eq!(context, CursorContext::SelectorId);
}

#[test]
fn detects_selector_class_context() {
    let (context, _, _) = cursor_context("window.sh", at(0, 8)).unwrap();
    assert_eq!(context, CursorContext::SelectorClass);
}

#[test]
fn detects_property_value_context() {
    let (context, _, _) = cursor_context("window { text-align: ce }", at(0, 22)).unwrap();
    assert_eq!(context, CursorContext::PropertyValue);
}

#[test]
fn detects_property_name_context_with_offsets() {
    let (context, offset, start) = cursor_context("window { tex }", at(0, 12)).unwrap();
    assert_eq!(context, CursorContext::PropertyName);
    assert_eq!(offset, 12);
    assert_eq!(start, 9);
}

#[test]
fn detects_pseudo_element_and_attribute_key_contexts() {
    let (context, _, _) = cursor_context("window::be", at(0, 10)).unwrap();
    assert_eq!(context, CursorContext::PseudoElement);
    let (context, _, _) = cursor_context("window[ti", at(0, 9)).unwrap();
    assert_eq!(context, CursorContext::AttributeKey);
    let (context, _, _) = cursor_context("window[title=fo", at(0, 15)).unwrap();
    assert_eq!(context, CursorContext::NoContext);
}

#[test]
fn cursor_context_outside_the_text_is_none() {
    assert!(cursor_context("window", at(3, 0)).is_none());
    assert!(cursor_context("window", at(0, 7)).is_none());
}

#[test]
fn positions_and_offsets_convert_both_ways() {
    let source = "ab\ncé\nd";
    assert_eq!(position_to_offset(source, at(0, 0)), Some(0));
    assert_eq!(position_to_offset(source, at(1, 0)), Some(3));
    assert_eq!(position_to_offset(source, at(1, 2)), Some(6));
    assert_eq!(position_to_offset(source, at(2, 1)), Some(source.len()));
    assert_eq!(position_to_offset(source, at(0, 5)), None);
    assert_eq!(offset_to_position(source, 6), Some(at(1, 2)));
    assert_eq!(offset_to_position(source, 5), Some(at(2, 1)));
    assert_eq!(offset_to_position(source, source.len()), Some(at(2, 1)));
    assert_eq!(offset_to_position(source, source.len() + 1), None);
    let range = range_for(source, 3, 6).unwrap();
    assert_eq!(range.start, at(1, 0));
    assert_eq!(range.end, at(1, 2));
    assert!(range_for(source, 0, 99).is_none());
}

#[test]
fn one_based_ranges_become_zero_based() {
    let range = to_lsp_range(CssRange { start_line: 2, start_column: 3, end_line: 0, end_column: 1 });
    assert_eq!(range.start, at(1, 2));
    assert_eq!(range.end, at(0, 0));
}

#[test]
fn range_contains_checks_both_ends() {
    let source = "window {\n  width: 1px;\n}";
    let range = CssRange { start_line: 2, start_column: 3, end_line: 2, end_column: 8 };
    assert!(range_contains(range, 11, source));
    assert!(range_contains(range, 16, source));
    assert!(!range_contains(range, 17, source));
    assert!(!range_contains(range, 10, source));
    let beyond = CssRange { start_line: 9, start_column: 1, end_line: 9, end_column: 2 };
    assert!(!range_contains(beyond, 0, source));
}

#[test]
fn finds_the_property_whose_value_is_written() {
    let source = "window { text-align: ce; width: 1";
    assert_eq!(enclosing_property_name(source, 23), Some("text-align".to_string()));
    assert_eq!(enclosing_property_name(source, source.len()), Some("width".to_string()));
    assert_eq!(enclosing_property_name(source, 12), None);
    assert_eq!(enclosing_property_name("window", 3), None);
    assert_eq!(enclosing_property_name("window { a: b } x", 17), None);
}

#[test]
fn offsets_and_positions_round_trip() {
    let source = "a\u{e9}\n\u{1F600}x\n\nend";
    for offset in 0..=source.len() {
        if !source.is_char_boundary(offset) {
            continue;
        }
        let position = offset_to_position(source, offset).unwrap();
        assert_eq!(position_to_offset(source, position), Some(offset));
    }
}
