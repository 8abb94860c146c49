use hypreact::ranking::similarity_score;
use hypreact::syntax::{
    enclosing_square_bracket_end, enclosing_square_bracket_start, has_prefix, identifier_bounds,
    inside_square_brackets, next_non_whitespace_byte, next_non_whitespace_byte_in_range,
    previous_non_whitespace_byte_in_range, selector_reference_at_offset,
    selector_references_in_segment, token_start, SelectorReferenceKind,
};

#[test]
fn prefers_closer_matches() {
    assert!(similarity_score("stack", "stack-group") > similarity_score("stack", "shell"));
    assert!(similarity_score("shell", "shell") > similarity_score("shell", "stack-shell"));
}

#[test]
fn similarity_score_values() {
    assert_eq!(similarity_score("  ", "anything"), 0);
    assert_eq!(similarity_score(" Shell ", "shell"), 10_000);
    // prefix 5000 + segment 6000 + substring 2000 + subsequence 50 - length gap 6
    assert_eq!(similarity_score("stack", "stack-group"), 13_044);
    // segment 6000 + substring 2000 + subsequence 50 - length gap 6
    assert_eq!(similarity_score("shell", "stack-shell"), 8_044);
    // no subsequence: -1000, length gap 0
    assert_eq!(similarity_score("stack", "shell"), -1_000);
}

#[test]
fn finds_selector_reference_at_offset() {
    let reference = selector_reference_at_offset("window#root.stack[title=\".ignored\"]", 9).unwrap();
    assert_eq!(reference.kind, SelectorReferenceKind::Id);
    assert_eq!(reference.name, "root");
}

#[test]
fn selector_references_skip_attributes_strings_and_comments() {
    let references = selector_references_in_segment("a#one /* #no */ .two[x=\".no\"] '.no' .three", 10);
    let names: Vec<(SelectorReferenceKind, String, usize, usize)> = references
        .into_iter()
        .map(|reference| (reference.kind, reference.name, reference.start, reference.end))
        .collect();
    assert_eq!(
        names,
        vec![
            (SelectorReferenceKind::Id, "one".to_string(), 11, 15),
            (SelectorReferenceKind::Class, "two".to_string(), 26, 30),
            (SelectorReferenceKind::Class, "three".to_string(), 46, 52),
        ]
    );
}

#[test]
fn selector_reference_needs_a_selector_position() {
    assert!(selector_reference_at_offset("window { color: red; }", 12).is_none());
    assert!(selector_reference_at_offset("   ", 1).is_none());
    let reference = selector_reference_at_offset("a, .stack > b", 5).unwrap();
    assert_eq!(reference.kind, SelectorReferenceKind::Class);
    assert_eq!(reference.name, "stack");
    assert_eq!((reference.start, reference.end), (3, 9));
}

#[test]
fn identifier_bounds_cover_the_word_at_or_before_the_offset() {
    assert_eq!(identifier_bounds("color: red", 2), Some((0, 5)));
    assert_eq!(identifier_bounds("color: red", 5), Some((0, 5)));
    assert_eq!(identifier_bounds("color: red", 6), None);
    assert_eq!(identifier_bounds("color: red", 100), Some((7, 10)));
    assert_eq!(identifier_bounds("", 0), None);
}

#[test]
fn token_start_moves_back_over_identifier_bytes() {
    assert_eq!(token_start("window.sh", 9), 7);
    assert_eq!(token_start("a b", 100), 2);
    assert_eq!(token_start("x-y_z", 5), 0);
}

#[test]
fn prefixes_and_brackets() {
    assert!(has_prefix("window::x", 8, "::"));
    assert!(!has_prefix("window:x", 7, "::"));
    assert!(!has_prefix(":", 0, "::"));
    let source = "window[title=x] .a";
    assert_eq!(enclosing_square_bracket_start(source, 10), Some(6));
    assert_eq!(enclosing_square_bracket_end(source, 10), Some(14));
    assert!(inside_square_brackets(source, 10));
    assert!(!inside_square_brackets(source, 6));
    assert!(!inside_square_brackets(source, 17));
    assert_eq!(enclosing_square_bracket_start("a; [b", 2), None);
    assert_eq!(enclosing_square_bracket_end("a [ b", 0), None);
}

#[test]
fn whitespace_scanning() {
    assert_eq!(next_non_whitespace_byte("  \t x", 0), Some(b'x'));
    assert_eq!(next_non_whitespace_byte("   ", 0), None);
    assert_eq!(next_non_whitespace_byte_in_range("a   b", 1, 4), None);
    assert_eq!(next_non_whitespace_byte_in_range("a   b", 1, 5), Some(b'b'));
    assert_eq!(previous_non_whitespace_byte_in_range("a   b", 4, 0), Some(b'a'));
    assert_eq!(previous_non_whitespace_byte_in_range("a   b", 4, 1), None);
}

#[test]
fn token_start_stops_before_a_non_identifier_byte() {
    assert_eq!(token_start("window { text-align: ce }", 22), 21);
    assert_eq!(token_start("abc", 10), 0);
}
