use hypreact::css_diagnostics::{
    attribute_key_diagnostics_for_rule, describe_targets, diagnostic_from_parse_error,
    invalid_value, push_unique, translate_range,
};
use hypreact::css_source::CssRange;
use hypreact::css_types::{CssDiagnosticCode, CssDiagnosticSeverity, CssParseError, CssValueError};
use hypreact::language::StyleTarget;
use hypreact::text::decimal_text;

fn range(start_line: u32, start_column: u32, end_line: u32, end_column: u32) -> CssRange {
    CssRange { start_line, start_column, end_line, end_column }
}

#[test]
fn reports_unsupported_attribute_key_of_a_rule_selector() {
    let diagnostics = attribute_key_diagnostics_for_rule("window[foo='bar']", range(1, 1, 1, 18));

    assert_eq!(diagnostics.len(), 1);
    assert_eq!(diagnostics[0].code, CssDiagnosticCode::UnsupportedAttributeKey);
    assert_eq!(diagnostics[0].severity, CssDiagnosticSeverity::Warning);
    assert_eq!(diagnostics[0].message, "unsupported attribute key `foo`");
    assert_eq!(diagnostics[0].range, range(1, 8, 1, 11));
}

#[test]
fn accepts_supported_attribute_keys_of_a_rule_selector() {
    assert!(attribute_key_diagnostics_for_rule("window[app_id='foot']", range(1, 1, 1, 22)).is_empty());
    assert!(attribute_key_diagnostics_for_rule("window[id=main]", range(1, 1, 1, 16)).is_empty());
    assert!(attribute_key_diagnostics_for_rule("window[|app_id]", range(1, 1, 1, 16)).is_empty());
    assert!(attribute_key_diagnostics_for_rule("window[title='[x]']", range(1, 1, 1, 20)).is_empty());
    assert!(attribute_key_diagnostics_for_rule("window[foo", range(1, 1, 1, 11)).is_empty());
}

#[test]
fn a_data_prefix_stays_on_attribute_keys() {
    let diagnostics = attribute_key_diagnostics_for_rule("window[data-|foo][data-app_id]", range(1, 1, 1, 31));
    assert_eq!(diagnostics.len(), 2);
    assert_eq!(diagnostics[0].message, "unsupported attribute key `data-`");
    assert_eq!(diagnostics[1].message, "unsupported attribute key `data-app_id`");
}

#[test]
fn places_attribute_key_warnings_inside_the_selector_range() {
    let diagnostics = attribute_key_diagnostics_for_rule("window[ foo = 'x' ]", range(3, 5, 3, 24));
    assert_eq!(diagnostics.len(), 1);
    assert_eq!(diagnostics[0].range, range(3, 13, 3, 16));
}

#[test]
fn parse_errors_become_error_diagnostics() {
    let syntax = diagnostic_from_parse_error(&CssParseError::InvalidSyntax { line: 12, column: 3 });
    assert_eq!(syntax.code, CssDiagnosticCode::InvalidSyntax);
    assert_eq!(syntax.severity, CssDiagnosticSeverity::Error);
    assert_eq!(syntax.message, "invalid CSS near line 12, column 3");
    assert_eq!(syntax.range, range(12, 3, 12, 3));

    let selector = diagnostic_from_parse_error(&CssParseError::UnsupportedSelector { selector: "slot".to_string() });
    assert_eq!(selector.code, CssDiagnosticCode::UnsupportedSelector);
    assert_eq!(selector.message, "unsupported selector `slot`");
    assert_eq!(selector.range, CssRange::whole_document());

    let at_rule = diagnostic_from_parse_error(&CssParseError::UnsupportedAtRule { name: "media".to_string() });
    assert_eq!(at_rule.message, "unsupported at-rule `media`");
    let property = diagnostic_from_parse_error(&CssParseError::UnsupportedProperty { property: "color".to_string() });
    assert_eq!(property.code, CssDiagnosticCode::UnsupportedProperty);
    assert_eq!(property.message, "unsupported property `color`");

    let value = diagnostic_from_parse_error(&CssParseError::CssValue(invalid_value("display", "grid")));
    assert_eq!(value.code, CssDiagnosticCode::UnsupportedValue);
    assert_eq!(value.message, "unsupported value `grid` for property `display`");
    assert_eq!(
        CssValueError::UnsupportedValue { property: "gap".to_string(), value: "x".to_string() }.message(),
        "unsupported value `x` for property `gap`"
    );
}

#[test]
fn decimal_text_writes_numbers() {
    assert_eq!(decimal_text(0), "0");
    assert_eq!(decimal_text(7), "7");
    assert_eq!(decimal_text(1204), "1204");
    assert_eq!(decimal_text(u32::MAX), "4294967295");
}

#[test]
fn describes_style_targets_in_words() {
    assert_eq!(describe_targets(&vec![StyleTarget::Window]), "`window`");
    assert_eq!(
        describe_targets(&vec![StyleTarget::Workspace, StyleTarget::Group, StyleTarget::Workspace]),
        "`workspace` or `group`"
    );
    assert_eq!(
        describe_targets(&vec![StyleTarget::Workspace, StyleTarget::Group, StyleTarget::Window]),
        "`workspace`, `group`, or `window`"
    );
    assert_eq!(describe_targets(&vec![]), "the selected target");
}

#[test]
fn push_unique_keeps_targets_distinct() {
    let mut targets = vec![StyleTarget::Group];
    push_unique(&mut targets, StyleTarget::Group);
    push_unique(&mut targets, StyleTarget::Window);
    assert_eq!(targets, vec![StyleTarget::Group, StyleTarget::Window]);
}

#[test]
fn translates_ranges_onto_the_enclosing_text() {
    assert_eq!(translate_range(range(1, 8, 1, 11), range(3, 5, 3, 24)), range(3, 12, 3, 15));
    assert_eq!(translate_range(range(1, 2, 2, 4), range(3, 5, 4, 1)), range(3, 6, 4, 4));
}
