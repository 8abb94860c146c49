//! Stylesheet diagnostics: the messages and ranges reported for parse
//! errors, the wording of style targets, and the check of the attribute
//! keys that a rule's selector names.
use vstd::prelude::*;
use vstd::string::*;
use vstd::utf8::*;

use crate::css_source::{
    lemma_position_within, leading_trimmed_len, spec_leading_trimmed_len, spec_position, spec_trailing_trimmed_len,
    trailing_trimmed_len, CssRange, SourceMap,
};
use crate::cursor::{is_attribute_operator, lemma_boundary_within};
use crate::language::{attribute_key_index, is_supported_attribute_key};
use crate::ranking::{trimmed, trimmed_str};
use crate::syntax::{find_quote_close, lemma_boundary_next_to_ascii, lemma_quote_close, opens_string, quote_close, slice_text};
use crate::css_types::{CssDiagnostic, CssDiagnosticCode, CssDiagnosticSeverity, CssParseError, CssValueError};
use crate::language::StyleTarget;
use crate::text::{decimal, decimal_text};

verus! {

/// What a value error says: the value and the property it was given to.
pub open spec fn value_error_message(error: CssValueError) -> Seq<char> {
    match error {
        CssValueError::UnsupportedValue { property, value } => "unsupported value `"@ + value@ + "` for property `"@
            + property@ + "`"@,
    }
}

impl CssValueError {
    /// The message of the error.
    pub fn message(&self) -> (r: String)
        ensures
            r@ == value_error_message(*self),
    {
        match self {
            CssValueError::UnsupportedValue { property, value } => {
                let mut text = "unsupported value `".to_owned();
                text.append(value.as_str());
                text.append("` for property `");
                text.append(property.as_str());
                text.append("`");
                text
            },
        }
    }
}

/// The error for a value that a property does not accept.
pub fn invalid_value(property: &str, value: &str) -> (r: CssValueError)
    ensures
        r matches CssValueError::UnsupportedValue { property: p, value: v } && p@ == property@ && v@ == value@,
{
    CssValueError::UnsupportedValue { property: property.to_owned(), value: value.to_owned() }
}

/// `text` between backquotes after `prefix`.
pub open spec fn quoted(prefix: Seq<char>, text: Seq<char>) -> Seq<char> {
    prefix + text + "`"@
}

/// The message reported for a parse error.
pub open spec fn parse_error_message(error: CssParseError) -> Seq<char> {
    match error {
        CssParseError::UnsupportedAtRule { name } => quoted("unsupported at-rule `"@, name@),
        CssParseError::UnsupportedSelector { selector } => quoted("unsupported selector `"@, selector@),
        CssParseError::UnsupportedProperty { property } => quoted("unsupported property `"@, property@),
        CssParseError::InvalidSyntax { line, column } => "invalid CSS near line "@ + decimal(line as nat)
            + ", column "@ + decimal(column as nat),
        CssParseError::CssValue(e) => value_error_message(e),
    }
}

/// The code of the diagnostic reported for a parse error.
pub open spec fn parse_error_code(error: CssParseError) -> CssDiagnosticCode {
    match error {
        CssParseError::UnsupportedAtRule { .. } => CssDiagnosticCode::UnsupportedAtRule,
        CssParseError::UnsupportedSelector { .. } => CssDiagnosticCode::UnsupportedSelector,
        CssParseError::UnsupportedProperty { .. } => CssDiagnosticCode::UnsupportedProperty,
        CssParseError::InvalidSyntax { .. } => CssDiagnosticCode::InvalidSyntax,
        CssParseError::CssValue(_) => CssDiagnosticCode::UnsupportedValue,
    }
}

fn quoted_text(prefix: &str, text: &str) -> (r: String)
    ensures
        r@ == quoted(prefix@, text@),
{
    let mut out = prefix.to_owned();
    out.append(text);
    out.append("`");
    out
}

/// The error diagnostic for a stylesheet that failed to parse: at the
/// reported line and column for a syntax error, over the whole document
/// otherwise.
pub fn diagnostic_from_parse_error(error: &CssParseError) -> (r: CssDiagnostic)
    ensures
        r.code == parse_error_code(*error),
        r.severity == CssDiagnosticSeverity::Error,
        r.message@ == parse_error_message(*error),
        r.range == (match *error {
            CssParseError::InvalidSyntax { line, column } => CssRange {
                start_line: line,
                start_column: column,
                end_line: line,
                end_column: column,
            },
            _ => CssRange { start_line: 1, start_column: 1, end_line: u32::MAX, end_column: u32::MAX },
        }),
{
    match error {
        CssParseError::UnsupportedAtRule { name } => CssDiagnostic {
            code: CssDiagnosticCode::UnsupportedAtRule,
            severity: CssDiagnosticSeverity::Error,
            message: quoted_text("unsupported at-rule `", name.as_str()),
            range: CssRange::whole_document(),
        },
        CssParseError::UnsupportedSelector { selector } => CssDiagnostic {
            code: CssDiagnosticCode::UnsupportedSelector,
            severity: CssDiagnosticSeverity::Error,
            message: quoted_text("unsupported selector `", selector.as_str()),
            range: CssRange::whole_document(),
        },
        CssParseError::UnsupportedProperty { property } => CssDiagnostic {
            code: CssDiagnosticCode::UnsupportedProperty,
            severity: CssDiagnosticSeverity::Error,
            message: quoted_text("unsupported property `", property.as_str()),
            range: CssRange::whole_document(),
        },
        CssParseError::InvalidSyntax { line, column } => {
            let mut message = "invalid CSS near line ".to_owned();
            let line_text = decimal_text(*line);
            message.append(line_text.as_str());
            message.append(", column ");
            let column_text = decimal_text(*column);
            message.append(column_text.as_str());
            CssDiagnostic {
                code: CssDiagnosticCode::InvalidSyntax,
                severity: CssDiagnosticSeverity::Error,
                message,
                range: CssRange { start_line: *line, start_column: *column, end_line: *line, end_column: *column },
            }
        },
        CssParseError::CssValue(value_error) => CssDiagnostic {
            code: CssDiagnosticCode::UnsupportedValue,
            severity: CssDiagnosticSeverity::Error,
            message: value_error.message(),
            range: CssRange::whole_document(),
        },
    }
}

/// Translating `local` onto `base` stays within `u32`.
pub open spec fn translation_fits(local: CssRange, base: CssRange) -> bool {
    &&& 1 <= base.start_line + local.start_line <= u32::MAX
    &&& 1 <= base.start_line + local.end_line <= u32::MAX
    &&& local.start_line == 1 ==> 1 <= base.start_column + local.start_column <= u32::MAX
    &&& local.end_line == 1 ==> 1 <= base.start_column + local.end_column <= u32::MAX
}

/// A range measured inside a text that starts at `base`, moved onto the
/// enclosing text: lines shift by the base line; columns on the first line
/// shift by the base column.
pub fn translate_range(local: CssRange, base: CssRange) -> (r: CssRange)
    requires
        translation_fits(local, base),
    ensures
        r.start_line == base.start_line + local.start_line - 1,
        r.start_column == (if local.start_line == 1 {
            base.start_column + local.start_column - 1
        } else {
            local.start_column as int
        }),
        r.end_line == base.start_line + local.end_line - 1,
        r.end_column == (if local.end_line == 1 {
            base.start_column + local.end_column - 1
        } else {
            local.end_column as int
        }),
{
    CssRange {
        start_line: base.start_line + local.start_line - 1,
        start_column: if local.start_line == 1 {
            base.start_column + local.start_column - 1
        } else {
            local.start_column
        },
        end_line: base.start_line + local.end_line - 1,
        end_column: if local.end_line == 1 {
            base.start_column + local.end_column - 1
        } else {
            local.end_column
        },
    }
}

/// Appends `target` unless it is already listed.
pub fn push_unique(targets: &mut Vec<StyleTarget>, target: StyleTarget)
    ensures
        final(targets)@ == (if old(targets)@.contains(target) {
            old(targets)@
        } else {
            old(targets)@.push(target)
        }),
{
    let mut i: usize = 0;
    while i < targets.len()
        invariant
            i <= targets@.len(),
            forall|j: int| 0 <= j < i ==> targets@[j] != target,
        decreases targets@.len() - i,
    {
        if targets[i] == target {
            assert(targets@[i as int] == target);
            return;
        }
        i = i + 1;
    }
    targets.push(target);
}

/// How a target is named in messages.
pub open spec fn target_label(target: StyleTarget) -> Seq<char> {
    match target {
        StyleTarget::Workspace => "`workspace`"@,
        StyleTarget::Group => "`group`"@,
        StyleTarget::Window => "`window`"@,
    }
}

/// The targets of `ts`, each once, in order of first appearance.
pub open spec fn distinct_targets(ts: Seq<StyleTarget>) -> Seq<StyleTarget>
    decreases ts.len(),
{
    if ts.len() == 0 {
        Seq::empty()
    } else {
        let before = distinct_targets(ts.drop_last());
        if before.contains(ts.last()) {
            before
        } else {
            before.push(ts.last())
        }
    }
}

/// The targets named in words: one alone, two joined by "or", three as a
/// list ending in "or"; anything else is "the selected target".
pub open spec fn spec_describe_targets(ts: Seq<StyleTarget>) -> Seq<char> {
    let labels = distinct_targets(ts);
    if labels.len() == 1 {
        target_label(labels[0])
    } else if labels.len() == 2 {
        target_label(labels[0]) + " or "@ + target_label(labels[1])
    } else if labels.len() == 3 {
        target_label(labels[0]) + ", "@ + target_label(labels[1]) + ", or "@ + target_label(labels[2])
    } else {
        "the selected target"@
    }
}

fn label_str(target: StyleTarget) -> (r: &'static str)
    ensures
        r@ == target_label(target),
{
    match target {
        StyleTarget::Workspace => "`workspace`",
        StyleTarget::Group => "`group`",
        StyleTarget::Window => "`window`",
    }
}

/// Names the targets a rule applies to, for a message. The labels are
/// distinct for distinct targets, so the targets are deduplicated directly.
pub fn describe_targets(targets: &Vec<StyleTarget>) -> (r: String)
    ensures
        r@ == spec_describe_targets(targets@),
{
    let mut labels: Vec<StyleTarget> = Vec::new();
    let mut i: usize = 0;
    while i < targets.len()
        invariant
            i <= targets@.len(),
            labels@ == distinct_targets(targets@.take(i as int)),
        decreases targets@.len() - i,
    {
        assert(targets@.take(i + 1).drop_last() =~= targets@.take(i as int));
        push_unique(&mut labels, targets[i]);
        i = i + 1;
    }
    assert(targets@.take(targets@.len() as int) =~= targets@);
    if labels.len() == 1 {
        label_str(labels[0]).to_owned()
    } else if labels.len() == 2 {
        let mut text = label_str(labels[0]).to_owned();
        text.append(" or ");
        text.append(label_str(labels[1]));
        text
    } else if labels.len() == 3 {
        let mut text = label_str(labels[0]).to_owned();
        text.append(", ");
        text.append(label_str(labels[1]));
        text.append(", or ");
        text.append(label_str(labels[2]));
        text
    } else {
        "the selected target".to_owned()
    }
}

/// The end of a valid prefix is a character boundary of the whole.
pub proof fn lemma_concat_boundary(x: Seq<u8>, y: Seq<u8>)
    requires
        valid_utf8(x),
        valid_utf8(y),
    ensures
        valid_utf8(x + y),
        is_char_boundary(x + y, x.len() as int),
    decreases x.len(),
{
    valid_utf8_concat(x, y);
    if x.len() > 0 {
        let rest = pop_first_scalar(x);
        assert(valid_first_scalar(x));
        assert(valid_utf8(rest));
        lemma_concat_boundary(rest, y);
        let l = length_of_first_scalar(x);
        assert((x + y)[0] == x[0]);
        assert(1 <= l <= x.len());
        assert(forall|k: int| 0 <= k < l ==> (x + y)[k] == x[k]);
        assert(length_of_first_scalar(x + y) == l);
        assert(pop_first_scalar(x + y) =~= rest + y);
    }
}

/// A boundary of a slice cut on boundaries is a boundary of the text.
pub proof fn lemma_boundary_lift(b: Seq<u8>, lo: int, hi: int, k: int)
    requires
        valid_utf8(b),
        0 <= lo <= k <= hi <= b.len(),
        is_char_boundary(b, lo),
        is_char_boundary(b, hi),
        valid_utf8(b.subrange(lo, hi)),
        is_char_boundary(b.subrange(lo, hi), k - lo),
    ensures
        is_char_boundary(b, k),
{
    if k < hi {
        is_char_boundary_iff_not_is_continuation_byte(b, k);
        is_char_boundary_iff_not_is_continuation_byte(b.subrange(lo, hi), k - lo);
    }
}

/// Cutting the white space off either end of a valid text leaves both cuts
/// on character boundaries.
pub proof fn lemma_trim_boundaries(t: Seq<u8>)
    requires
        valid_utf8(t),
    ensures
        ({
            let c = decode_utf8(t);
            let lead = crate::css_source::spec_leading_trimmed_len(c);
            let trail = crate::css_source::spec_trailing_trimmed_len(c);
            &&& 0 <= lead <= t.len()
            &&& 0 <= trail <= t.len()
            &&& is_char_boundary(t, lead)
            &&& is_char_boundary(t, t.len() - trail)
        }),
{
    let c = decode_utf8(t);
    decode_utf8_encode_utf8(t);
    let n = c.len() as int;
    let a = crate::ranking::trim_start(c, 0);
    let e = crate::ranking::trim_end(c, 0, n);
    crate::ranking::lemma_trim_bounds(c, 0);
    crate::ranking::lemma_trim_end_bounds(c, 0, n);
    assert(c =~= c.subrange(0, a) + c.subrange(a, n));
    crate::ranking::lemma_encode_concat(c.subrange(0, a), c.subrange(a, n));
    encode_utf8_valid_utf8(c.subrange(0, a));
    encode_utf8_valid_utf8(c.subrange(a, n));
    lemma_concat_boundary(encode_utf8(c.subrange(0, a)), encode_utf8(c.subrange(a, n)));
    assert(c =~= c.subrange(0, e) + c.subrange(e, n));
    crate::ranking::lemma_encode_concat(c.subrange(0, e), c.subrange(e, n));
    encode_utf8_valid_utf8(c.subrange(0, e));
    encode_utf8_valid_utf8(c.subrange(e, n));
    lemma_concat_boundary(encode_utf8(c.subrange(0, e)), encode_utf8(c.subrange(e, n)));
}

/// Where the bracket that opens at or after `offset` closes, counting
/// nested brackets and skipping strings: just after the `]` that brings the
/// depth back to zero.
pub open spec fn bracket_end_scan(b: Seq<u8>, offset: int, depth: int) -> Option<int>
    decreases b.len() - offset,
{
    if offset < 0 || offset >= b.len() {
        None
    } else if opens_string(b, offset) {
        let close = quote_close(b, b[offset], offset + 1);
        if offset < close <= b.len() {
            bracket_end_scan(b, close, depth)
        } else {
            None
        }
    } else if b[offset] == 0x5b {
        bracket_end_scan(b, offset + 1, depth + 1)
    } else if b[offset] == 0x5d {
        if depth - 1 == 0 {
            Some(offset + 1)
        } else {
            bracket_end_scan(b, offset + 1, depth - 1)
        }
    } else {
        bracket_end_scan(b, offset + 1, depth)
    }
}

/// `bracket_end_scan` ends after a `]` it came to.
pub proof fn lemma_bracket_end_scan(b: Seq<u8>, offset: int, depth: int)
    ensures
        bracket_end_scan(b, offset, depth) matches Some(e) ==> offset < e <= b.len() && b[e - 1] == 0x5d,
    decreases b.len() - offset,
{
    if 0 <= offset < b.len() {
        if opens_string(b, offset) {
            lemma_quote_close(b, b[offset], offset + 1);
            let close = quote_close(b, b[offset], offset + 1);
            if offset < close <= b.len() {
                lemma_bracket_end_scan(b, close, depth);
            }
        } else if b[offset] == 0x5b {
            lemma_bracket_end_scan(b, offset + 1, depth + 1);
        } else if b[offset] == 0x5d {
            if depth - 1 != 0 {
                lemma_bracket_end_scan(b, offset + 1, depth - 1);
            }
        } else {
            lemma_bracket_end_scan(b, offset + 1, depth);
        }
    }
}

fn find_matching_bracket_end(source: &str, open_bracket: usize) -> (r: Option<usize>)
    requires
        source.spec_bytes().len() <= i32::MAX,
    ensures
        match r {
            Some(e) => bracket_end_scan(source.spec_bytes(), open_bracket as int, 0) == Some(e as int),
            None => bracket_end_scan(source.spec_bytes(), open_bracket as int, 0) is None,
        },
{
    let bytes = source.as_bytes();
    let mut offset = open_bracket;
    let mut depth: i32 = 0;
    while offset < bytes.len()
        invariant
            bytes@ == source.spec_bytes(),
            bytes@.len() <= i32::MAX,
            open_bracket <= offset,
            -(offset - open_bracket) <= depth <= offset - open_bracket,
            bracket_end_scan(bytes@, offset as int, depth as int) == bracket_end_scan(bytes@, open_bracket as int, 0),
        decreases bytes@.len() - offset,
    {
        let c = bytes[offset];
        if c == 0x27 || c == 0x22 {
            let close = find_quote_close(bytes, c, offset + 1);
            offset = close;
        } else {
            if c == 0x5b {
                depth = depth + 1;
            } else if c == 0x5d {
                depth = depth - 1;
                if depth == 0 {
                    return Some(offset + 1);
                }
            }
            offset = offset + 1;
        }
    }
    None
}

/// The first attribute operator from `offset` on and before `end`, skipping
/// strings.
pub open spec fn operator_scan(b: Seq<u8>, offset: int, end: int) -> Option<int>
    decreases b.len() - offset,
{
    if offset < 0 || offset >= end || offset >= b.len() {
        None
    } else if opens_string(b, offset) {
        let close = quote_close(b, b[offset], offset + 1);
        if offset < close <= b.len() {
            operator_scan(b, close, end)
        } else {
            None
        }
    } else if is_attribute_operator(b[offset]) {
        Some(offset)
    } else {
        operator_scan(b, offset + 1, end)
    }
}

pub proof fn lemma_operator_scan(b: Seq<u8>, offset: int, end: int)
    requires
        0 <= offset,
    ensures
        operator_scan(b, offset, end) matches Some(o) ==> offset <= o < end && o < b.len() && is_attribute_operator(
            b[o],
        ),
    decreases b.len() - offset,
{
    if offset < end && offset < b.len() {
        if opens_string(b, offset) {
            lemma_quote_close(b, b[offset], offset + 1);
            let close = quote_close(b, b[offset], offset + 1);
            if offset < close <= b.len() {
                lemma_operator_scan(b, close, end);
            }
        } else if !is_attribute_operator(b[offset]) {
            lemma_operator_scan(b, offset + 1, end);
        }
    }
}

fn find_attribute_operator(selector: &str, start: usize, end: usize) -> (r: Option<usize>)
    requires
        end <= selector.spec_bytes().len(),
    ensures
        match r {
            Some(o) => operator_scan(selector.spec_bytes(), start as int, end as int) == Some(o as int),
            None => operator_scan(selector.spec_bytes(), start as int, end as int) is None,
        },
{
    let bytes = selector.as_bytes();
    let mut offset = start;
    while offset < end
        invariant
            bytes@ == selector.spec_bytes(),
            end <= bytes@.len(),
            start <= offset,
            operator_scan(bytes@, offset as int, end as int) == operator_scan(bytes@, start as int, end as int),
        decreases bytes@.len() - offset,
    {
        let c = bytes[offset];
        if c == 0x27 || c == 0x22 {
            offset = find_quote_close(bytes, c, offset + 1);
        } else if c == 0x3d || c == 0x7e || c == 0x7c || c == 0x5e || c == 0x24 || c == 0x2a {
            return Some(offset);
        } else {
            offset = offset + 1;
        }
    }
    None
}

/// The key named in an attribute selector, without a `data-|` or `|`
/// namespace prefix (a `data-` prefix alone stays) and without white space.
pub open spec fn normalized_attribute_name(raw: Seq<char>) -> Seq<char> {
    let after_data = if raw.len() >= 5 && raw.take(5) == "data-"@ {
        raw.skip(5)
    } else {
        raw
    };
    let after_bar = if after_data.len() >= 1 && after_data[0] == '|' {
        after_data.skip(1)
    } else {
        raw
    };
    trimmed(after_bar)
}

fn normalize_attribute_name(raw: &str) -> (r: &str)
    ensures
        r@ == normalized_attribute_name(raw@),
{
    proof {
        reveal_strlit("data-");
    }
    let n = raw.unicode_len();
    let mut after_data: &str = raw;
    if n >= 5 && raw.get_char(0) == 'd' && raw.get_char(1) == 'a' && raw.get_char(2) == 't' && raw.get_char(3) == 'a'
        && raw.get_char(4) == '-' {
        assert(raw@.take(5) =~= "data-"@);
        after_data = raw.substring_char(5, n);
    } else {
        assert(!(raw@.len() >= 5 && raw@.take(5) == "data-"@)) by {
            if raw@.len() >= 5 && raw@.take(5) == "data-"@ {
                assert(raw@[0] == raw@.take(5)[0]);
                assert(raw@[1] == raw@.take(5)[1]);
                assert(raw@[2] == raw@.take(5)[2]);
                assert(raw@[3] == raw@.take(5)[3]);
                assert(raw@[4] == raw@.take(5)[4]);
            }
        }
    }
    let m = after_data.unicode_len();
    let after_bar = if m >= 1 && after_data.get_char(0) == '|' {
        after_data.substring_char(1, m)
    } else {
        raw
    };
    trimmed_str(after_bar)
}

/// The range of a name found between byte offsets `start` and `end` of the
/// selector, moved onto the selector's place in the stylesheet.
pub open spec fn spec_translate(local: CssRange, base: CssRange) -> CssRange {
    CssRange {
        start_line: (base.start_line + local.start_line - 1) as u32,
        start_column: (if local.start_line == 1 {
            base.start_column + local.start_column - 1
        } else {
            local.start_column as int
        }) as u32,
        end_line: (base.start_line + local.end_line - 1) as u32,
        end_column: (if local.end_line == 1 {
            base.start_column + local.end_column - 1
        } else {
            local.end_column as int
        }) as u32,
    }
}

/// The one-based range between two byte offsets of `b`.
pub open spec fn spec_range_of(b: Seq<u8>, start: int, end: int) -> CssRange {
    CssRange {
        start_line: spec_position(b, start).0 as u32,
        start_column: spec_position(b, start).1 as u32,
        end_line: spec_position(b, end).0 as u32,
        end_column: spec_position(b, end).1 as u32,
    }
}

/// The warning for the attribute bracket `b[start..end]` when its key is
/// neither supported nor `id`: a message naming the normalized key, and
/// where the raw name stands.
pub open spec fn segment_diagnostic(b: Seq<u8>, start: int, end: int, base: CssRange) -> Option<
    (Seq<char>, CssRange),
> {
    let content_start = start + 1;
    let content_end = if end >= 1 {
        end - 1
    } else {
        0
    };
    if content_start >= content_end {
        None
    } else {
        let content = decode_utf8(b.subrange(content_start, content_end));
        let trimmed_start = content_start + spec_leading_trimmed_len(content);
        let trimmed_end = content_end - spec_trailing_trimmed_len(content);
        if trimmed_start >= trimmed_end {
            None
        } else {
            let operator = match operator_scan(b, trimmed_start, trimmed_end) {
                Some(o) => o,
                None => trimmed_end,
            };
            let raw = decode_utf8(b.subrange(trimmed_start, operator));
            if trimmed(raw).len() == 0 {
                None
            } else {
                let name = normalized_attribute_name(trimmed(raw));
                if attribute_key_index(name) >= 0 || name == "id"@ {
                    None
                } else {
                    let name_start = trimmed_start + spec_leading_trimmed_len(raw);
                    let name_end = operator - spec_trailing_trimmed_len(raw);
                    Some(
                        (
                            quoted("unsupported attribute key `"@, name),
                            spec_translate(spec_range_of(b, name_start, name_end), base),
                        ),
                    )
                }
            }
        }
    }
}

/// The selector's place is far enough from the end of `u32` for any range
/// inside the selector to be moved onto it.
pub open spec fn selector_range_fits(b: Seq<u8>, base: CssRange) -> bool {
    &&& base.start_line + b.len() + 1 <= u32::MAX
    &&& base.start_column + b.len() + 1 <= u32::MAX
}

fn attribute_key_diagnostic_for_segment(
    selector: &str,
    start: usize,
    end: usize,
    source_map: &SourceMap,
    selector_range: CssRange,
) -> (r: Option<CssDiagnostic>)
    requires
        source_map.text() == selector,
        start < end <= selector.spec_bytes().len(),
        selector.spec_bytes()[start as int] == 0x5b,
        selector.spec_bytes()[end - 1] == 0x5d,
        selector.spec_bytes().len() < u32::MAX,
        selector_range_fits(selector.spec_bytes(), selector_range),
    ensures
        match r {
            Some(d) => segment_diagnostic(selector.spec_bytes(), start as int, end as int, selector_range) == Some(
                (d.message@, d.range),
            ) && d.code == CssDiagnosticCode::UnsupportedAttributeKey && d.severity == CssDiagnosticSeverity::Warning,
            None => segment_diagnostic(selector.spec_bytes(), start as int, end as int, selector_range) is None,
        },
{
    let ghost b = selector.spec_bytes();
    proof {
        encode_utf8_valid_utf8(selector@);
    }
    let content_start = start + 1;
    let content_end = end - 1;
    if content_start >= content_end {
        return None;
    }
    proof {
        lemma_boundary_next_to_ascii(b, content_start as int);
        lemma_boundary_next_to_ascii(b, content_end as int);
    }
    let content = match slice_text(selector, content_start, content_end) {
        Some(t) => t,
        None => {
            return None;
        },
    };
    proof {
        encode_utf8_decode_utf8(content@);
        lemma_boundary_within(b, content_start as int, content_end as int, content_start as int);
        lemma_trim_boundaries(b.subrange(content_start as int, content_end as int));
    }
    let trimmed_start = content_start + leading_trimmed_len(content);
    let trimmed_end = content_end - trailing_trimmed_len(content);
    if trimmed_start >= trimmed_end {
        return None;
    }
    proof {
        lemma_boundary_lift(b, content_start as int, content_end as int, trimmed_start as int);
        lemma_boundary_lift(b, content_start as int, content_end as int, trimmed_end as int);
        lemma_operator_scan(b, trimmed_start as int, trimmed_end as int);
    }
    let operator = match find_attribute_operator(selector, trimmed_start, trimmed_end) {
        Some(o) => o,
        None => trimmed_end,
    };
    proof {
        if operator < trimmed_end {
            lemma_boundary_next_to_ascii(b, operator as int);
        }
    }
    let raw = match slice_text(selector, trimmed_start, operator) {
        Some(t) => t,
        None => {
            return None;
        },
    };
    proof {
        encode_utf8_decode_utf8(raw@);
    }
    let raw_name = trimmed_str(raw);
    if raw_name.unicode_len() == 0 {
        return None;
    }
    let normalized = normalize_attribute_name(raw_name);
    proof {
        reveal_strlit("id");
    }
    if is_supported_attribute_key(normalized) || crate::text::text_eq(normalized, "id") {
        return None;
    }
    proof {
        lemma_boundary_within(b, trimmed_start as int, operator as int, trimmed_start as int);
        lemma_trim_boundaries(b.subrange(trimmed_start as int, operator as int));
    }
    let name_start = trimmed_start + leading_trimmed_len(raw);
    let name_end = operator - trailing_trimmed_len(raw);
    proof {
        lemma_boundary_lift(b, trimmed_start as int, operator as int, name_start as int);
        lemma_boundary_lift(b, trimmed_start as int, operator as int, name_end as int);
        lemma_position_within(b, name_start as int);
        lemma_position_within(b, name_end as int);
    }
    let local_range = source_map.range(name_start, name_end);
    let range = translate_range(local_range, selector_range);
    Some(
        CssDiagnostic {
            code: CssDiagnosticCode::UnsupportedAttributeKey,
            severity: CssDiagnosticSeverity::Warning,
            message: quoted_text("unsupported attribute key `", normalized),
            range,
        },
    )
}

/// The warnings for the attribute brackets of selector bytes from
/// `offset` on, skipping strings; scanning stops at a bracket that never
/// closes.
pub open spec fn attribute_key_scan(b: Seq<u8>, base: CssRange, offset: int) -> Seq<(Seq<char>, CssRange)>
    decreases b.len() - offset,
{
    if offset < 0 || offset >= b.len() {
        Seq::empty()
    } else if opens_string(b, offset) {
        let close = quote_close(b, b[offset], offset + 1);
        if offset < close <= b.len() {
            attribute_key_scan(b, base, close)
        } else {
            Seq::empty()
        }
    } else if b[offset] == 0x5b {
        match bracket_end_scan(b, offset, 0) {
            None => Seq::empty(),
            Some(end) => if offset < end <= b.len() {
                (match segment_diagnostic(b, offset, end, base) {
                    Some(d) => seq![d],
                    None => Seq::empty(),
                }) + attribute_key_scan(b, base, end)
            } else {
                Seq::empty()
            },
        }
    } else {
        attribute_key_scan(b, base, offset + 1)
    }
}

pub open spec fn diagnostic_view(d: CssDiagnostic) -> (Seq<char>, CssRange) {
    (d.message@, d.range)
}

/// Warnings for the attribute keys a rule's selector names that are not
/// supported, placed within the selector's range in the stylesheet.
pub fn attribute_key_diagnostics_for_rule(selector_text: &str, selector_range: CssRange) -> (r: Vec<CssDiagnostic>)
    requires
        selector_text.spec_bytes().len() < u32::MAX,
        selector_text.spec_bytes().len() <= i32::MAX,
        selector_range_fits(selector_text.spec_bytes(), selector_range),
    ensures
        r@.map_values(|d: CssDiagnostic| diagnostic_view(d)) == attribute_key_scan(
            selector_text.spec_bytes(),
            selector_range,
            0,
        ),
        forall|i: int|
            0 <= i < r@.len() ==> (#[trigger] r@[i]).code == CssDiagnosticCode::UnsupportedAttributeKey
                && r@[i].severity == CssDiagnosticSeverity::Warning,
{
    let source_map = SourceMap::new(selector_text);
    let bytes = selector_text.as_bytes();
    let ghost b = bytes@;
    let mut diagnostics: Vec<CssDiagnostic> = Vec::new();
    let mut offset: usize = 0;
    while offset < bytes.len()
        invariant
            b == bytes@,
            b == selector_text.spec_bytes(),
            source_map.text() == selector_text,
            b.len() < u32::MAX,
            b.len() <= i32::MAX,
            selector_range_fits(b, selector_range),
            offset <= b.len(),
            diagnostics@.map_values(|d: CssDiagnostic| diagnostic_view(d)) + attribute_key_scan(b, selector_range, offset as int)
                == attribute_key_scan(b, selector_range, 0),
            forall|i: int|
                0 <= i < diagnostics@.len() ==> (#[trigger] diagnostics@[i]).code
                    == CssDiagnosticCode::UnsupportedAttributeKey && diagnostics@[i].severity
                    == CssDiagnosticSeverity::Warning,
        decreases b.len() - offset,
    {
        let ghost before = diagnostics@.map_values(|d: CssDiagnostic| diagnostic_view(d));
        let c = bytes[offset];
        if c == 0x27 || c == 0x22 {
            offset = find_quote_close(bytes, c, offset + 1);
        } else if c == 0x5b {
            proof {
                lemma_bracket_end_scan(b, offset as int, 0);
            }
            match find_matching_bracket_end(selector_text, offset) {
                None => {
                    assert(attribute_key_scan(b, selector_range, offset as int) =~= Seq::empty());
                    assert(before + attribute_key_scan(b, selector_range, offset as int) =~= before);
                    offset = bytes.len();
                    assert(before + attribute_key_scan(b, selector_range, offset as int) =~= before);
                },
                Some(end) => {
                    match attribute_key_diagnostic_for_segment(selector_text, offset, end, &source_map, selector_range) {
                        Some(d) => {
                            diagnostics.push(d);
                            proof {
                                assert(diagnostics@.map_values(|d: CssDiagnostic| diagnostic_view(d)) =~= before.push(
                                    diagnostic_view(d),
                                ));
                                assert(before + (seq![diagnostic_view(d)] + attribute_key_scan(
                                    b,
                                    selector_range,
                                    end as int,
                                )) =~= before.push(diagnostic_view(d)) + attribute_key_scan(b, selector_range, end as int));
                            }
                        },
                        None => {
                            assert(Seq::<(Seq<char>, CssRange)>::empty() + attribute_key_scan(
                                b,
                                selector_range,
                                end as int,
                            ) =~= attribute_key_scan(b, selector_range, end as int));
                        },
                    }
                    offset = end;
                },
            }
        } else {
            offset = offset + 1;
        }
    }
    proof {
        let view = diagnostics@.map_values(|d: CssDiagnostic| diagnostic_view(d));
        if offset >= bytes.len() {
            assert(view + attribute_key_scan(b, selector_range, offset as int) =~= view);
        }
    }
    diagnostics
}

} // verus!
