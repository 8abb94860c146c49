//! Hover texts for the stylesheet language: the documentation of the
//! property, pseudo-class, pseudo-element or attribute key under the
//! cursor, when the text around it shows that it is one.
use vstd::prelude::*;
use vstd::string::*;
use vstd::utf8::*;

use crate::cursor::{ends_with_byte, ends_with_bytes, is_attribute_operator, text_before_is, text_before_is_two};
use crate::language::{
    attribute_key_index, attribute_key_spec, attribute_key_table, property_index, property_spec, property_table,
    pseudo_class_index, pseudo_class_spec, pseudo_class_table, pseudo_element_index, pseudo_element_spec,
    pseudo_element_table, SelectorTarget, StyleTarget, SupportStatus,
};
use crate::syntax::{
    bracket_end_from, bracket_start_before, enclosing_square_bracket_end, enclosing_square_bracket_start,
    first_non_space, inside_square_brackets, last_non_space, next_non_whitespace_byte,
    next_non_whitespace_byte_in_range, previous_non_whitespace_byte_in_range, spec_inside_square_brackets,
    CursorContext,
};

verus! {

/// The token is followed by a colon and does not sit inside brackets.
pub open spec fn spec_looks_like_property_name(b: Seq<u8>, start: int, end: int) -> bool {
    first_non_space(b, end, b.len() as int) == Some(0x3au8) && !spec_inside_square_brackets(b, start)
}

pub fn looks_like_property_name(source: &str, start: usize, end: usize) -> (r: bool)
    requires
        start <= source.spec_bytes().len(),
    ensures
        r == spec_looks_like_property_name(source.spec_bytes(), start as int, end as int),
{
    match next_non_whitespace_byte(source, end) {
        Some(next) => next == 0x3a && !inside_square_brackets(source, start),
        None => false,
    }
}

/// The token is the first thing inside an open square bracket and is
/// followed by its end or by an attribute operator.
pub open spec fn spec_looks_like_attribute_key(b: Seq<u8>, start: int, end: int) -> bool {
    match (bracket_start_before(b, start), bracket_end_from(b, end)) {
        (Some(open), Some(close)) => {
            let next = match first_non_space(b, end, close) {
                Some(c) => c,
                None => 0x5du8,
            };
            let prev = match last_non_space(b, start, open) {
                Some(c) => c,
                None => 0x5bu8,
            };
            prev == 0x5b && (next == 0x5d || is_attribute_operator(next))
        },
        _ => false,
    }
}

/// `bracket_end_from` stops at a `]` inside the text.
pub proof fn lemma_bracket_end_from(b: Seq<u8>, i: int)
    ensures
        bracket_end_from(b, i) matches Some(e) ==> i <= e < b.len(),
    decreases b.len() - i,
{
    if 0 <= i < b.len() && b[i] != 0x5d && b[i] != 0x5b && b[i] != 0x7b && b[i] != 0x3b {
        lemma_bracket_end_from(b, i + 1);
    }
}

pub fn looks_like_attribute_key(source: &str, start: usize, end: usize) -> (r: bool)
    requires
        start <= source.spec_bytes().len(),
    ensures
        r == spec_looks_like_attribute_key(source.spec_bytes(), start as int, end as int),
{
    let open = match enclosing_square_bracket_start(source, start) {
        Some(o) => o,
        None => {
            return false;
        },
    };
    let close = match enclosing_square_bracket_end(source, end) {
        Some(c) => c,
        None => {
            return false;
        },
    };
    proof {
        lemma_bracket_end_from(source.spec_bytes(), end as int);
    }
    let next = match next_non_whitespace_byte_in_range(source, end, close) {
        Some(c) => c,
        None => 0x5d,
    };
    let prev = match previous_non_whitespace_byte_in_range(source, start, open) {
        Some(c) => c,
        None => 0x5b,
    };
    prev == 0x5b && (next == 0x5d || next == 0x3d || next == 0x7e || next == 0x7c || next == 0x5e || next == 0x24
        || next == 0x2a)
}

pub open spec fn status_label(status: SupportStatus) -> Seq<char> {
    match status {
        SupportStatus::Full => "full"@,
        SupportStatus::Partial => "partial"@,
        SupportStatus::Planned => "planned"@,
    }
}

pub fn support_status_label(status: SupportStatus) -> (r: &'static str)
    ensures
        r@ == status_label(status),
{
    match status {
        SupportStatus::Full => "full",
        SupportStatus::Partial => "partial",
        SupportStatus::Planned => "planned",
    }
}

pub open spec fn style_target_label(target: StyleTarget) -> Seq<char> {
    match target {
        StyleTarget::Workspace => "`workspace`"@,
        StyleTarget::Group => "`group`"@,
        StyleTarget::Window => "`window`"@,
    }
}

pub open spec fn selector_target_label(target: SelectorTarget) -> Seq<char> {
    match target {
        SelectorTarget::Workspace => "`workspace`"@,
        SelectorTarget::Group => "`group`"@,
        SelectorTarget::Window => "`window`"@,
    }
}

/// The labels of `ts` joined by `, `.
pub open spec fn joined_style_labels(ts: Seq<StyleTarget>) -> Seq<char>
    decreases ts.len(),
{
    if ts.len() == 0 {
        Seq::empty()
    } else if ts.len() == 1 {
        style_target_label(ts[0])
    } else {
        joined_style_labels(ts.drop_last()) + ", "@ + style_target_label(ts.last())
    }
}

/// The labels of `ts` joined by `, `.
pub open spec fn joined_selector_labels(ts: Seq<SelectorTarget>) -> Seq<char>
    decreases ts.len(),
{
    if ts.len() == 0 {
        Seq::empty()
    } else if ts.len() == 1 {
        selector_target_label(ts[0])
    } else {
        joined_selector_labels(ts.drop_last()) + ", "@ + selector_target_label(ts.last())
    }
}

pub fn style_targets_label(targets: &Vec<StyleTarget>) -> (r: String)
    ensures
        r@ == joined_style_labels(targets@),
{
    let mut text = String::new();
    let mut i: usize = 0;
    while i < targets.len()
        invariant
            i <= targets@.len(),
            text@ == joined_style_labels(targets@.take(i as int)),
        decreases targets@.len() - i,
    {
        assert(targets@.take(i + 1).drop_last() =~= targets@.take(i as int));
        if i > 0 {
            text.append(", ");
        } else {
            assert(targets@.take(i + 1) =~= seq![targets@[0]]);
        }
        let label = match targets[i] {
            StyleTarget::Workspace => "`workspace`",
            StyleTarget::Group => "`group`",
            StyleTarget::Window => "`window`",
        };
        text.append(label);
        i = i + 1;
    }
    assert(targets@.take(targets@.len() as int) =~= targets@);
    text
}

pub fn selector_targets_label(targets: &Vec<SelectorTarget>) -> (r: String)
    ensures
        r@ == joined_selector_labels(targets@),
{
    let mut text = String::new();
    let mut i: usize = 0;
    while i < targets.len()
        invariant
            i <= targets@.len(),
            text@ == joined_selector_labels(targets@.take(i as int)),
        decreases targets@.len() - i,
    {
        assert(targets@.take(i + 1).drop_last() =~= targets@.take(i as int));
        if i > 0 {
            text.append(", ");
        } else {
            assert(targets@.take(i + 1) =~= seq![targets@[0]]);
        }
        let label = match targets[i] {
            SelectorTarget::Workspace => "`workspace`",
            SelectorTarget::Group => "`group`",
            SelectorTarget::Window => "`window`",
        };
        text.append(label);
        i = i + 1;
    }
    assert(targets@.take(targets@.len() as int) =~= targets@);
    text
}

/// The hover of a property name: its name, documentation, support status
/// and the targets it applies to.
pub open spec fn spec_property_hover(b: Seq<u8>, start: int, end: int, token: Seq<char>, context: CursorContext) -> Option<
    Seq<char>,
> {
    if property_index(token) < 0 || context != CursorContext::PropertyName || !spec_looks_like_property_name(
        b,
        start,
        end,
    ) {
        None
    } else {
        let p = property_table()[property_index(token)];
        Some(
            "`"@ + p.0 + "`\n\n"@ + p.4 + "\n\nStatus: "@ + status_label(p.1) + "\n\nApplies to: "@
                + joined_style_labels(p.2),
        )
    }
}

pub fn property_hover(source: &str, start: usize, end: usize, token: &str, context: CursorContext) -> (r: Option<
    String,
>)
    requires
        start <= source.spec_bytes().len(),
    ensures
        match r {
            Some(t) => spec_property_hover(source.spec_bytes(), start as int, end as int, token@, context) == Some(t@),
            None => spec_property_hover(source.spec_bytes(), start as int, end as int, token@, context) is None,
        },
{
    let spec = match property_spec(token) {
        Some(s) => s,
        None => {
            return None;
        },
    };
    if context != CursorContext::PropertyName || !looks_like_property_name(source, start, end) {
        return None;
    }
    let mut text = "`".to_owned();
    text.append(spec.name);
    text.append("`\n\n");
    text.append(spec.hover);
    text.append("\n\nStatus: ");
    text.append(support_status_label(spec.status));
    text.append("\n\nApplies to: ");
    let targets = style_targets_label(&spec.applies_to);
    text.append(targets.as_str());
    Some(text)
}

/// The hover of a pseudo-element written after `::`.
pub open spec fn spec_pseudo_element_hover(b: Seq<u8>, start: int, token: Seq<char>, context: CursorContext) -> Option<
    Seq<char>,
> {
    if pseudo_element_index(token) < 0 || context != CursorContext::PseudoElement || !ends_with_bytes(
        b,
        start,
        0x3a,
        0x3a,
    ) {
        None
    } else {
        let p = pseudo_element_table()[pseudo_element_index(token)];
        Some("`::"@ + p.0 + "`\n\n"@ + p.2 + "\n\nApplies to: "@ + joined_selector_labels(p.1))
    }
}

pub fn pseudo_element_hover(source: &str, start: usize, end: usize, token: &str, context: CursorContext) -> (r:
    Option<String>)
    requires
        pseudo_element_index(token@) >= 0 && context == CursorContext::PseudoElement && start >= 2 ==> start
            <= source.spec_bytes().len() && is_char_boundary(source.spec_bytes(), start as int) && is_char_boundary(
            source.spec_bytes(),
            start - 2,
        ),
    ensures
        match r {
            Some(t) => spec_pseudo_element_hover(source.spec_bytes(), start as int, token@, context) == Some(t@),
            None => spec_pseudo_element_hover(source.spec_bytes(), start as int, token@, context) is None,
        },
{
    let spec = match pseudo_element_spec(token) {
        Some(s) => s,
        None => {
            return None;
        },
    };
    if context != CursorContext::PseudoElement || !text_before_is_two(source, start, 0x3a, 0x3a) {
        return None;
    }
    let mut text = "`::".to_owned();
    text.append(spec.name);
    text.append("`\n\n");
    text.append(spec.hover);
    text.append("\n\nApplies to: ");
    let targets = selector_targets_label(&spec.targets);
    text.append(targets.as_str());
    Some(text)
}

/// The hover of a pseudo-class written after a single `:`.
pub open spec fn spec_pseudo_class_hover(b: Seq<u8>, start: int, token: Seq<char>, context: CursorContext) -> Option<
    Seq<char>,
> {
    if pseudo_class_index(token) < 0 || context != CursorContext::PseudoClass || !ends_with_byte(b, start, 0x3a)
        || ends_with_bytes(b, start, 0x3a, 0x3a) {
        None
    } else {
        let p = pseudo_class_table()[pseudo_class_index(token)];
        Some("`:"@ + p.0 + "`\n\n"@ + p.1)
    }
}

pub fn pseudo_class_hover(source: &str, start: usize, end: usize, token: &str, context: CursorContext) -> (r: Option<
    String,
>)
    requires
        pseudo_class_index(token@) >= 0 && context == CursorContext::PseudoClass && start >= 1 ==> start
            <= source.spec_bytes().len() && is_char_boundary(source.spec_bytes(), start as int) && is_char_boundary(
            source.spec_bytes(),
            start - 1,
        ),
        pseudo_class_index(token@) >= 0 && context == CursorContext::PseudoClass && ends_with_byte(
            source.spec_bytes(),
            start as int,
            0x3a,
        ) && start >= 2 ==> is_char_boundary(source.spec_bytes(), start - 2),
    ensures
        match r {
            Some(t) => spec_pseudo_class_hover(source.spec_bytes(), start as int, token@, context) == Some(t@),
            None => spec_pseudo_class_hover(source.spec_bytes(), start as int, token@, context) is None,
        },
{
    let spec = match pseudo_class_spec(token) {
        Some(s) => s,
        None => {
            return None;
        },
    };
    if context != CursorContext::PseudoClass || !text_before_is(source, start, 0x3a) || text_before_is_two(
        source,
        start,
        0x3a,
        0x3a,
    ) {
        return None;
    }
    let mut text = "`:".to_owned();
    text.append(spec.name);
    text.append("`\n\n");
    text.append(spec.hover);
    Some(text)
}

/// The hover of an attribute key written first inside square brackets.
pub open spec fn spec_attribute_key_hover(b: Seq<u8>, start: int, end: int, token: Seq<char>, context: CursorContext) -> Option<
    Seq<char>,
> {
    if attribute_key_index(token) < 0 || context != CursorContext::AttributeKey || !spec_looks_like_attribute_key(
        b,
        start,
        end,
    ) {
        None
    } else {
        let a = attribute_key_table()[attribute_key_index(token)];
        Some("`["@ + a.0 + "]`\n\n"@ + a.2 + "\n\nApplies to: "@ + joined_selector_labels(a.1))
    }
}

pub fn attribute_key_hover(source: &str, start: usize, end: usize, token: &str, context: CursorContext) -> (r: Option<
    String,
>)
    requires
        start <= source.spec_bytes().len(),
    ensures
        match r {
            Some(t) => spec_attribute_key_hover(source.spec_bytes(), start as int, end as int, token@, context) == Some(
                t@,
            ),
            None => spec_attribute_key_hover(source.spec_bytes(), start as int, end as int, token@, context) is None,
        },
{
    let spec = match attribute_key_spec(token) {
        Some(s) => s,
        None => {
            return None;
        },
    };
    if context != CursorContext::AttributeKey || !looks_like_attribute_key(source, start, end) {
        return None;
    }
    let mut text = "`[".to_owned();
    text.append(spec.name);
    text.append("]`\n\n");
    text.append(spec.hover);
    text.append("\n\nApplies to: ");
    let targets = selector_targets_label(&spec.targets);
    text.append(targets.as_str());
    Some(text)
}


/// The bytes that may follow an attribute key inside its bracket: the end
/// `]`, or the start of an operator `=`, `~=`, `|=`, `^=`, `$=`, `*=`.
pub open spec fn follows_attribute_key(c: u8) -> bool {
    c == 0x5d || c == 0x3d || c == 0x7e || c == 0x7c || c == 0x5e || c == 0x24 || c == 0x2a
}

/// The closing `]` at `close` is the first of `]`, `[`, `{`, `;` from `i`.
pub open spec fn closes_bracket(b: Seq<u8>, i: int, close: int) -> bool {
    &&& 0 <= i <= close < b.len()
    &&& b[close] == 0x5d
    &&& forall|k: int| i <= k < close ==> b[k] != 0x5d && b[k] != 0x5b && b[k] != 0x7b && b[k] != 0x3b
}

proof fn lemma_bracket_end_found(b: Seq<u8>, i: int, close: int)
    requires
        closes_bracket(b, i, close),
    ensures
        bracket_end_from(b, i) == Some(close),
    decreases close - i,
{
    if i < close {
        lemma_bracket_end_found(b, i + 1, close);
    }
}

/// A token written right after `[` and followed by `]` or by any attribute
/// operator (`=`, `~`, `|`, `^`, `$`, `*`) before the bracket closes looks
/// like an attribute key.
pub proof fn lemma_bracketed_token_is_attribute_key(b: Seq<u8>, start: int, end: int, close: int)
    requires
        1 <= start <= end,
        b[start - 1] == 0x5b,
        follows_attribute_key(b[end]),
        closes_bracket(b, end, close),
    ensures
        spec_looks_like_attribute_key(b, start, end),
{
    lemma_bracket_end_found(b, end, close);
    assert(bracket_start_before(b, start) == Some(start - 1));
    assert(last_non_space(b, start, start - 1) == Some(0x5bu8));
    if end < close {
        assert(first_non_space(b, end, close) == Some(b[end]));
    } else {
        assert(first_non_space(b, end, close) is None);
    }
}

} // verus!
