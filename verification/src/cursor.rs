//! Where the cursor stands in a stylesheet: zero-based lines and character
//! columns mapped to byte offsets and back, and what kind of token (a
//! property name or value, a selector part) is being written there.
use vstd::prelude::*;
use vstd::string::*;
use vstd::utf8::*;

use crate::css_source::CssRange;
use crate::ranking::{trimmed, trimmed_str};
use crate::syntax::{
    CursorContext, bracket_start_before, colon_between, enclosing_square_bracket_start, has_colon, inside_square_brackets,
    is_blank, last_brace_before, last_selector_end_before,
    lemma_boundary_next_to_ascii, run_start, scan_last_brace, scan_last_selector_end, slice_text,
    spec_inside_square_brackets, token_start,
};

verus! {

/// A zero-based line and a zero-based character column on it.
#[derive(Debug, Clone, Copy, PartialEq, Eq, Structural)]
pub struct Position {
    pub line: u32,
    pub character: u32,
}

/// A span between two positions.
#[derive(Debug, Clone, Copy, PartialEq, Eq, Structural)]
pub struct Range {
    pub start: Position,
    pub end: Position,
}

/// Line and column reached after the first `i` bytes: a line feed starts a
/// new line, every other character moves one column on.
pub open spec fn position_after(b: Seq<u8>, i: int) -> (int, int)
    decreases i,
{
    if i <= 0 || i > b.len() {
        (0, 0)
    } else {
        let (line, column) = position_after(b, i - 1);
        if is_continuation_byte(b[i - 1]) {
            (line, column)
        } else if b[i - 1] == 0x0a {
            (line + 1, 0)
        } else {
            (line, column + 1)
        }
    }
}

/// The first character start (or the end of the text), from byte `i` on,
/// at which the line and column are `(line, column)`.
pub open spec fn offset_of_from(b: Seq<u8>, line: int, column: int, i: int) -> Option<int>
    decreases b.len() - i,
{
    if i < 0 || i > b.len() {
        None
    } else if i == b.len() {
        if position_after(b, i) == (line, column) {
            Some(i)
        } else {
            None
        }
    } else if !is_continuation_byte(b[i]) && position_after(b, i) == (line, column) {
        Some(i)
    } else {
        offset_of_from(b, line, column, i + 1)
    }
}

/// The byte offset of a position: the character start (or the end of the
/// text) at which it is reached.
pub open spec fn spec_position_to_offset(b: Seq<u8>, p: Position) -> Option<int> {
    offset_of_from(b, p.line as int, p.character as int, 0)
}

/// The position of byte `offset`; an offset inside a character or at the
/// end gives the position reached at the end of the text.
pub open spec fn spec_offset_to_position(b: Seq<u8>, offset: int) -> Option<(int, int)> {
    if offset > b.len() {
        None
    } else if offset < b.len() && !is_continuation_byte(b[offset]) {
        Some(position_after(b, offset))
    } else {
        Some(position_after(b, b.len() as int))
    }
}

pub open spec fn position_view(p: Position) -> (int, int) {
    (p.line as int, p.character as int)
}

/// Neither the line nor the column ever exceeds the bytes read.
pub proof fn lemma_position_bounds(b: Seq<u8>, i: int)
    requires
        0 <= i <= b.len(),
    ensures
        0 <= position_after(b, i).0 <= i,
        0 <= position_after(b, i).1 <= i,
    decreases i,
{
    if i > 0 {
        lemma_position_bounds(b, i - 1);
    }
}

/// `a` comes before `b`: on an earlier line, or earlier on the same line.
pub open spec fn position_before(a: (int, int), b: (int, int)) -> bool {
    a.0 < b.0 || (a.0 == b.0 && a.1 < b.1)
}

/// Reading more bytes never moves the position back, and reading past the
/// start of a character moves it forward.
pub proof fn lemma_position_monotone(b: Seq<u8>, i: int, j: int)
    requires
        0 <= i <= j <= b.len(),
    ensures
        position_after(b, i) == position_after(b, j) || position_before(position_after(b, i), position_after(b, j)),
        i < j && !is_continuation_byte(b[i]) ==> position_before(position_after(b, i), position_after(b, j)),
    decreases j - i,
{
    if i < j {
        lemma_position_monotone(b, i, j - 1);
    }
}

/// No character starts before `offset` at the position of `offset`.
proof fn lemma_scan_reaches(b: Seq<u8>, offset: int, k: int)
    requires
        0 <= k <= offset <= b.len(),
        offset == b.len() || !is_continuation_byte(b[offset]),
    ensures
        offset_of_from(b, position_after(b, offset).0, position_after(b, offset).1, k) == Some(offset),
    decreases offset - k,
{
    if k < offset {
        lemma_position_monotone(b, k, offset);
        lemma_scan_reaches(b, offset, k + 1);
    }
}

/// Going from a character start (or the end of the text) to its position
/// and back gives the same offset; going from a position to its offset and
/// back gives the same position.
pub proof fn lemma_offset_position_round_trip(b: Seq<u8>, offset: int, position: Position)
    requires
        b.len() <= u32::MAX,
    ensures
        0 <= offset <= b.len() && (offset == b.len() || !is_continuation_byte(b[offset])) ==> {
            &&& spec_offset_to_position(b, offset) matches Some(p)
            &&& spec_position_to_offset(b, Position { line: p.0 as u32, character: p.1 as u32 }) == Some(offset)
        },
        spec_position_to_offset(b, position) matches Some(o) ==> spec_offset_to_position(b, o) == Some(
            position_view(position),
        ),
{
    if 0 <= offset <= b.len() && (offset == b.len() || !is_continuation_byte(b[offset])) {
        lemma_position_bounds(b, offset);
        lemma_scan_reaches(b, offset, 0);
    }
    lemma_offset_of_from_match(b, position.line as int, position.character as int, 0);
}

/// The offset found for a position is a character start (or the end) at
/// that position.
proof fn lemma_offset_of_from_match(b: Seq<u8>, line: int, column: int, i: int)
    ensures
        offset_of_from(b, line, column, i) matches Some(o) ==> 0 <= o <= b.len() && (o == b.len()
            || !is_continuation_byte(b[o])) && position_after(b, o) == (line, column),
    decreases b.len() - i,
{
    if 0 <= i < b.len() {
        lemma_offset_of_from_match(b, line, column, i + 1);
    }
}

/// The byte offset at which `position` is reached, if it is.
pub fn position_to_offset(source: &str, position: Position) -> (r: Option<usize>)
    requires
        source.spec_bytes().len() <= u32::MAX,
    ensures
        match r {
            Some(o) => spec_position_to_offset(source.spec_bytes(), position) == Some(o as int),
            None => spec_position_to_offset(source.spec_bytes(), position) is None,
        },
{
    let bytes = source.as_bytes();
    let ghost b = bytes@;
    let mut line: u32 = 0;
    let mut column: u32 = 0;
    let mut i: usize = 0;
    while i < bytes.len()
        invariant
            b == bytes@,
            b == source.spec_bytes(),
            b.len() <= u32::MAX,
            i <= b.len(),
            (line as int, column as int) == position_after(b, i as int),
            offset_of_from(b, position.line as int, position.character as int, i as int)
                == spec_position_to_offset(b, position),
        decreases b.len() - i,
    {
        proof {
            lemma_position_bounds(b, i as int);
        }
        let c = bytes[i];
        if c < 0x80 || c >= 0xc0 {
            if line == position.line && column == position.character {
                return Some(i);
            }
            if c == 0x0a {
                line = line + 1;
                column = 0;
            } else {
                column = column + 1;
            }
        }
        i = i + 1;
    }
    if line == position.line && column == position.character {
        Some(bytes.len())
    } else {
        None
    }
}

/// The position of byte `offset`, if the offset lies within the text.
pub fn offset_to_position(source: &str, offset: usize) -> (r: Option<Position>)
    requires
        source.spec_bytes().len() <= u32::MAX,
    ensures
        match r {
            Some(p) => spec_offset_to_position(source.spec_bytes(), offset as int) == Some(position_view(p)),
            None => spec_offset_to_position(source.spec_bytes(), offset as int) is None,
        },
{
    let bytes = source.as_bytes();
    let ghost b = bytes@;
    if offset > bytes.len() {
        return None;
    }
    let mut line: u32 = 0;
    let mut column: u32 = 0;
    let mut i: usize = 0;
    while i < bytes.len()
        invariant
            b == bytes@,
            b == source.spec_bytes(),
            b.len() <= u32::MAX,
            i <= b.len(),
            offset <= b.len(),
            (line as int, column as int) == position_after(b, i as int),
            offset < i ==> (offset >= b.len() || is_continuation_byte(b[offset as int])),
        decreases b.len() - i,
    {
        proof {
            lemma_position_bounds(b, i as int);
        }
        let c = bytes[i];
        if c < 0x80 || c >= 0xc0 {
            if i == offset {
                return Some(Position { line, character: column });
            }
            if c == 0x0a {
                line = line + 1;
                column = 0;
            } else {
                column = column + 1;
            }
        }
        i = i + 1;
    }
    Some(Position { line, character: column })
}

/// The span between two byte offsets, if both lie within the text.
pub fn range_for(source: &str, start: usize, end: usize) -> (r: Option<Range>)
    requires
        source.spec_bytes().len() <= u32::MAX,
    ensures
        match r {
            Some(range) => spec_offset_to_position(source.spec_bytes(), start as int) == Some(
                position_view(range.start),
            ) && spec_offset_to_position(source.spec_bytes(), end as int) == Some(position_view(range.end)),
            None => spec_offset_to_position(source.spec_bytes(), start as int) is None
                || spec_offset_to_position(source.spec_bytes(), end as int) is None,
        },
{
    let start_position = match offset_to_position(source, start) {
        Some(p) => p,
        None => {
            return None;
        },
    };
    let end_position = match offset_to_position(source, end) {
        Some(p) => p,
        None => {
            return None;
        },
    };
    Some(Range { start: start_position, end: end_position })
}

/// One less, but not below zero.
pub open spec fn down_one(v: u32) -> u32 {
    if v == 0 {
        0
    } else {
        (v - 1) as u32
    }
}

/// A one-based stylesheet range as a zero-based span.
pub fn to_lsp_range(range: CssRange) -> (r: Range)
    ensures
        r.start == (Position { line: down_one(range.start_line), character: down_one(range.start_column) }),
        r.end == (Position { line: down_one(range.end_line), character: down_one(range.end_column) }),
{
    Range {
        start: Position {
            line: range.start_line.saturating_sub(1),
            character: range.start_column.saturating_sub(1),
        },
        end: Position { line: range.end_line.saturating_sub(1), character: range.end_column.saturating_sub(1) },
    }
}

/// Byte `offset` lies within `range` (both ends included), read on `b`.
pub open spec fn spec_range_contains(range: CssRange, offset: int, b: Seq<u8>) -> bool {
    let start = spec_position_to_offset(
        b,
        Position { line: down_one(range.start_line), character: down_one(range.start_column) },
    );
    let end = spec_position_to_offset(
        b,
        Position { line: down_one(range.end_line), character: down_one(range.end_column) },
    );
    match (start, end) {
        (Some(s), Some(e)) => s <= offset && offset <= e,
        _ => false,
    }
}

/// Byte `offset` of `source` lies within the one-based `range`.
pub fn range_contains(range: CssRange, offset: usize, source: &str) -> (r: bool)
    requires
        source.spec_bytes().len() <= u32::MAX,
    ensures
        r == spec_range_contains(range, offset as int, source.spec_bytes()),
{
    let start = position_to_offset(
        source,
        Position { line: range.start_line.saturating_sub(1), character: range.start_column.saturating_sub(1) },
    );
    let end = position_to_offset(
        source,
        Position { line: range.end_line.saturating_sub(1), character: range.end_column.saturating_sub(1) },
    );
    match (start, end) {
        (Some(s), Some(e)) => s <= offset && offset <= e,
        _ => false,
    }
}

/// What the context logic reads of a CSS token.
#[derive(Debug)]
pub enum CssTokenClass {
    Ident(String),
    Colon,
    SquareBracketBlock,
    WhiteSpace,
    Comment,
    Other,
}

/// A token of a text's top level (a block's contents are skipped) and the
/// byte offset just after it.
#[derive(Debug)]
pub struct ScannedToken {
    pub class: CssTokenClass,
    pub end: usize,
}

/// The top-level tokens of `text` as the CSS tokenizer reads them,
/// white space and comments included, each with the offset after it.
pub uninterp spec fn css_top_level_tokens(text: Seq<char>) -> Seq<ScannedToken>;

/// Tokenizes `text` with `cssparser::Parser::new`, calling
/// `Parser::next_including_whitespace_and_comments` until it reports the
/// end of the input and reading `Parser::position().byte_index()` after
/// each token. Identifiers keep their text; colons, square-bracket blocks,
/// white space and comments keep their kind; every other token is `Other`.
/// Claimed: the tokens depend on the text alone. Nothing is said of what
/// they are (the tokenizer is cssparser's), nor that the offsets grow or
/// stay within the text.
#[verifier::external_body]
fn top_level_tokens(text: &str) -> (r: Vec<ScannedToken>)
    ensures
        r@ == css_top_level_tokens(text@),
{
    let mut parser = cssparser::Parser::new(text);
    let mut out = Vec::new();
    while let Ok(token) = parser.next_including_whitespace_and_comments() {
        let class = match token {
            cssparser::Token::Ident(value) => CssTokenClass::Ident(value.to_string()),
            cssparser::Token::Colon => CssTokenClass::Colon,
            cssparser::Token::SquareBracketBlock => CssTokenClass::SquareBracketBlock,
            cssparser::Token::WhiteSpace(_) => CssTokenClass::WhiteSpace,
            cssparser::Token::Comment(_) => CssTokenClass::Comment,
            _ => CssTokenClass::Other,
        };
        out.push(ScannedToken { class, end: parser.position().byte_index() });
    }
    out
}

/// Whether the cursor sits where a property name or a property value goes.
#[derive(Debug, Clone, PartialEq, Eq)]
pub enum DeclarationContext {
    Name,
    Value { property_name: String },
}

/// `None` for a name, the property's name for a value.
pub open spec fn context_view(c: DeclarationContext) -> Option<Seq<char>> {
    match c {
        DeclarationContext::Name => None,
        DeclarationContext::Value { property_name } => Some(property_name@),
    }
}

pub open spec fn opt_context_view(c: Option<DeclarationContext>) -> Option<Option<Seq<char>>> {
    match c {
        Some(x) => Some(context_view(x)),
        None => None,
    }
}

/// Reading the tokens from `i` on, with the name seen so far and whether a
/// colon followed it: the first identifier is the name, a colon after it
/// turns the rest into the value, white space and comments are skipped,
/// anything else before a name means no declaration.
pub open spec fn declaration_scan(toks: Seq<ScannedToken>, i: int, name: Seq<char>, colon: bool) -> Option<
    Option<Seq<char>>,
>
    decreases toks.len() - i,
{
    if i < 0 || i >= toks.len() {
        if name.len() > 0 && colon {
            Some(Some(name))
        } else {
            Some(None)
        }
    } else {
        let expecting_name = !colon && name.len() == 0;
        match toks[i].class {
            CssTokenClass::Ident(v) if expecting_name => declaration_scan(toks, i + 1, v@, colon),
            CssTokenClass::Colon if name.len() > 0 => declaration_scan(toks, i + 1, name, true),
            CssTokenClass::WhiteSpace => declaration_scan(toks, i + 1, name, colon),
            CssTokenClass::Comment => declaration_scan(toks, i + 1, name, colon),
            _ => if expecting_name {
                None
            } else {
                declaration_scan(toks, i + 1, name, colon)
            },
        }
    }
}

/// The declaration context given by a segment's tokens.
pub open spec fn spec_context_from_tokens(toks: Seq<ScannedToken>) -> Option<Option<Seq<char>>> {
    declaration_scan(toks, 0, Seq::empty(), false)
}

/// Reads a declaration's tokens: a name and, after a colon, its value.
pub fn declaration_context_from_tokens(tokens: &Vec<ScannedToken>) -> (r: Option<DeclarationContext>)
    ensures
        opt_context_view(r) == spec_context_from_tokens(tokens@),
{
    let mut name = String::new();
    let mut colon = false;
    let mut i: usize = 0;
    while i < tokens.len()
        invariant
            i <= tokens@.len(),
            declaration_scan(tokens@, i as int, name@, colon) == spec_context_from_tokens(tokens@),
        decreases tokens@.len() - i,
    {
        let expecting_name = !colon && name.unicode_len() == 0;
        match &tokens[i].class {
            CssTokenClass::Ident(v) if expecting_name => {
                name = v.clone();
            },
            CssTokenClass::Colon if name.unicode_len() > 0 => {
                colon = true;
            },
            CssTokenClass::WhiteSpace => {},
            CssTokenClass::Comment => {},
            _ => {
                if expecting_name {
                    return None;
                }
            },
        }
        i = i + 1;
    }
    if name.unicode_len() > 0 && colon {
        Some(DeclarationContext::Value { property_name: name })
    } else {
        Some(DeclarationContext::Name)
    }
}

fn declaration_context_from_parser(segment: &str) -> (r: Option<DeclarationContext>)
    ensures
        opt_context_view(r) == spec_context_from_tokens(css_top_level_tokens(segment@)),
{
    let tokens = top_level_tokens(segment);
    declaration_context_from_tokens(&tokens)
}

/// Position of the first `byte` from `i` on, or -1.
pub open spec fn first_byte_from(b: Seq<u8>, byte: u8, i: int) -> int
    decreases b.len() - i,
{
    if i < 0 || i >= b.len() {
        -1
    } else if b[i] == byte {
        i
    } else {
        first_byte_from(b, byte, i + 1)
    }
}

/// Without a colon the cursor is on a name; with one, the trimmed text
/// before the first colon is the property (none if it is empty).
pub open spec fn spec_context_fallback(b: Seq<u8>) -> Option<Option<Seq<char>>> {
    let colon = first_byte_from(b, 0x3a, 0);
    if colon < 0 {
        Some(None)
    } else {
        let name = trimmed(decode_utf8(b.subrange(0, colon)));
        if name.len() == 0 {
            None
        } else {
            Some(Some(name))
        }
    }
}

fn declaration_context_fallback(segment: &str) -> (r: Option<DeclarationContext>)
    ensures
        opt_context_view(r) == spec_context_fallback(segment.spec_bytes()),
{
    let bytes = segment.as_bytes();
    let ghost b = bytes@;
    let mut i: usize = 0;
    while i < bytes.len() && bytes[i] != 0x3a
        invariant
            b == bytes@,
            i <= b.len(),
            first_byte_from(b, 0x3a, i as int) == first_byte_from(b, 0x3a, 0),
        decreases b.len() - i,
    {
        i = i + 1;
    }
    if i == bytes.len() {
        return Some(DeclarationContext::Name);
    }
    proof {
        encode_utf8_valid_utf8(segment@);
        lemma_boundary_next_to_ascii(b, i as int);
        lemma_boundary_next_to_ascii(b, 0);
    }
    let head = match slice_text(segment, 0, i) {
        Some(t) => t,
        None => {
            return None;
        },
    };
    proof {
        encode_utf8_decode_utf8(head@);
    }
    let name = trimmed_str(head);
    if name.unicode_len() == 0 {
        None
    } else {
        Some(DeclarationContext::Value { property_name: name.to_owned() })
    }
}

/// Position of the last byte before `i` equal to `x`, `y` or `z`, or -1.
pub open spec fn last_of_before(b: Seq<u8>, i: int, x: u8, y: u8, z: u8) -> int
    decreases i,
{
    if i <= 0 || i > b.len() {
        -1
    } else if b[i - 1] == x || b[i - 1] == y || b[i - 1] == z {
        i - 1
    } else {
        last_of_before(b, i - 1, x, y, z)
    }
}

fn scan_last_of(bytes: &[u8], offset: usize, x: u8, y: u8, z: u8) -> (r: Option<usize>)
    requires
        offset <= bytes@.len(),
    ensures
        match r {
            Some(i) => last_of_before(bytes@, offset as int, x, y, z) == i as int && i < offset && (
            bytes@[i as int] == x || bytes@[i as int] == y || bytes@[i as int] == z),
            None => last_of_before(bytes@, offset as int, x, y, z) == -1,
        },
{
    let mut i = offset;
    while i > 0
        invariant
            i <= offset <= bytes@.len(),
            last_of_before(bytes@, i as int, x, y, z) == last_of_before(bytes@, offset as int, x, y, z),
        decreases i,
    {
        let c = bytes[i - 1];
        if c == x || c == y || c == z {
            return Some(i - 1);
        }
        i = i - 1;
    }
    None
}

/// The declaration context at byte `offset`: none outside a block (no `{`
/// since the last `}`); a name where the text since the last `{`, `;` or
/// `}` is blank; none inside square brackets; otherwise what the tokens of
/// that text say, or failing that the text before its first colon.
pub open spec fn spec_declaration_context(b: Seq<u8>, offset: int) -> Option<Option<Seq<char>>> {
    let open = last_of_before(b, offset, 0x7b, 0x7b, 0x7b);
    let close = last_of_before(b, offset, 0x7d, 0x7d, 0x7d);
    if open < 0 || close > open {
        None
    } else {
        let start = last_of_before(b, offset, 0x7b, 0x3b, 0x7d) + 1;
        let segment = b.subrange(start, offset);
        if is_blank(decode_utf8(segment)) {
            Some(None)
        } else if spec_inside_square_brackets(b, offset) {
            None
        } else {
            match spec_context_from_tokens(css_top_level_tokens(decode_utf8(segment))) {
                Some(c) => Some(c),
                None => spec_context_fallback(segment),
            }
        }
    }
}

fn declaration_context(source: &str, offset: usize) -> (r: Option<DeclarationContext>)
    requires
        offset <= source.spec_bytes().len(),
        is_char_boundary(source.spec_bytes(), offset as int),
    ensures
        opt_context_view(r) == spec_declaration_context(source.spec_bytes(), offset as int),
{
    let bytes = source.as_bytes();
    let ghost b = bytes@;
    let open = scan_last_of(bytes, offset, 0x7b, 0x7b, 0x7b);
    let close = scan_last_of(bytes, offset, 0x7d, 0x7d, 0x7d);
    let open = match open {
        None => {
            return None;
        },
        Some(o) => o,
    };
    if let Some(c) = close {
        if c > open {
            return None;
        }
    }
    let start = match scan_last_of(bytes, offset, 0x7b, 0x3b, 0x7d) {
        Some(i) => i + 1,
        None => 0,
    };
    proof {
        encode_utf8_valid_utf8(source@);
        lemma_boundary_next_to_ascii(b, start as int);
    }
    let segment = match slice_text(source, start, offset) {
        Some(t) => t,
        None => {
            return None;
        },
    };
    proof {
        encode_utf8_decode_utf8(segment@);
    }
    if crate::syntax::blank_text(segment) {
        return Some(DeclarationContext::Name);
    }
    if inside_square_brackets(source, offset) {
        return None;
    }
    match declaration_context_from_parser(segment) {
        Some(c) => Some(c),
        None => declaration_context_fallback(segment),
    }
}

/// The property whose value is being written at byte `offset`.
pub fn enclosing_property_name(source: &str, offset: usize) -> (r: Option<String>)
    requires
        offset <= source.spec_bytes().len(),
        is_char_boundary(source.spec_bytes(), offset as int),
    ensures
        match r {
            Some(name) => spec_declaration_context(source.spec_bytes(), offset as int) == Some(Some(name@)),
            None => !(spec_declaration_context(source.spec_bytes(), offset as int) matches Some(Some(_))),
        },
{
    match declaration_context(source, offset) {
        Some(DeclarationContext::Value { property_name }) => Some(property_name),
        _ => None,
    }
}

/// The byte before `end` is `c`.
pub open spec fn ends_with_byte(b: Seq<u8>, end: int, c: u8) -> bool {
    1 <= end <= b.len() && b[end - 1] == c
}

/// The two bytes before `end` are `c` and `d`.
pub open spec fn ends_with_bytes(b: Seq<u8>, end: int, c: u8, d: u8) -> bool {
    2 <= end <= b.len() && b[end - 2] == c && b[end - 1] == d
}

/// Whether the one-byte text before `end` is `c`, comparing the slice as
/// text (which needs both of its ends on character boundaries).
pub(crate) fn text_before_is(text: &str, end: usize, c: u8) -> (r: bool)
    requires
        end >= 1 ==> end <= text.spec_bytes().len() && is_char_boundary(text.spec_bytes(), end as int)
            && is_char_boundary(text.spec_bytes(), end - 1),
    ensures
        r == ends_with_byte(text.spec_bytes(), end as int, c),
{
    let bytes = text.as_bytes();
    end >= 1 && bytes[end - 1] == c
}

/// Whether the two-byte text before `end` is `c` then `d`, compared as
/// text.
pub(crate) fn text_before_is_two(text: &str, end: usize, c: u8, d: u8) -> (r: bool)
    requires
        end >= 2 ==> end <= text.spec_bytes().len() && is_char_boundary(text.spec_bytes(), end as int)
            && is_char_boundary(text.spec_bytes(), end - 2),
    ensures
        r == ends_with_bytes(text.spec_bytes(), end as int, c, d),
{
    let bytes = text.as_bytes();
    end >= 2 && bytes[end - 2] == c && bytes[end - 1] == d
}

/// Where the selector being written before `offset` starts: after the last
/// `,`, `{` or `}`; none inside a declaration block (a colon since the last
/// brace) or when that text is blank.
pub open spec fn spec_current_selector_start(b: Seq<u8>, offset: int) -> Option<int> {
    let rule_start = last_brace_before(b, offset) + 1;
    if has_colon(b, rule_start, offset) {
        None
    } else {
        let start = last_selector_end_before(b, offset) + 1;
        if is_blank(decode_utf8(b.subrange(start, offset))) {
            None
        } else {
            Some(start)
        }
    }
}

fn current_selector_segment(source: &str, offset: usize) -> (r: Option<(usize, &str)>)
    requires
        offset <= source.spec_bytes().len(),
        is_char_boundary(source.spec_bytes(), offset as int),
    ensures
        match r {
            Some((start, text)) => spec_current_selector_start(source.spec_bytes(), offset as int) == Some(
                start as int,
            ) && start <= offset && text.spec_bytes() == source.spec_bytes().subrange(start as int, offset as int)
                && is_char_boundary(source.spec_bytes(), start as int),
            None => spec_current_selector_start(source.spec_bytes(), offset as int) is None,
        },
{
    let bytes = source.as_bytes();
    let ghost b = bytes@;
    let rule_start = match scan_last_brace(bytes, offset) {
        Some(i) => i + 1,
        None => 0,
    };
    if colon_between(bytes, rule_start, offset) {
        return None;
    }
    let start = match scan_last_selector_end(bytes, offset) {
        Some(i) => i + 1,
        None => 0,
    };
    proof {
        encode_utf8_valid_utf8(source@);
        lemma_boundary_next_to_ascii(b, start as int);
    }
    let text = match slice_text(source, start, offset) {
        Some(t) => t,
        None => {
            return None;
        },
    };
    proof {
        encode_utf8_decode_utf8(text@);
    }
    if crate::syntax::blank_text(text) {
        return None;
    }
    Some((start, text))
}

pub open spec fn opt_int(o: Option<usize>) -> Option<int> {
    match o {
        Some(v) => Some(v as int),
        None => None,
    }
}

/// How reading a selector's tokens up to the token start ends.
pub enum SelectorScan {
    /// The tokens ran out first.
    RanOut,
    /// A square-bracket block encloses the token start.
    InBracket,
    /// The token start was reached; the offset after the last colon and
    /// the start of the last square-bracket block read, if any.
    Reached(Option<int>, Option<int>),
}

/// Reads tokens from `i` on while the position `pos` is before `rel`.
pub open spec fn selector_scan(
    toks: Seq<ScannedToken>,
    rel: int,
    i: int,
    pos: int,
    colon: Option<int>,
    bracket: Option<int>,
) -> SelectorScan
    decreases toks.len() - i,
{
    if pos >= rel {
        SelectorScan::Reached(colon, bracket)
    } else if i < 0 || i >= toks.len() {
        SelectorScan::RanOut
    } else {
        let end = toks[i].end as int;
        match toks[i].class {
            CssTokenClass::Colon => selector_scan(toks, rel, i + 1, end, Some(end), bracket),
            CssTokenClass::SquareBracketBlock => {
                let start = if end >= 1 {
                    end - 1
                } else {
                    0
                };
                if start <= rel && rel <= end {
                    SelectorScan::InBracket
                } else {
                    selector_scan(toks, rel, i + 1, end, colon, Some(start))
                }
            },
            _ => selector_scan(toks, rel, i + 1, end, colon, bracket),
        }
    }
}

/// The token start was reached with no bracket block before it, so the
/// text just before it is looked at.
pub open spec fn prefix_looked_at(scan: SelectorScan, rel: int) -> bool {
    match scan {
        SelectorScan::Reached(_, bracket) => !(bracket matches Some(s) && s < rel),
        _ => false,
    }
}

/// The selector context of the token that starts at `rel` in `text`: an
/// attribute key inside (or after) a bracket block, an id after `#`, a
/// class after `.`, otherwise a pseudo-element or pseudo-class when a colon
/// (or two) came before.
pub open spec fn spec_selector_context_from_tokens(text: Seq<u8>, toks: Seq<ScannedToken>, rel: int) -> Option<
    CursorContext,
> {
    match selector_scan(toks, rel, 0, 0, None, None) {
        SelectorScan::RanOut => None,
        SelectorScan::InBracket => Some(CursorContext::AttributeKey),
        SelectorScan::Reached(colon, bracket) => if bracket matches Some(s) && s < rel {
            Some(CursorContext::AttributeKey)
        } else if ends_with_byte(text, rel, 0x23) {
            Some(CursorContext::SelectorId)
        } else if ends_with_byte(text, rel, 0x2e) {
            Some(CursorContext::SelectorClass)
        } else {
            match colon {
                Some(c) => if ends_with_bytes(text, c, 0x3a, 0x3a) {
                    Some(CursorContext::PseudoElement)
                } else {
                    Some(CursorContext::PseudoClass)
                },
                None => None,
            }
        },
    }
}

/// Reads a selector's tokens up to byte `relative_token_start` and tells
/// what is being written there.
pub fn selector_context_from_tokens(text: &str, tokens: &Vec<ScannedToken>, relative_token_start: usize) -> (r:
    Option<CursorContext>)
    requires
        prefix_looked_at(selector_scan(tokens@, relative_token_start as int, 0, 0, None, None), relative_token_start as int)
            && relative_token_start >= 1 ==> relative_token_start <= text.spec_bytes().len() && is_char_boundary(
            text.spec_bytes(),
            relative_token_start as int,
        ) && is_char_boundary(text.spec_bytes(), relative_token_start - 1),
    ensures
        r == spec_selector_context_from_tokens(text.spec_bytes(), tokens@, relative_token_start as int),
{
    let rel = relative_token_start;
    let ghost toks = tokens@;
    let mut i: usize = 0;
    let mut pos: usize = 0;
    let mut last_colon: Option<usize> = None;
    let mut last_bracket: Option<usize> = None;
    while pos < rel
        invariant
            toks == tokens@,
            rel == relative_token_start,
            i <= toks.len(),
            selector_scan(toks, rel as int, i as int, pos as int, opt_int(last_colon), opt_int(last_bracket))
                == selector_scan(toks, rel as int, 0, 0, None, None),
        decreases toks.len() - i,
    {
        let ghost before = selector_scan(toks, rel as int, i as int, pos as int, opt_int(last_colon), opt_int(last_bracket));
        if i >= tokens.len() {
            assert(before == SelectorScan::RanOut);
            return None;
        }
        let end = tokens[i].end;
        match &tokens[i].class {
            CssTokenClass::Colon => {
                last_colon = Some(end);
            },
            CssTokenClass::SquareBracketBlock => {
                let start = end.saturating_sub(1);
                if start <= rel && rel <= end {
                    assert(before == SelectorScan::InBracket);
                    return Some(CursorContext::AttributeKey);
                }
                last_bracket = Some(start);
            },
            _ => {},
        }
        pos = end;
        i = i + 1;
        assert(before == selector_scan(toks, rel as int, i as int, pos as int, opt_int(last_colon), opt_int(last_bracket)));
    }
    if let Some(start) = last_bracket {
        if start < rel {
            return Some(CursorContext::AttributeKey);
        }
    }
    if text_before_is(text, rel, 0x23) {
        return Some(CursorContext::SelectorId);
    }
    if text_before_is(text, rel, 0x2e) {
        return Some(CursorContext::SelectorClass);
    }
    match last_colon {
        Some(c) => {
            let bytes = text.as_bytes();
            if c >= 2 && c <= bytes.len() && bytes[c - 2] == 0x3a && bytes[c - 1] == 0x3a {
                Some(CursorContext::PseudoElement)
            } else {
                Some(CursorContext::PseudoClass)
            }
        },
        None => None,
    }
}

/// The selector context read from the tokens of the selector being written.
pub open spec fn spec_selector_context_from_parser(b: Seq<u8>, offset: int, token_start: int) -> Option<CursorContext> {
    match spec_current_selector_start(b, offset) {
        None => None,
        Some(start) => if token_start < start {
            None
        } else {
            let text = b.subrange(start, offset);
            spec_selector_context_from_tokens(text, css_top_level_tokens(decode_utf8(text)), token_start - start)
        },
    }
}

/// Reading the selector's tokens would compare the text before the token
/// start where that text does not begin on a character boundary.
pub open spec fn parser_slices_inside_char(b: Seq<u8>, offset: int, token_start: int) -> bool {
    match spec_current_selector_start(b, offset) {
        None => false,
        Some(start) => {
            let text = b.subrange(start, offset);
            let rel = token_start - start;
            &&& token_start >= start
            &&& prefix_looked_at(selector_scan(css_top_level_tokens(decode_utf8(text)), rel, 0, 0, None, None), rel)
            &&& rel >= 1
            &&& !is_char_boundary(text, rel - 1)
        },
    }
}

fn selector_context_from_parser(source: &str, offset: usize, token_start: usize) -> (r: Option<CursorContext>)
    requires
        offset <= source.spec_bytes().len(),
        token_start <= offset,
        is_char_boundary(source.spec_bytes(), offset as int),
        is_char_boundary(source.spec_bytes(), token_start as int),
        !parser_slices_inside_char(source.spec_bytes(), offset as int, token_start as int),
    ensures
        r == spec_selector_context_from_parser(source.spec_bytes(), offset as int, token_start as int),
{
    let ghost b = source.spec_bytes();
    let (start, text) = match current_selector_segment(source, offset) {
        Some(x) => x,
        None => {
            return None;
        },
    };
    if token_start < start {
        return None;
    }
    let rel = token_start - start;
    proof {
        vstd::utf8::encode_utf8_decode_utf8(text@);
        encode_utf8_valid_utf8(source@);
        encode_utf8_valid_utf8(text@);
        assert(text@ == decode_utf8(b.subrange(start as int, offset as int)));
        lemma_boundary_within(b, start as int, offset as int, token_start as int);
    }
    let tokens = top_level_tokens(text);
    selector_context_from_tokens(text, &tokens, rel)
}

/// A boundary of a text that lies inside a slice cut on boundaries is a
/// boundary of the slice.
pub proof fn lemma_boundary_within(b: Seq<u8>, lo: int, hi: int, i: int)
    requires
        valid_utf8(b),
        0 <= lo <= i <= hi <= b.len(),
        is_char_boundary(b, lo),
        is_char_boundary(b, hi),
        is_char_boundary(b, i),
    ensures
        valid_utf8(b.subrange(lo, hi)),
        is_char_boundary(b.subrange(lo, hi), i - lo),
{
    valid_utf8_split(b, lo);
    let tail = b.subrange(lo, b.len() as int);
    if hi < b.len() {
        is_char_boundary_iff_not_is_continuation_byte(b, hi);
        is_char_boundary_iff_not_is_continuation_byte(tail, hi - lo);
    } else {
        is_char_boundary_start_end_of_seq(tail);
    }
    valid_utf8_split(tail, hi - lo);
    let s = b.subrange(lo, hi);
    assert(tail.subrange(0, hi - lo) =~= s);
    if i < hi {
        is_char_boundary_iff_not_is_continuation_byte(b, i);
        is_char_boundary_iff_not_is_continuation_byte(s, i - lo);
    } else {
        is_char_boundary_start_end_of_seq(s);
    }
}

/// `=`, `~`, `|`, `^`, `$` or `*`: the bytes that start an attribute
/// operator.
pub open spec fn is_attribute_operator(c: u8) -> bool {
    c == 0x3d || c == 0x7e || c == 0x7c || c == 0x5e || c == 0x24 || c == 0x2a
}

/// The token starts inside an open square bracket and no attribute
/// operator stands between the bracket and the offset.
pub open spec fn spec_is_attribute_key_context(b: Seq<u8>, offset: int, token_start: int) -> bool {
    match bracket_start_before(b, token_start) {
        None => false,
        Some(s) => forall|k: int| s + 1 <= k < offset ==> !is_attribute_operator(#[trigger] b[k]),
    }
}

/// `bracket_start_before` finds a `[` before the position it starts from.
pub proof fn lemma_bracket_start_before(b: Seq<u8>, i: int)
    requires
        i <= b.len(),
    ensures
        bracket_start_before(b, i) matches Some(s) ==> 0 <= s < i && b[s] == 0x5b,
    decreases i,
{
    if i > 0 {
        lemma_bracket_start_before(b, i - 1);
    }
}

fn is_attribute_key_context(source: &str, offset: usize, token_start: usize) -> (r: bool)
    requires
        token_start <= offset <= source.spec_bytes().len(),
    ensures
        r == spec_is_attribute_key_context(source.spec_bytes(), offset as int, token_start as int),
{
    let bytes = source.as_bytes();
    let start = match enclosing_square_bracket_start(source, token_start) {
        None => {
            return false;
        },
        Some(s) => s,
    };
    proof {
        lemma_bracket_start_before(bytes@, token_start as int);
    }
    let mut k = start + 1;
    while k < offset
        invariant
            bytes@ == source.spec_bytes(),
            bracket_start_before(bytes@, token_start as int) == Some(start as int),
            start + 1 <= k,
            offset <= bytes@.len(),
            forall|j: int| start + 1 <= j < k ==> !is_attribute_operator(#[trigger] bytes@[j]),
        decreases offset - k,
    {
        let c = bytes[k];
        if c == 0x3d || c == 0x7e || c == 0x7c || c == 0x5e || c == 0x24 || c == 0x2a {
            assert(is_attribute_operator(bytes@[k as int]));
            return false;
        }
        k = k + 1;
    }
    true
}

/// The selector context read from the text itself: an attribute key inside
/// brackets, a pseudo-element after `::`, an id after `#`, a class after
/// `.`, a pseudo-class after `:`.
pub open spec fn spec_selector_context_fallback(b: Seq<u8>, offset: int, token_start: int) -> Option<CursorContext> {
    if spec_is_attribute_key_context(b, offset, token_start) {
        Some(CursorContext::AttributeKey)
    } else if ends_with_bytes(b, token_start, 0x3a, 0x3a) {
        Some(CursorContext::PseudoElement)
    } else if ends_with_byte(b, token_start, 0x23) {
        Some(CursorContext::SelectorId)
    } else if ends_with_byte(b, token_start, 0x2e) {
        Some(CursorContext::SelectorClass)
    } else if ends_with_byte(b, token_start, 0x3a) {
        Some(CursorContext::PseudoClass)
    } else {
        None
    }
}

/// Reading the text before the token start would cut a character.
pub open spec fn fallback_slices_inside_char(b: Seq<u8>, offset: int, token_start: int) -> bool {
    &&& !spec_is_attribute_key_context(b, offset, token_start)
    &&& ((token_start >= 2 && !is_char_boundary(b, token_start - 2)) || (token_start >= 1 && !is_char_boundary(
        b,
        token_start - 1,
    )))
}

fn selector_context_fallback(source: &str, offset: usize, token_start: usize) -> (r: Option<CursorContext>)
    requires
        token_start <= offset <= source.spec_bytes().len(),
        is_char_boundary(source.spec_bytes(), token_start as int),
        !fallback_slices_inside_char(source.spec_bytes(), offset as int, token_start as int),
    ensures
        r == spec_selector_context_fallback(source.spec_bytes(), offset as int, token_start as int),
{
    if is_attribute_key_context(source, offset, token_start) {
        return Some(CursorContext::AttributeKey);
    }
    if text_before_is_two(source, token_start, 0x3a, 0x3a) {
        return Some(CursorContext::PseudoElement);
    }
    if text_before_is(source, token_start, 0x23) {
        return Some(CursorContext::SelectorId);
    }
    if text_before_is(source, token_start, 0x2e) {
        return Some(CursorContext::SelectorClass);
    }
    if text_before_is(source, token_start, 0x3a) {
        return Some(CursorContext::PseudoClass);
    }
    None
}

/// The selector context at the token start: read from the selector's
/// tokens, or failing that from the text; only selector kinds count.
pub open spec fn spec_selector_context(b: Seq<u8>, offset: int, token_start: int) -> Option<CursorContext> {
    let found = match spec_selector_context_from_parser(b, offset, token_start) {
        Some(c) => Some(c),
        None => spec_selector_context_fallback(b, offset, token_start),
    };
    match found {
        Some(CursorContext::AttributeKey) => found,
        Some(CursorContext::SelectorId) => found,
        Some(CursorContext::SelectorClass) => found,
        Some(CursorContext::PseudoClass) => found,
        Some(CursorContext::PseudoElement) => found,
        _ => None,
    }
}

pub open spec fn selector_context_slices_inside_char(b: Seq<u8>, offset: int, token_start: int) -> bool {
    ||| parser_slices_inside_char(b, offset, token_start)
    ||| (spec_selector_context_from_parser(b, offset, token_start) is None && fallback_slices_inside_char(
        b,
        offset,
        token_start,
    ))
}

fn selector_context(source: &str, offset: usize, token_start: usize) -> (r: Option<CursorContext>)
    requires
        token_start <= offset <= source.spec_bytes().len(),
        is_char_boundary(source.spec_bytes(), offset as int),
        is_char_boundary(source.spec_bytes(), token_start as int),
        !selector_context_slices_inside_char(source.spec_bytes(), offset as int, token_start as int),
    ensures
        r == spec_selector_context(source.spec_bytes(), offset as int, token_start as int),
{
    let found = match selector_context_from_parser(source, offset, token_start) {
        Some(c) => Some(c),
        None => selector_context_fallback(source, offset, token_start),
    };
    match found {
        Some(CursorContext::AttributeKey) => found,
        Some(CursorContext::SelectorId) => found,
        Some(CursorContext::SelectorClass) => found,
        Some(CursorContext::PseudoClass) => found,
        Some(CursorContext::PseudoElement) => found,
        _ => None,
    }
}

fn is_property_value_context(source: &str, token_start: usize) -> (r: bool)
    requires
        token_start <= source.spec_bytes().len(),
        is_char_boundary(source.spec_bytes(), token_start as int),
    ensures
        r == (spec_declaration_context(source.spec_bytes(), token_start as int) matches Some(Some(_))),
{
    match declaration_context(source, token_start) {
        Some(DeclarationContext::Value { .. }) => true,
        _ => false,
    }
}

fn is_property_name_context(source: &str, token_start: usize) -> (r: bool)
    requires
        token_start <= source.spec_bytes().len(),
        is_char_boundary(source.spec_bytes(), token_start as int),
    ensures
        r == (!spec_inside_square_brackets(source.spec_bytes(), token_start as int) && spec_declaration_context(
            source.spec_bytes(),
            token_start as int,
        ) == Some(None::<Seq<char>>)),
{
    if inside_square_brackets(source, token_start) {
        return false;
    }
    match declaration_context(source, token_start) {
        Some(DeclarationContext::Name) => true,
        _ => false,
    }
}

/// What is written at the offset: a property value, a property name, a
/// selector part, or nothing known.
pub open spec fn context_at(b: Seq<u8>, offset: int, token_start: int) -> CursorContext {
    let declaration = spec_declaration_context(b, token_start);
    if declaration matches Some(Some(_)) {
        CursorContext::PropertyValue
    } else if !spec_inside_square_brackets(b, token_start) && declaration == Some(None::<Seq<char>>) {
        CursorContext::PropertyName
    } else {
        match spec_selector_context(b, offset, token_start) {
            Some(c) => c,
            None => CursorContext::NoContext,
        }
    }
}

/// The context at `position`, with its byte offset and the offset where
/// the token being written there starts.
pub open spec fn spec_cursor_context(b: Seq<u8>, position: Position) -> Option<(CursorContext, int, int)> {
    match spec_position_to_offset(b, position) {
        None => None,
        Some(offset) => {
            let token_start = run_start(b, offset);
            Some((context_at(b, offset, token_start), offset, token_start))
        },
    }
}

/// Telling the context at `position` would cut a character when looking at
/// the text just before the token start.
pub open spec fn cursor_context_slices_inside_char(b: Seq<u8>, position: Position) -> bool {
    match spec_position_to_offset(b, position) {
        None => false,
        Some(offset) => {
            let token_start = run_start(b, offset);
            let declaration = spec_declaration_context(b, token_start);
            &&& !(declaration matches Some(Some(_)))
            &&& !(!spec_inside_square_brackets(b, token_start) && declaration == Some(None::<Seq<char>>))
            &&& selector_context_slices_inside_char(b, offset, token_start)
        },
    }
}

/// The run of identifier bytes ending at `p` starts at or before `p`, at an
/// identifier byte when it is not empty.
pub proof fn lemma_run_start(b: Seq<u8>, p: int)
    requires
        0 <= p <= b.len(),
    ensures
        0 <= run_start(b, p) <= p,
        run_start(b, p) < p ==> crate::syntax::is_ident_byte(b[run_start(b, p)]),
    decreases p,
{
    if p > 0 && crate::syntax::is_ident_byte(b[p - 1]) {
        lemma_run_start(b, p - 1);
    }
}

/// What is being written at `position`, with its byte offset and the start
/// of the token there.
pub fn cursor_context(source: &str, position: Position) -> (r: Option<(CursorContext, usize, usize)>)
    requires
        source.spec_bytes().len() <= u32::MAX,
        !cursor_context_slices_inside_char(source.spec_bytes(), position),
    ensures
        match r {
            Some((c, o, t)) => spec_cursor_context(source.spec_bytes(), position) == Some((c, o as int, t as int)),
            None => spec_cursor_context(source.spec_bytes(), position) is None,
        },
{
    let ghost b = source.spec_bytes();
    let offset = match position_to_offset(source, position) {
        Some(o) => o,
        None => {
            return None;
        },
    };
    let start = token_start(source, offset);
    proof {
        encode_utf8_valid_utf8(source@);
        lemma_offset_of_from_match(b, position.line as int, position.character as int, 0);
        if offset < b.len() {
            is_char_boundary_iff_not_is_continuation_byte(b, offset as int);
        } else {
            is_char_boundary_start_end_of_seq(b);
        }
        lemma_run_start(b, offset as int);
        if start < offset {
            lemma_boundary_next_to_ascii(b, start as int);
        }
    }
    let context = if is_property_value_context(source, start) {
        CursorContext::PropertyValue
    } else if is_property_name_context(source, start) {
        CursorContext::PropertyName
    } else {
        match selector_context(source, offset, start) {
            Some(c) => c,
            None => CursorContext::NoContext,
        }
    };
    Some((context, offset, start))
}

} // verus!
