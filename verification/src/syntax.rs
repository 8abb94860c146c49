//! Byte-level scanning of stylesheet text for the language server: where a
//! token starts, the identifier around an offset, the square brackets that
//! enclose an offset, and the `#id` and `.class` references of a selector.
use vstd::prelude::*;
use vstd::string::*;
use vstd::utf8::*;

verus! {

#[derive(Debug, Clone, Copy, PartialEq, Eq, Structural)]
pub enum CursorContext {
    PropertyName,
    PropertyValue,
    SelectorId,
    SelectorClass,
    PseudoClass,
    PseudoElement,
    AttributeKey,
    NoContext,
}

#[derive(Debug, Clone, Copy, PartialEq, Eq, Structural)]
pub enum SelectorReferenceKind {
    Id,
    Class,
}

/// A `#name` or `.name` in a selector, with the byte range of the whole
/// reference (sign included).
#[derive(Debug, PartialEq, Eq)]
pub struct SelectorReference {
    pub kind: SelectorReferenceKind,
    pub name: String,
    pub start: usize,
    pub end: usize,
}

impl Clone for SelectorReference {
    fn clone(&self) -> (r: Self)
        ensures
            r == *self,
    {
        SelectorReference { kind: self.kind, name: self.name.clone(), start: self.start, end: self.end }
    }
}

/// ASCII letters and digits, `-` and `_`.
pub open spec fn is_ident_byte(c: u8) -> bool {
    (0x30 <= c <= 0x39) || (0x41 <= c <= 0x5a) || (0x61 <= c <= 0x7a) || c == 0x2d || c == 0x5f
}

/// Space, tab, line feed, form feed and carriage return.
pub open spec fn is_ascii_space(c: u8) -> bool {
    c == 0x20 || c == 0x09 || c == 0x0a || c == 0x0c || c == 0x0d
}

fn ident_byte(c: u8) -> (r: bool)
    ensures
        r == is_ident_byte(c),
{
    (c >= 0x30 && c <= 0x39) || (c >= 0x41 && c <= 0x5a) || (c >= 0x61 && c <= 0x7a) || c == 0x2d || c == 0x5f
}

fn space_byte(c: u8) -> (r: bool)
    ensures
        r == is_ascii_space(c),
{
    c == 0x20 || c == 0x09 || c == 0x0a || c == 0x0c || c == 0x0d
}

/// Start of the run of identifier bytes that ends at `p`.
pub open spec fn run_start(b: Seq<u8>, p: int) -> int
    decreases p,
{
    if p > 0 && p <= b.len() && is_ident_byte(b[p - 1]) {
        run_start(b, p - 1)
    } else {
        p
    }
}

/// End of the run of identifier bytes that starts at `p`.
pub open spec fn run_end(b: Seq<u8>, p: int) -> int
    decreases b.len() - p,
{
    if 0 <= p < b.len() && is_ident_byte(b[p]) {
        run_end(b, p + 1)
    } else {
        p
    }
}

/// The identifier that covers byte `offset` (clamped to the last byte), or
/// the one that ends just before it.
pub open spec fn spec_identifier_bounds(b: Seq<u8>, offset: int) -> Option<(int, int)> {
    if b.len() == 0 {
        None
    } else {
        let probe = if offset < b.len() - 1 { offset } else { b.len() - 1 };
        if is_ident_byte(b[probe]) {
            Some((run_start(b, probe), run_end(b, probe + 1)))
        } else if probe == 0 || !is_ident_byte(b[probe - 1]) {
            None
        } else {
            Some((run_start(b, probe - 1), run_end(b, probe)))
        }
    }
}

fn scan_run_start(bytes: &[u8], p: usize) -> (r: usize)
    requires
        p <= bytes@.len(),
    ensures
        r as int == run_start(bytes@, p as int),
{
    let mut start = p;
    while start > 0 && ident_byte(bytes[start - 1])
        invariant
            start <= p <= bytes@.len(),
            run_start(bytes@, start as int) == run_start(bytes@, p as int),
        decreases start,
    {
        start = start - 1;
    }
    start
}

fn scan_run_end(bytes: &[u8], p: usize) -> (r: usize)
    requires
        p <= bytes@.len(),
    ensures
        r as int == run_end(bytes@, p as int),
        p <= r <= bytes@.len(),
{
    let mut end = p;
    while end < bytes.len() && ident_byte(bytes[end])
        invariant
            p <= end <= bytes@.len(),
            run_end(bytes@, end as int) == run_end(bytes@, p as int),
        decreases bytes@.len() - end,
    {
        end = end + 1;
    }
    end
}

/// Byte range of the identifier at `offset`.
pub fn identifier_bounds(source: &str, offset: usize) -> (r: Option<(usize, usize)>)
    ensures
        match r {
            Some((s, e)) => spec_identifier_bounds(source.spec_bytes(), offset as int) == Some((s as int, e as int)),
            None => spec_identifier_bounds(source.spec_bytes(), offset as int) is None,
        },
{
    let bytes = source.as_bytes();
    if bytes.len() == 0 {
        return None;
    }
    let last = bytes.len() - 1;
    let mut probe = if offset < last { offset } else { last };
    if !ident_byte(bytes[probe]) {
        if probe == 0 || !ident_byte(bytes[probe - 1]) {
            return None;
        }
        probe = probe - 1;
        let start = scan_run_start(bytes, probe);
        let end = scan_run_end(bytes, probe + 1);
        proof {
            assert(run_start(bytes@, probe as int + 1) == run_start(bytes@, probe as int));
        }
        return Some((start, end));
    }
    let start = scan_run_start(bytes, probe);
    let end = scan_run_end(bytes, probe + 1);
    proof {
        assert(run_start(bytes@, probe as int + 1) == run_start(bytes@, probe as int));
    }
    Some((start, end))
}

/// Start of the token that ends at `offset` (clamped to the text): the
/// offset moved back over identifier bytes.
pub fn token_start(source: &str, offset: usize) -> (r: usize)
    ensures
        r as int == run_start(source.spec_bytes(), if offset <= source.spec_bytes().len() {
            offset as int
        } else {
            source.spec_bytes().len() as int
        }),
        ({
            let b = source.spec_bytes();
            let e = if offset <= b.len() {
                offset as int
            } else {
                b.len() as int
            };
            &&& r <= e
            &&& forall|k: int| r <= k < e ==> is_ident_byte(#[trigger] b[k])
            &&& r == 0 || !is_ident_byte(b[r - 1])
        }),
{
    let bytes = source.as_bytes();
    let p = if offset <= bytes.len() { offset } else { bytes.len() };
    proof {
        lemma_run_start_run(bytes@, p as int);
    }
    scan_run_start(bytes, p)
}

/// `run_start(b, p)` starts a run of identifier bytes that reaches `p`,
/// and the byte before it, if any, is not one.
pub proof fn lemma_run_start_run(b: Seq<u8>, p: int)
    requires
        0 <= p <= b.len(),
    ensures
        0 <= run_start(b, p) <= p,
        forall|k: int| run_start(b, p) <= k < p ==> is_ident_byte(#[trigger] b[k]),
        run_start(b, p) == 0 || !is_ident_byte(b[run_start(b, p) - 1]),
    decreases p,
{
    if p > 0 && is_ident_byte(b[p - 1]) {
        lemma_run_start_run(b, p - 1);
    }
}

/// The bytes before `end` end with `prefix`.
pub open spec fn spec_has_prefix(b: Seq<u8>, end: int, prefix: Seq<u8>) -> bool {
    end >= prefix.len() && end <= b.len() && b.subrange(end - prefix.len(), end) == prefix
}

/// Whether the text just before byte `start` is `prefix`.
pub fn has_prefix(source: &str, start: usize, prefix: &str) -> (r: bool)
    requires
        start >= prefix.spec_bytes().len() ==> start <= source.spec_bytes().len() && is_char_boundary(
            source.spec_bytes(),
            start as int,
        ) && is_char_boundary(source.spec_bytes(), start - prefix.spec_bytes().len()),
    ensures
        r == spec_has_prefix(source.spec_bytes(), start as int, prefix.spec_bytes()),
{
    let bytes = source.as_bytes();
    let p = prefix.as_bytes();
    if start < p.len() {
        return false;
    }
    let base = start - p.len();
    let mut i: usize = 0;
    while i < p.len()
        invariant
            bytes@ == source.spec_bytes(),
            p@ == prefix.spec_bytes(),
            base + p@.len() == start,
            start <= bytes@.len(),
            i <= p@.len(),
            forall|k: int| 0 <= k < i ==> #[trigger] p@[k] == bytes@[base + k],
        decreases p@.len() - i,
    {
        if p[i] != bytes[base + i] {
            proof {
                assert(bytes@.subrange(base as int, start as int)[i as int] != p@[i as int]);
            }
            return false;
        }
        i = i + 1;
    }
    proof {
        assert(bytes@.subrange(base as int, start as int) =~= p@);
    }
    true
}

/// Position of the `[` that opens a bracket around `i` (looking back from
/// `i`); a `]`, `{` or `;` met first means there is none.
pub open spec fn bracket_start_before(b: Seq<u8>, i: int) -> Option<int>
    decreases i,
{
    if i <= 0 {
        None
    } else {
        let c = b[i - 1];
        if c == 0x5b {
            Some(i - 1)
        } else if c == 0x5d || c == 0x7b || c == 0x3b {
            None
        } else {
            bracket_start_before(b, i - 1)
        }
    }
}

/// Position of the `]` that closes a bracket around `i` (looking ahead from
/// `i`); a `[`, `{` or `;` met first, or the end of the text, means there
/// is none.
pub open spec fn bracket_end_from(b: Seq<u8>, i: int) -> Option<int>
    decreases b.len() - i,
{
    if i < 0 || i >= b.len() {
        None
    } else {
        let c = b[i];
        if c == 0x5d {
            Some(i)
        } else if c == 0x5b || c == 0x7b || c == 0x3b {
            None
        } else {
            bracket_end_from(b, i + 1)
        }
    }
}

pub fn enclosing_square_bracket_start(source: &str, offset: usize) -> (r: Option<usize>)
    requires
        offset <= source.spec_bytes().len(),
    ensures
        match r {
            Some(i) => bracket_start_before(source.spec_bytes(), offset as int) == Some(i as int),
            None => bracket_start_before(source.spec_bytes(), offset as int) is None,
        },
{
    let bytes = source.as_bytes();
    let mut index = offset;
    while index > 0
        invariant
            bytes@ == source.spec_bytes(),
            index <= offset <= bytes@.len(),
            bracket_start_before(bytes@, index as int) == bracket_start_before(bytes@, offset as int),
        decreases index,
    {
        index = index - 1;
        let c = bytes[index];
        if c == 0x5b {
            return Some(index);
        }
        if c == 0x5d || c == 0x7b || c == 0x3b {
            return None;
        }
    }
    None
}

pub fn enclosing_square_bracket_end(source: &str, offset: usize) -> (r: Option<usize>)
    ensures
        match r {
            Some(i) => bracket_end_from(source.spec_bytes(), offset as int) == Some(i as int),
            None => bracket_end_from(source.spec_bytes(), offset as int) is None,
        },
{
    let bytes = source.as_bytes();
    let mut index = offset;
    while index < bytes.len()
        invariant
            bytes@ == source.spec_bytes(),
            offset <= index,
            bracket_end_from(bytes@, index as int) == bracket_end_from(bytes@, offset as int),
        decreases bytes@.len() - index,
    {
        let c = bytes[index];
        if c == 0x5d {
            return Some(index);
        }
        if c == 0x5b || c == 0x7b || c == 0x3b {
            return None;
        }
        index = index + 1;
    }
    None
}

/// The offset lies inside a pair of square brackets: after the `[` and at
/// or before the `]`.
pub open spec fn spec_inside_square_brackets(b: Seq<u8>, offset: int) -> bool {
    match (bracket_start_before(b, offset), bracket_end_from(b, offset)) {
        (Some(s), Some(e)) => s < offset && offset <= e,
        _ => false,
    }
}

pub fn inside_square_brackets(source: &str, offset: usize) -> (r: bool)
    requires
        offset <= source.spec_bytes().len(),
    ensures
        r == spec_inside_square_brackets(source.spec_bytes(), offset as int),
{
    match (enclosing_square_bracket_start(source, offset), enclosing_square_bracket_end(source, offset)) {
        (Some(start), Some(end)) => start < offset && offset <= end,
        _ => false,
    }
}

/// The first byte at or after `i` and before `end` that is not ASCII
/// whitespace.
pub open spec fn first_non_space(b: Seq<u8>, i: int, end: int) -> Option<u8>
    decreases end - i,
{
    if i < 0 || i >= end || i >= b.len() {
        None
    } else if !is_ascii_space(b[i]) {
        Some(b[i])
    } else {
        first_non_space(b, i + 1, end)
    }
}

/// The last byte before `i` and at or after `lower` that is not ASCII
/// whitespace.
pub open spec fn last_non_space(b: Seq<u8>, i: int, lower: int) -> Option<u8>
    decreases i,
{
    if i <= lower || i <= 0 || i > b.len() {
        None
    } else if !is_ascii_space(b[i - 1]) {
        Some(b[i - 1])
    } else {
        last_non_space(b, i - 1, lower)
    }
}

pub proof fn lemma_first_non_space_clamp(b: Seq<u8>, i: int, end: int)
    requires
        end >= b.len(),
    ensures
        first_non_space(b, i, end) == first_non_space(b, i, b.len() as int),
    decreases b.len() - i,
{
    if 0 <= i < b.len() {
        lemma_first_non_space_clamp(b, i + 1, end);
    }
}

pub fn next_non_whitespace_byte(source: &str, offset: usize) -> (r: Option<u8>)
    ensures
        r == first_non_space(source.spec_bytes(), offset as int, source.spec_bytes().len() as int),
{
    let bytes = source.as_bytes();
    next_non_whitespace_byte_in_range(source, offset, bytes.len())
}

pub fn next_non_whitespace_byte_in_range(source: &str, offset: usize, end: usize) -> (r: Option<u8>)
    requires
        end <= source.spec_bytes().len() || offset >= end || first_non_space(
            source.spec_bytes(),
            offset as int,
            source.spec_bytes().len() as int,
        ) is Some,
    ensures
        r == first_non_space(source.spec_bytes(), offset as int, end as int),
{
    let bytes = source.as_bytes();
    let mut index = offset;
    proof {
        if end > bytes@.len() {
            lemma_first_non_space_clamp(bytes@, offset as int, end as int);
        }
    }
    while index < end
        invariant
            bytes@ == source.spec_bytes(),
            offset <= index,
            end <= bytes@.len() || first_non_space(bytes@, index as int, bytes@.len() as int) is Some
                || index >= end,
            first_non_space(bytes@, index as int, end as int) == first_non_space(bytes@, offset as int, end as int),
            end > bytes@.len() ==> first_non_space(bytes@, index as int, bytes@.len() as int) == first_non_space(
                bytes@,
                index as int,
                end as int,
            ),
        decreases end - index,
    {
        if index >= bytes.len() {
            return None;
        }
        if !space_byte(bytes[index]) {
            return Some(bytes[index]);
        }
        proof {
            if end > bytes@.len() {
                lemma_first_non_space_clamp(bytes@, index + 1, end as int);
            }
        }
        index = index + 1;
    }
    None
}

pub fn previous_non_whitespace_byte_in_range(source: &str, offset: usize, lower_bound: usize) -> (r: Option<u8>)
    requires
        offset <= source.spec_bytes().len() || offset <= lower_bound,
    ensures
        r == last_non_space(source.spec_bytes(), offset as int, lower_bound as int),
{
    let bytes = source.as_bytes();
    let mut index = offset;
    while index > lower_bound
        invariant
            bytes@ == source.spec_bytes(),
            index <= offset,
            index <= bytes@.len() || index <= lower_bound,
            last_non_space(bytes@, index as int, lower_bound as int) == last_non_space(
                bytes@,
                offset as int,
                lower_bound as int,
            ),
        decreases index,
    {
        index = index - 1;
        if !space_byte(bytes[index]) {
            return Some(bytes[index]);
        }
    }
    None
}

/// A byte position next to an ASCII byte (or at either end of the text) is
/// a character boundary.
pub proof fn lemma_boundary_next_to_ascii(b: Seq<u8>, i: int)
    requires
        valid_utf8(b),
        0 <= i <= b.len(),
        i == 0 || i == b.len() || b[i] < 0x80 || b[i - 1] < 0x80,
    ensures
        is_char_boundary(b, i),
    decreases b.len(),
{
    if i > 0 {
        let l = length_of_first_scalar(b);
        assert(valid_first_scalar(b));
        assert(1 <= l <= 4 && l <= b.len());
        let rest = pop_first_scalar(b);
        assert(valid_utf8(rest));
        assert(is_char_boundary(b, i) == is_char_boundary(rest, i - l));
        if i < l {
            assert(false);
        } else if i == l {
            assert(is_char_boundary(rest, 0));
        } else {
            assert(rest.len() == b.len() - l);
            assert(forall|k: int| 0 <= k < rest.len() ==> #[trigger] rest[k] == b[k + l]);
            lemma_boundary_next_to_ascii(rest, i - l);
        }
    }
}

/// The text between two byte positions: present when both are character
/// boundaries within the text, its bytes being those of the range.
pub(crate) fn slice_text(s: &str, start: usize, end: usize) -> (r: Option<&str>)
    ensures
        r is Some <==> (start <= end <= s.spec_bytes().len() && is_char_boundary(s.spec_bytes(), start as int)
            && is_char_boundary(s.spec_bytes(), end as int)),
        r matches Some(t) ==> t.spec_bytes() == s.spec_bytes().subrange(start as int, end as int),
{
    let n = s.as_bytes().len();
    if start <= end && end <= n && s.is_char_boundary(start) && s.is_char_boundary(end) {
        let ghost b = s.spec_bytes();
        proof {
            encode_utf8_valid_utf8(s@);
        }
        let (_, tail) = s.split_at(start);
        proof {
            let t = b.subrange(start as int, b.len() as int);
            valid_utf8_split(b, start as int);
            assert(tail.spec_bytes() == t);
            let k = end - start;
            if end < b.len() {
                is_char_boundary_iff_not_is_continuation_byte(b, end as int);
                is_char_boundary_iff_not_is_continuation_byte(t, k as int);
                assert(t[k as int] == b[end as int]);
            } else {
                is_char_boundary_start_end_of_seq(t);
            }
        }
        let (mid, _) = tail.split_at(end - start);
        proof {
            assert(mid.spec_bytes() =~= b.subrange(start as int, end as int));
        }
        Some(mid)
    } else {
        None
    }
}

/// Where a comment that opens at `i` ends: after the first `*/` from
/// `i + 2`, or at the end of the text.
pub open spec fn comment_close(b: Seq<u8>, i: int) -> int
    decreases b.len() - i,
{
    if i + 1 < b.len() {
        if b[i] == 0x2a && b[i + 1] == 0x2f {
            i + 2
        } else {
            comment_close(b, i + 1)
        }
    } else {
        b.len() as int
    }
}

/// Where a string quoted with `q` ends, scanning from `i`: after the
/// closing quote (a backslash escapes the byte after it), or at the end of
/// the text.
pub open spec fn quote_close(b: Seq<u8>, q: u8, i: int) -> int
    decreases b.len() - i,
{
    if 0 <= i < b.len() {
        if b[i] == 0x5c {
            if i + 2 < b.len() {
                quote_close(b, q, i + 2)
            } else {
                b.len() as int
            }
        } else if b[i] == q {
            i + 1
        } else {
            quote_close(b, q, i + 1)
        }
    } else {
        b.len() as int
    }
}

/// A comment opens at `i`.
pub open spec fn opens_comment(b: Seq<u8>, i: int) -> bool {
    0 <= i && i + 1 < b.len() && b[i] == 0x2f && b[i + 1] == 0x2a
}

/// A string opens at `i`.
pub open spec fn opens_string(b: Seq<u8>, i: int) -> bool {
    0 <= i < b.len() && (b[i] == 0x27 || b[i] == 0x22)
}

/// A reference as plain values: kind, name bytes, start and end.
pub open spec fn reference_view(r: SelectorReference) -> (SelectorReferenceKind, Seq<u8>, int, int) {
    (r.kind, encode_utf8(r.name@), r.start as int, r.end as int)
}

/// The `#id` and `.class` references of selector bytes `b` from `offset`
/// on, outside comments, strings and attribute brackets (`depth` counts the
/// open brackets); positions are shifted by `base`.
pub open spec fn references_from(b: Seq<u8>, base: int, offset: int, depth: int) -> Seq<
    (SelectorReferenceKind, Seq<u8>, int, int),
>
    decreases b.len() - offset,
{
    if offset < 0 || offset >= b.len() {
        Seq::empty()
    } else if opens_comment(b, offset) {
        let close = comment_close(b, offset + 2);
        if offset < close <= b.len() {
            references_from(b, base, close, depth)
        } else {
            Seq::empty()
        }
    } else if opens_string(b, offset) {
        let close = quote_close(b, b[offset], offset + 1);
        if offset < close <= b.len() {
            references_from(b, base, close, depth)
        } else {
            Seq::empty()
        }
    } else {
        let c = b[offset];
        if c == 0x5b {
            references_from(b, base, offset + 1, depth + 1)
        } else if c == 0x5d {
            references_from(b, base, offset + 1, if depth > 0 { depth - 1 } else { 0 })
        } else if (c == 0x23 || c == 0x2e) && depth == 0 {
            let name_end = run_end(b, offset + 1);
            if offset + 1 < name_end <= b.len() {
                seq![
                    (
                        if c == 0x23 { SelectorReferenceKind::Id } else { SelectorReferenceKind::Class },
                        b.subrange(offset + 1, name_end),
                        base + offset,
                        base + name_end,
                    ),
                ] + references_from(b, base, name_end, depth)
            } else {
                references_from(b, base, offset + 1, depth)
            }
        } else {
            references_from(b, base, offset + 1, depth)
        }
    }
}

pub proof fn lemma_run_end(b: Seq<u8>, p: int)
    requires
        0 <= p <= b.len(),
    ensures
        p <= run_end(b, p) <= b.len(),
        forall|k: int| p <= k < run_end(b, p) ==> is_ident_byte(#[trigger] b[k]),
    decreases b.len() - p,
{
    if p < b.len() && is_ident_byte(b[p]) {
        lemma_run_end(b, p + 1);
    }
}

pub proof fn lemma_comment_close(b: Seq<u8>, i: int)
    requires
        0 <= i,
    ensures
        i <= comment_close(b, i) || comment_close(b, i) == b.len(),
        comment_close(b, i) <= b.len() || comment_close(b, i) <= i + 2,
        i <= b.len() ==> i <= comment_close(b, i) <= b.len(),
    decreases b.len() - i,
{
    if i + 1 < b.len() {
        lemma_comment_close(b, i + 1);
    }
}

pub proof fn lemma_quote_close(b: Seq<u8>, q: u8, i: int)
    requires
        0 <= i,
    ensures
        i <= b.len() ==> i <= quote_close(b, q, i) <= b.len(),
        i > b.len() ==> quote_close(b, q, i) == b.len(),
    decreases b.len() - i,
{
    if 0 <= i < b.len() {
        if b[i] == 0x5c {
            if i + 2 < b.len() {
                lemma_quote_close(b, q, i + 2);
            }
        } else if b[i] != q {
            lemma_quote_close(b, q, i + 1);
        }
    }
}

fn find_comment_close(bytes: &[u8], start: usize) -> (r: usize)
    requires
        start <= bytes@.len(),
    ensures
        r as int == comment_close(bytes@, start as int),
        start <= r <= bytes@.len(),
{
    let mut index = start;
    while bytes.len() > 0 && index < bytes.len() - 1
        invariant
            start <= index <= bytes@.len(),
            comment_close(bytes@, index as int) == comment_close(bytes@, start as int),
        decreases bytes@.len() - index,
    {
        if bytes[index] == 0x2a && bytes[index + 1] == 0x2f {
            return index + 2;
        }
        index = index + 1;
    }
    bytes.len()
}

pub(crate) fn find_quote_close(bytes: &[u8], quote: u8, start: usize) -> (r: usize)
    requires
        start <= bytes@.len(),
    ensures
        r as int == quote_close(bytes@, quote, start as int),
        start <= r <= bytes@.len(),
{
    let mut index = start;
    while index < bytes.len()
        invariant
            start <= index,
            quote_close(bytes@, quote, index as int) == quote_close(bytes@, quote, start as int),
            index <= bytes@.len() + 1,
        decreases bytes@.len() - index,
    {
        let c = bytes[index];
        if c == 0x5c {
            if bytes.len() - index <= 2 {
                return bytes.len();
            }
            index = index + 2;
        } else if c == quote {
            return index + 1;
        } else {
            index = index + 1;
        }
    }
    proof {
        lemma_quote_close(bytes@, quote, index as int);
    }
    bytes.len()
}

/// The `#id` and `.class` references in a selector, with byte positions
/// shifted by `selector_offset`; references inside comments, strings and
/// attribute brackets do not count.
pub fn selector_references_in_segment(selector: &str, selector_offset: usize) -> (r: Vec<SelectorReference>)
    requires
        selector_offset + selector.spec_bytes().len() <= usize::MAX,
    ensures
        r@.map_values(|x: SelectorReference| reference_view(x)) == references_from(
            selector.spec_bytes(),
            selector_offset as int,
            0,
            0,
        ),
{
    let bytes = selector.as_bytes();
    let ghost b = bytes@;
    let ghost goal = references_from(b, selector_offset as int, 0, 0);
    proof {
        encode_utf8_valid_utf8(selector@);
    }
    let mut references: Vec<SelectorReference> = Vec::new();
    let mut offset: usize = 0;
    let mut depth: usize = 0;
    while offset < bytes.len()
        invariant
            b == bytes@,
            b == selector.spec_bytes(),
            valid_utf8(b),
            selector_offset + b.len() <= usize::MAX,
            offset <= b.len(),
            depth <= offset,
            goal == references_from(b, selector_offset as int, 0, 0),
            goal == references@.map_values(|x: SelectorReference| reference_view(x)) + references_from(
                b,
                selector_offset as int,
                offset as int,
                depth as int,
            ),
        decreases b.len() - offset,
    {
        let ghost before = references@.map_values(|x: SelectorReference| reference_view(x));
        let c = bytes[offset];
        if c == 0x2f && offset < bytes.len() - 1 && bytes[offset + 1] == 0x2a {
            let close = find_comment_close(bytes, offset + 2);
            offset = close;
        } else if c == 0x27 || c == 0x22 {
            let close = find_quote_close(bytes, c, offset + 1);
            offset = close;
        } else if c == 0x5b {
            depth = depth + 1;
            offset = offset + 1;
        } else if c == 0x5d {
            if depth > 0 {
                depth = depth - 1;
            }
            offset = offset + 1;
        } else if (c == 0x23 || c == 0x2e) && depth == 0 {
            let name_start = offset + 1;
            let name_end = scan_run_end(bytes, name_start);
            if name_start < name_end {
                proof {
                    lemma_run_end(b, name_start as int);
                    assert(is_ident_byte(b[name_end - 1]));
                    lemma_boundary_next_to_ascii(b, name_start as int);
                    lemma_boundary_next_to_ascii(b, name_end as int);
                }
                let name = match slice_text(selector, name_start, name_end) {
                    Some(t) => t.to_owned(),
                    None => String::new(),
                };
                let kind = if c == 0x23 { SelectorReferenceKind::Id } else { SelectorReferenceKind::Class };
                let reference = SelectorReference {
                    kind,
                    name,
                    start: selector_offset + offset,
                    end: selector_offset + name_end,
                };
                references.push(reference);
                proof {
                    assert(references@.map_values(|x: SelectorReference| reference_view(x)) =~= before.push(
                        reference_view(reference),
                    ));
                }
                offset = name_end;
            } else {
                offset = offset + 1;
            }
        } else {
            offset = offset + 1;
        }
    }
    proof {
        assert(references@.map_values(|x: SelectorReference| reference_view(x)) =~= goal);
    }
    references
}

/// `{` or `}`.
pub open spec fn is_brace(c: u8) -> bool {
    c == 0x7b || c == 0x7d
}

/// `,`, `{` or `}`: the bytes that end a selector.
pub open spec fn ends_selector(c: u8) -> bool {
    c == 0x2c || c == 0x7b || c == 0x7d
}

/// Position of the last brace before `i`, or -1.
pub open spec fn last_brace_before(b: Seq<u8>, i: int) -> int
    decreases i,
{
    if i <= 0 || i > b.len() {
        -1
    } else if is_brace(b[i - 1]) {
        i - 1
    } else {
        last_brace_before(b, i - 1)
    }
}

/// Position of the last selector end before `i`, or -1.
pub open spec fn last_selector_end_before(b: Seq<u8>, i: int) -> int
    decreases i,
{
    if i <= 0 || i > b.len() {
        -1
    } else if ends_selector(b[i - 1]) {
        i - 1
    } else {
        last_selector_end_before(b, i - 1)
    }
}

/// Position of the first selector end at or after `i`, or the length.
pub open spec fn first_selector_end_from(b: Seq<u8>, i: int) -> int
    decreases b.len() - i,
{
    if i < 0 || i >= b.len() {
        b.len() as int
    } else if ends_selector(b[i]) {
        i
    } else {
        first_selector_end_from(b, i + 1)
    }
}

/// Some byte in `lo..hi` is a colon.
pub open spec fn has_colon(b: Seq<u8>, lo: int, hi: int) -> bool {
    exists|k: int| lo <= k < hi && #[trigger] b[k] == 0x3a
}

/// Characters with the Unicode `White_Space` property.
pub open spec fn is_unicode_white_space(c: char) -> bool {
    let v = c as u32;
    (0x09 <= v <= 0x0d) || v == 0x20 || v == 0x85 || v == 0xa0 || v == 0x1680 || (0x2000 <= v <= 0x200a)
        || v == 0x2028 || v == 0x2029 || v == 0x202f || v == 0x205f || v == 0x3000
}

/// The text is empty or only white space.
pub open spec fn is_blank(chars: Seq<char>) -> bool {
    forall|i: int| 0 <= i < chars.len() ==> is_unicode_white_space(#[trigger] chars[i])
}

/// Byte range of the selector around `offset`: from after the last `,`,
/// `{` or `}` before it to the next one; none inside a declaration block
/// (a colon since the last brace) or when the selector is blank.
pub open spec fn selector_segment(b: Seq<u8>, offset: int) -> Option<(int, int)> {
    let rule_start = last_brace_before(b, offset) + 1;
    let start = last_selector_end_before(b, offset) + 1;
    let end = first_selector_end_from(b, offset);
    if has_colon(b, rule_start, offset) {
        None
    } else if is_blank(decode_utf8(b.subrange(start, end))) {
        None
    } else {
        Some((start, end))
    }
}

/// The reference under `offset` (its range includes both ends) in the
/// selector around `offset`.
pub open spec fn spec_selector_reference_at(b: Seq<u8>, offset: int) -> Option<
    (SelectorReferenceKind, Seq<u8>, int, int),
> {
    match selector_segment(b, offset) {
        None => None,
        Some((start, end)) => crate::seq_util::first_where(
            references_from(b.subrange(start, end), start, 0, 0),
            |r: (SelectorReferenceKind, Seq<u8>, int, int)| r.2 <= offset <= r.3,
        ),
    }
}

pub(crate) fn white_space_char(c: char) -> (r: bool)
    ensures
        r == is_unicode_white_space(c),
{
    let v = c as u32;
    (v >= 0x09 && v <= 0x0d) || v == 0x20 || v == 0x85 || v == 0xa0 || v == 0x1680 || (v >= 0x2000 && v
        <= 0x200a) || v == 0x2028 || v == 0x2029 || v == 0x202f || v == 0x205f || v == 0x3000
}

pub(crate) fn blank_text(text: &str) -> (r: bool)
    ensures
        r == is_blank(text@),
{
    let n = text.unicode_len();
    let mut i: usize = 0;
    while i < n
        invariant
            n == text@.len(),
            i <= n,
            forall|k: int| 0 <= k < i ==> is_unicode_white_space(#[trigger] text@[k]),
        decreases n - i,
    {
        if !white_space_char(text.get_char(i)) {
            return false;
        }
        i = i + 1;
    }
    true
}

pub(crate) fn scan_last_brace(bytes: &[u8], offset: usize) -> (r: Option<usize>)
    requires
        offset <= bytes@.len(),
    ensures
        match r {
            Some(i) => last_brace_before(bytes@, offset as int) == i as int && i < offset,
            None => last_brace_before(bytes@, offset as int) == -1,
        },
{
    let mut i = offset;
    while i > 0
        invariant
            i <= offset <= bytes@.len(),
            last_brace_before(bytes@, i as int) == last_brace_before(bytes@, offset as int),
        decreases i,
    {
        if bytes[i - 1] == 0x7b || bytes[i - 1] == 0x7d {
            return Some(i - 1);
        }
        i = i - 1;
    }
    None
}

pub(crate) fn scan_last_selector_end(bytes: &[u8], offset: usize) -> (r: Option<usize>)
    requires
        offset <= bytes@.len(),
    ensures
        match r {
            Some(i) => last_selector_end_before(bytes@, offset as int) == i as int && i < offset
                && ends_selector(bytes@[i as int]),
            None => last_selector_end_before(bytes@, offset as int) == -1,
        },
{
    let mut i = offset;
    while i > 0
        invariant
            i <= offset <= bytes@.len(),
            last_selector_end_before(bytes@, i as int) == last_selector_end_before(bytes@, offset as int),
        decreases i,
    {
        let c = bytes[i - 1];
        if c == 0x2c || c == 0x7b || c == 0x7d {
            return Some(i - 1);
        }
        i = i - 1;
    }
    None
}

fn scan_first_selector_end(bytes: &[u8], offset: usize) -> (r: usize)
    requires
        offset <= bytes@.len(),
    ensures
        r as int == first_selector_end_from(bytes@, offset as int),
        offset <= r <= bytes@.len(),
        r < bytes@.len() ==> ends_selector(bytes@[r as int]),
{
    let mut i = offset;
    while i < bytes.len()
        invariant
            offset <= i <= bytes@.len(),
            first_selector_end_from(bytes@, i as int) == first_selector_end_from(bytes@, offset as int),
        decreases bytes@.len() - i,
    {
        let c = bytes[i];
        if c == 0x2c || c == 0x7b || c == 0x7d {
            return i;
        }
        i = i + 1;
    }
    bytes.len()
}

pub(crate) fn colon_between(bytes: &[u8], lo: usize, hi: usize) -> (r: bool)
    requires
        hi <= bytes@.len(),
    ensures
        r == has_colon(bytes@, lo as int, hi as int),
{
    let mut k = lo;
    while k < hi
        invariant
            lo <= k,
            hi <= bytes@.len(),
            forall|j: int| lo <= j < k ==> #[trigger] bytes@[j] != 0x3a,
        decreases hi - k,
    {
        if bytes[k] == 0x3a {
            return true;
        }
        k = k + 1;
    }
    false
}

/// The `#id` or `.class` reference under byte `offset`, in the selector
/// around it.
pub fn selector_reference_at_offset(source: &str, offset: usize) -> (r: Option<SelectorReference>)
    requires
        offset <= source.spec_bytes().len(),
        is_char_boundary(source.spec_bytes(), offset as int),
    ensures
        match r {
            Some(x) => spec_selector_reference_at(source.spec_bytes(), offset as int) == Some(reference_view(x)),
            None => spec_selector_reference_at(source.spec_bytes(), offset as int) is None,
        },
{
    let bytes = source.as_bytes();
    let ghost b = bytes@;
    proof {
        encode_utf8_valid_utf8(source@);
    }
    let rule_start = match scan_last_brace(bytes, offset) {
        Some(i) => i + 1,
        None => 0,
    };
    let start = match scan_last_selector_end(bytes, offset) {
        Some(i) => i + 1,
        None => 0,
    };
    let end = scan_first_selector_end(bytes, offset);
    if colon_between(bytes, rule_start, offset) {
        return None;
    }
    proof {
        lemma_boundary_next_to_ascii(b, start as int);
        lemma_boundary_next_to_ascii(b, end as int);
    }
    let text = match slice_text(source, start, end) {
        Some(t) => t,
        None => {
            return None;
        },
    };
    proof {
        vstd::utf8::encode_utf8_decode_utf8(text@);
    }
    if blank_text(text) {
        return None;
    }
    let references = selector_references_in_segment(text, start);
    let ghost views = references@.map_values(|x: SelectorReference| reference_view(x));
    let ghost p = |r: (SelectorReferenceKind, Seq<u8>, int, int)| r.2 <= offset as int <= r.3;
    proof {
        crate::seq_util::lemma_first_index(views, p);
        assert(selector_segment(b, offset as int) == Some((start as int, end as int)));
        assert(views == references_from(b.subrange(start as int, end as int), start as int, 0, 0));
    }
    let mut i: usize = 0;
    while i < references.len()
        invariant
            views == references@.map_values(|x: SelectorReference| reference_view(x)),
            p == (|r: (SelectorReferenceKind, Seq<u8>, int, int)| r.2 <= offset as int <= r.3),
            spec_selector_reference_at(source.spec_bytes(), offset as int) == crate::seq_util::first_where(views, p),
            i <= references@.len(),
            forall|k: int| 0 <= k < i ==> !p(#[trigger] views[k]),
        decreases references@.len() - i,
    {
        if references[i].start <= offset && offset <= references[i].end {
            proof {
                assert(p(views[i as int]));
                crate::seq_util::lemma_first_index(views, p);
            }
            return Some(references[i].clone());
        }
        i = i + 1;
    }
    None
}

} // verus!
