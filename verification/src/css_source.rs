//! Positions in stylesheet text: byte offsets mapped to one-based lines and
//! columns (columns count characters), and the white space around a text.
use vstd::prelude::*;
use vstd::string::*;
use vstd::utf8::*;

use crate::ranking::{trim_end, trim_start};
use crate::syntax::lemma_boundary_next_to_ascii;

verus! {

/// A range of one-based lines and columns.
#[derive(Debug, Clone, Copy, PartialEq, Eq, Default)]
pub struct CssRange {
    pub start_line: u32,
    pub start_column: u32,
    pub end_line: u32,
    pub end_column: u32,
}

impl CssRange {
    /// From the first character of the first line to the end of any text.
    pub fn whole_document() -> (r: Self)
        ensures
            r.start_line == 1 && r.start_column == 1,
            r.end_line == u32::MAX && r.end_column == u32::MAX,
    {
        CssRange { start_line: 1, start_column: 1, end_line: u32::MAX, end_column: u32::MAX }
    }
}

/// Bytes of leading white space.
pub open spec fn spec_leading_trimmed_len(s: Seq<char>) -> int {
    encode_utf8(s.subrange(0, trim_start(s, 0))).len() as int
}

/// Bytes of trailing white space.
pub open spec fn spec_trailing_trimmed_len(s: Seq<char>) -> int {
    encode_utf8(s.subrange(trim_end(s, 0, s.len() as int), s.len() as int)).len() as int
}

/// Number of bytes of white space at the start of `input`.
pub fn leading_trimmed_len(input: &str) -> (r: usize)
    ensures
        r as int == spec_leading_trimmed_len(input@),
{
    let n = input.unicode_len();
    let mut a: usize = 0;
    while a < n && crate::syntax::white_space_char(input.get_char(a))
        invariant
            n == input@.len(),
            a <= n,
            trim_start(input@, a as int) == trim_start(input@, 0),
        decreases n - a,
    {
        a = a + 1;
    }
    let head = input.substring_char(0, a);
    head.as_bytes().len()
}

/// Number of bytes of white space at the end of `input`.
pub fn trailing_trimmed_len(input: &str) -> (r: usize)
    ensures
        r as int == spec_trailing_trimmed_len(input@),
{
    let n = input.unicode_len();
    let mut b: usize = n;
    while b > 0 && crate::syntax::white_space_char(input.get_char(b - 1))
        invariant
            n == input@.len(),
            b <= n,
            trim_end(input@, 0, b as int) == trim_end(input@, 0, n as int),
        decreases b,
    {
        b = b - 1;
    }
    let tail = input.substring_char(b, n);
    tail.as_bytes().len()
}

/// Offsets at which the lines of `b` start among its first `n` bytes:
/// zero, then one past each line feed.
pub open spec fn line_starts_upto(b: Seq<u8>, n: int) -> Seq<usize>
    decreases n,
{
    if n <= 0 {
        seq![0usize]
    } else if b[n - 1] == 0x0a {
        line_starts_upto(b, n - 1).push(n as usize)
    } else {
        line_starts_upto(b, n - 1)
    }
}

pub open spec fn line_starts_of(b: Seq<u8>) -> Seq<usize> {
    line_starts_upto(b, b.len() as int)
}

/// Index of the last line start at or before `offset` among the first `n`.
pub open spec fn line_of(starts: Seq<usize>, offset: int, n: int) -> int
    decreases n,
{
    if n <= 0 {
        0
    } else if starts[n - 1] <= offset {
        n - 1
    } else {
        line_of(starts, offset, n - 1)
    }
}

/// The one-based line and column of byte `offset`: the line is the number
/// of line starts up to the offset, the column one more than the number of
/// characters between the line's start and the offset.
pub open spec fn spec_position(b: Seq<u8>, offset: int) -> (int, int) {
    let starts = line_starts_of(b);
    let line = line_of(starts, offset, starts.len() as int);
    let start = starts[line] as int;
    (line + 1, decode_utf8(b.subrange(start, offset)).len() as int + 1)
}

/// Maps byte offsets of a text to lines and columns.
pub struct SourceMap<'a> {
    source: &'a str,
    line_starts: Vec<usize>,
}

pub proof fn lemma_line_starts(b: Seq<u8>, n: int)
    requires
        0 <= n <= b.len(),
        b.len() <= usize::MAX,
    ensures
        line_starts_upto(b, n).len() >= 1,
        line_starts_upto(b, n)[0] == 0,
        forall|k: int| 0 <= k < line_starts_upto(b, n).len() ==> #[trigger] line_starts_upto(b, n)[k] <= n,
        forall|k: int|
            0 < k < line_starts_upto(b, n).len() ==> #[trigger] b[line_starts_upto(b, n)[k] - 1] == 0x0a,
        line_starts_upto(b, n).len() <= n + 1,
    decreases n,
{
    if n > 0 {
        lemma_line_starts(b, n - 1);
        let prev = line_starts_upto(b, n - 1);
        if b[n - 1] == 0x0a {
            let cur = prev.push(n as usize);
            assert forall|k: int| 0 < k < cur.len() implies #[trigger] b[cur[k] - 1] == 0x0a by {
                if k == prev.len() {
                    assert(cur[k] as int == n);
                } else {
                    assert(cur[k] == prev[k]);
                    assert(b[prev[k] - 1] == 0x0a);
                }
            }
        }
    }
}

impl<'a> SourceMap<'a> {
    #[verifier::type_invariant]
    spec fn consistent(self) -> bool {
        self.line_starts@ == line_starts_of(self.source.spec_bytes())
    }

    /// The text being mapped.
    pub closed spec fn text(self) -> &'a str {
        self.source
    }

    pub fn new(source: &'a str) -> (r: Self)
        ensures
            r.text() == source,
    {
        let bytes = source.as_bytes();
        let mut line_starts: Vec<usize> = Vec::new();
        line_starts.push(0);
        let mut i: usize = 0;
        while i < bytes.len()
            invariant
                bytes@ == source.spec_bytes(),
                i <= bytes@.len(),
                line_starts@ == line_starts_upto(bytes@, i as int),
            decreases bytes@.len() - i,
        {
            if bytes[i] == 0x0a {
                line_starts.push(i + 1);
            }
            i = i + 1;
        }
        SourceMap { source, line_starts }
    }

    /// One-based line and column of byte `offset`.
    pub fn position(&self, offset: usize) -> (r: (u32, u32))
        requires
            offset <= self.text().spec_bytes().len(),
            is_char_boundary(self.text().spec_bytes(), offset as int),
            self.text().spec_bytes().len() < u32::MAX,
        ensures
            (r.0 as int, r.1 as int) == spec_position(self.text().spec_bytes(), offset as int),
    {
        proof {
            use_type_invariant(self);
        }
        let ghost b = self.source.spec_bytes();
        let ghost starts = self.line_starts@;
        proof {
            lemma_line_starts(b, b.len() as int);
            encode_utf8_valid_utf8(self.source@);
        }
        let mut k: usize = self.line_starts.len();
        while k > 1 && self.line_starts[k - 1] > offset
            invariant
                starts == self.line_starts@,
                starts == line_starts_of(b),
                starts.len() >= 1,
                starts[0] == 0,
                1 <= k <= starts.len(),
                line_of(starts, offset as int, k as int) == line_of(starts, offset as int, starts.len() as int),
            decreases k,
        {
            k = k - 1;
        }
        let line = k - 1;
        proof {
            if k == 1 {
                assert(line_of(starts, offset as int, 1) == 0);
            }
        }
        let start = self.line_starts[line];
        proof {
            assert(start <= offset);
            if line > 0 {
                assert(b[start - 1] == 0x0a);
            }
            lemma_boundary_next_to_ascii(b, start as int);
        }
        let text = match crate::syntax::slice_text(self.source, start, offset) {
            Some(t) => t,
            None => {
                return (0, 0);
            },
        };
        proof {
            encode_utf8_decode_utf8(text@);
            assert(text@.len() <= text.spec_bytes().len()) by {
                lemma_chars_within_bytes(text@);
            }
        }
        let column = text.unicode_len();
        ((line + 1) as u32, (column + 1) as u32)
    }

    /// The range between byte offsets `start` and `end`.
    pub fn range(&self, start: usize, end: usize) -> (r: CssRange)
        requires
            start <= self.text().spec_bytes().len(),
            end <= self.text().spec_bytes().len(),
            is_char_boundary(self.text().spec_bytes(), start as int),
            is_char_boundary(self.text().spec_bytes(), end as int),
            self.text().spec_bytes().len() < u32::MAX,
        ensures
            (r.start_line as int, r.start_column as int) == spec_position(self.text().spec_bytes(), start as int),
            (r.end_line as int, r.end_column as int) == spec_position(self.text().spec_bytes(), end as int),
    {
        let (start_line, start_column) = self.position(start);
        let (end_line, end_column) = self.position(end);
        CssRange { start_line, start_column, end_line, end_column }
    }
}

/// A text never has more characters than UTF-8 bytes.
pub proof fn lemma_chars_within_bytes(s: Seq<char>)
    ensures
        s.len() <= encode_utf8(s).len(),
    decreases s.len(),
{
    if s.len() > 0 {
        lemma_chars_within_bytes(s.drop_first());
        encode_utf8_first_scalar(s);
    }
}

/// The line found for an offset is one of the first `n` line starts, and
/// it starts at or before the offset when the first one does.
pub proof fn lemma_line_of(starts: Seq<usize>, offset: int, n: int)
    requires
        1 <= n <= starts.len(),
    ensures
        0 <= line_of(starts, offset, n) < n,
        starts[0] <= offset ==> starts[line_of(starts, offset, n)] <= offset,
    decreases n,
{
    if n > 1 && starts[n - 1] > offset {
        lemma_line_of(starts, offset, n - 1);
    } else if starts[n - 1] > offset {
        assert(line_of(starts, offset, 0) == 0);
    }
}

/// The line and column of a position are at least one and at most one
/// more than the text's length in bytes.
pub proof fn lemma_position_within(b: Seq<u8>, offset: int)
    requires
        valid_utf8(b),
        0 <= offset <= b.len(),
        is_char_boundary(b, offset),
        b.len() <= usize::MAX,
    ensures
        1 <= spec_position(b, offset).0 <= b.len() + 1,
        1 <= spec_position(b, offset).1 <= b.len() + 1,
{
    let starts = line_starts_of(b);
    lemma_line_starts(b, b.len() as int);
    lemma_line_of(starts, offset, starts.len() as int);
    let line = line_of(starts, offset, starts.len() as int);
    let start = starts[line] as int;
    if line > 0 {
        assert(b[start - 1] == 0x0a);
    }
    lemma_boundary_next_to_ascii(b, start);
    crate::cursor::lemma_boundary_within(b, start, offset, start);
    let sub = b.subrange(start, offset);
    decode_utf8_encode_utf8(sub);
    lemma_chars_within_bytes(decode_utf8(sub));
}

} // verus!
