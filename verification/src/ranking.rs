//! Fuzzy ranking of completion and symbol candidates against a query.
use vstd::prelude::*;
use vstd::string::*;
use vstd::utf8::*;

use crate::syntax::is_unicode_white_space;

verus! {

/// Position of the first character that is not white space (or the length).
pub open spec fn trim_start(s: Seq<char>, i: int) -> int
    decreases s.len() - i,
{
    if 0 <= i < s.len() && is_unicode_white_space(s[i]) {
        trim_start(s, i + 1)
    } else {
        i
    }
}

/// Position after the last character before `i` that is not white space,
/// no lower than `lo`.
pub open spec fn trim_end(s: Seq<char>, lo: int, i: int) -> int
    decreases i,
{
    if 0 <= lo < i <= s.len() && is_unicode_white_space(s[i - 1]) {
        trim_end(s, lo, i - 1)
    } else {
        i
    }
}

/// The text without leading and trailing white space.
pub open spec fn trimmed(s: Seq<char>) -> Seq<char> {
    let a = trim_start(s, 0);
    s.subrange(a, trim_end(s, a, s.len() as int))
}

pub open spec fn ascii_lower(c: u8) -> u8 {
    if 0x41 <= c <= 0x5a {
        (c + 0x20) as u8
    } else {
        c
    }
}

/// The UTF-8 bytes of the trimmed text with ASCII letters lowered.
pub open spec fn folded(s: Seq<char>) -> Seq<u8> {
    encode_utf8(trimmed(s)).map_values(|c: u8| ascii_lower(c))
}

pub open spec fn is_prefix_of(p: Seq<u8>, s: Seq<u8>) -> bool {
    p.len() <= s.len() && s.subrange(0, p.len() as int) == p
}

pub open spec fn occurs_in(p: Seq<u8>, s: Seq<u8>) -> bool {
    exists|k: int| 0 <= k && k + p.len() <= s.len() && #[trigger] s.subrange(k, k + p.len()) == p
}

/// `-`, `_`, space and `.`: the bytes that split a name into segments.
pub open spec fn is_separator(c: u8) -> bool {
    c == 0x2d || c == 0x5f || c == 0x20 || c == 0x2e
}

/// Some segment of `s` (split at separators) starts with `p`.
pub open spec fn some_segment_starts_with(p: Seq<u8>, s: Seq<u8>) -> bool {
    &&& forall|i: int| 0 <= i < p.len() ==> !is_separator(#[trigger] p[i])
    &&& (is_prefix_of(p, s) || exists|k: int|
        0 <= k < s.len() && is_separator(#[trigger] s[k]) && is_prefix_of(p, s.subrange(k + 1, s.len() as int)))
}

/// The bytes of `q` from `qi` on occur in order in `c` from `ci` on, each
/// matched to the first fitting byte.
pub open spec fn in_order(q: Seq<u8>, c: Seq<u8>, qi: int, ci: int) -> bool
    decreases q.len() - qi, c.len() - ci,
{
    if qi >= q.len() {
        true
    } else if ci < 0 || ci >= c.len() {
        false
    } else if c[ci] == q[qi] {
        in_order(q, c, qi + 1, ci + 1)
    } else {
        in_order(q, c, qi, ci + 1)
    }
}

/// Ten points per query byte when the query's bytes occur in order in the
/// candidate, else a penalty of a thousand.
pub open spec fn spec_subsequence_score(q: Seq<u8>, c: Seq<u8>) -> int {
    if in_order(q, c, 0, 0) {
        10 * q.len() as int
    } else {
        -1000
    }
}

/// How many bytes of `q` from `qi` on are matched, each to the first
/// fitting byte of `c` from `ci` on, before one finds no match.
pub open spec fn matched_count(q: Seq<u8>, c: Seq<u8>, qi: int, ci: int) -> int
    decreases q.len() - qi, c.len() - ci,
{
    if qi >= q.len() || ci < 0 || ci >= c.len() {
        0
    } else if c[ci] == q[qi] {
        1 + matched_count(q, c, qi + 1, ci + 1)
    } else {
        matched_count(q, c, qi, ci + 1)
    }
}

/// The bonuses for a prefix, a segment prefix and a substring.
pub open spec fn similarity_bonus(q: Seq<u8>, c: Seq<u8>) -> int {
    (if is_prefix_of(q, c) { 5000int } else { 0int }) + (if some_segment_starts_with(q, c) {
        6000int
    } else {
        0int
    }) + (if occurs_in(q, c) { 2000int } else { 0int })
}

/// The score is reckoned in `i32` without overflow: the lengths fit in
/// `i32`, and neither the running subsequence score, nor the bonuses with
/// it, nor the result after the length difference leaves the `i32` range.
pub open spec fn similarity_fits(query: Seq<char>, candidate: Seq<char>) -> bool {
    let q = folded(query);
    let c = folded(candidate);
    &&& q.len() <= i32::MAX
    &&& c.len() <= i32::MAX
    &&& (q.len() > 0 && q != c) ==> {
        &&& 10 * matched_count(q, c, 0, 0) <= i32::MAX
        &&& similarity_bonus(q, c) + spec_subsequence_score(q, c) <= i32::MAX
        &&& i32::MIN <= spec_similarity(query, candidate)
    }
}

/// How well `candidate` matches `query` after trimming and lowering ASCII
/// letters: 0 for an empty query, 10 000 for an equal one, else bonuses
/// for a prefix (5 000), a segment prefix (6 000) and a substring (2 000),
/// plus the subsequence score, minus the difference in length.
pub open spec fn spec_similarity(query: Seq<char>, candidate: Seq<char>) -> int {
    let q = folded(query);
    let c = folded(candidate);
    if q.len() == 0 {
        0
    } else if q == c {
        10000
    } else {
        (if is_prefix_of(q, c) { 5000int } else { 0int }) + (if some_segment_starts_with(q, c) {
            6000int
        } else {
            0int
        }) + (if occurs_in(q, c) { 2000int } else { 0int }) + spec_subsequence_score(q, c) - (if c.len()
            >= q.len() {
            c.len() - q.len()
        } else {
            q.len() - c.len()
        })
    }
}

pub(crate) fn trimmed_str(s: &str) -> (r: &str)
    ensures
        r@ == trimmed(s@),
{
    let n = s.unicode_len();
    let mut a: usize = 0;
    while a < n && crate::syntax::white_space_char(s.get_char(a))
        invariant
            n == s@.len(),
            a <= n,
            trim_start(s@, a as int) == trim_start(s@, 0),
        decreases n - a,
    {
        a = a + 1;
    }
    let mut b: usize = n;
    while b > a && crate::syntax::white_space_char(s.get_char(b - 1))
        invariant
            n == s@.len(),
            a <= b <= n,
            a as int == trim_start(s@, 0),
            trim_end(s@, a as int, b as int) == trim_end(s@, a as int, n as int),
        decreases b,
    {
        b = b - 1;
    }
    proof {
        lemma_trim_end_bounds(s@, a as int, n as int);
    }
    s.substring_char(a, b)
}

fn fold(s: &str) -> (r: Vec<u8>)
    ensures
        r@ == folded(s@),
{
    let t = trimmed_str(s);
    let bytes = t.as_bytes();
    let mut out: Vec<u8> = Vec::new();
    let mut i: usize = 0;
    while i < bytes.len()
        invariant
            bytes@ == encode_utf8(trimmed(s@)),
            i <= bytes@.len(),
            out@ == bytes@.take(i as int).map_values(|c: u8| ascii_lower(c)),
        decreases bytes@.len() - i,
    {
        let c = bytes[i];
        let lowered = if c >= 0x41 && c <= 0x5a { c + 0x20 } else { c };
        out.push(lowered);
        proof {
            assert(bytes@.take(i + 1).map_values(|c: u8| ascii_lower(c)) =~= bytes@.take(i as int).map_values(
                |c: u8| ascii_lower(c),
            ).push(ascii_lower(c)));
        }
        i = i + 1;
    }
    proof {
        assert(bytes@.take(bytes@.len() as int) =~= bytes@);
    }
    out
}

fn matches_at(p: &Vec<u8>, s: &Vec<u8>, k: usize) -> (r: bool)
    requires
        k <= s@.len(),
    ensures
        r == (k + p@.len() <= s@.len() && s@.subrange(k as int, k + p@.len()) == p@),
{
    let n = s.len();
    if p.len() > n - k {
        return false;
    }
    let mut i: usize = 0;
    while i < p.len()
        invariant
            n == s@.len(),
            k <= s@.len(),
            k + p@.len() <= s@.len(),
            i <= p@.len(),
            forall|j: int| 0 <= j < i ==> #[trigger] p@[j] == s@[k + j],
        decreases p@.len() - i,
    {
        if p[i] != s[k + i] {
            proof {
                assert(s@.subrange(k as int, k + p@.len())[i as int] != p@[i as int]);
            }
            return false;
        }
        i = i + 1;
    }
    proof {
        assert(s@.subrange(k as int, k + p@.len()) =~= p@);
    }
    true
}

fn same_bytes(a: &Vec<u8>, b: &Vec<u8>) -> (r: bool)
    ensures
        r == (a@ == b@),
{
    if a.len() != b.len() {
        return false;
    }
    let r = matches_at(a, b, 0);
    proof {
        if r {
            assert(b@.subrange(0, a@.len() as int) =~= b@);
        } else {
            assert(b@.subrange(0, a@.len() as int) =~= b@);
        }
    }
    r
}

fn contains_bytes(p: &Vec<u8>, s: &Vec<u8>) -> (r: bool)
    ensures
        r == occurs_in(p@, s@),
{
    if p.len() > s.len() {
        return false;
    }
    let last = s.len() - p.len();
    let mut k: usize = 0;
    while k <= last
        invariant
            last + p@.len() == s@.len(),
            forall|j: int| 0 <= j < k ==> #[trigger] s@.subrange(j, j + p@.len()) != p@,
        decreases last + 1 - k,
    {
        if matches_at(p, s, k) {
            return true;
        }
        if k == last {
            return false;
        }
        k = k + 1;
    }
    false
}

fn separator(c: u8) -> (r: bool)
    ensures
        r == is_separator(c),
{
    c == 0x2d || c == 0x5f || c == 0x20 || c == 0x2e
}

fn segment_starts_with(p: &Vec<u8>, s: &Vec<u8>) -> (r: bool)
    ensures
        r == some_segment_starts_with(p@, s@),
{
    let mut i: usize = 0;
    while i < p.len()
        invariant
            i <= p@.len(),
            forall|j: int| 0 <= j < i ==> !is_separator(#[trigger] p@[j]),
        decreases p@.len() - i,
    {
        if separator(p[i]) {
            return false;
        }
        i = i + 1;
    }
    if matches_at(p, s, 0) {
        proof {
            assert(is_prefix_of(p@, s@));
            assert(forall|j: int| 0 <= j < p@.len() ==> !is_separator(#[trigger] p@[j]));
        }
        return true;
    }
    let mut k: usize = 0;
    while k < s.len()
        invariant
            !is_prefix_of(p@, s@),
            forall|j: int| 0 <= j < p@.len() ==> !is_separator(#[trigger] p@[j]),
            k <= s@.len(),
            forall|j: int|
                0 <= j < k && is_separator(#[trigger] s@[j]) ==> !is_prefix_of(p@, s@.subrange(j + 1, s@.len() as int)),
        decreases s@.len() - k,
    {
        if separator(s[k]) {
            let m = matches_at(p, s, k + 1);
            proof {
                let rest = s@.subrange(k + 1, s@.len() as int);
                if p@.len() <= rest.len() {
                    assert(rest.subrange(0, p@.len() as int) =~= s@.subrange(k + 1, k + 1 + p@.len()));
                }
            }
            if m {
                proof {
                    assert(is_separator(s@[k as int]));
                    assert(is_prefix_of(p@, s@.subrange(k + 1, s@.len() as int)));
                }
                return true;
            }
        }
        k = k + 1;
    }
    false
}

fn subsequence_score(q: &Vec<u8>, c: &Vec<u8>) -> (r: i64)
    requires
        q@.len() <= i32::MAX,
    ensures
        r as int == spec_subsequence_score(q@, c@),
{
    let mut score: i64 = 0;
    let mut ci: usize = 0;
    let mut qi: usize = 0;
    while qi < q.len()
        invariant
            q@.len() <= i32::MAX,
            qi <= q@.len(),
            ci <= c@.len(),
            score == 10 * qi,
            in_order(q@, c@, 0, 0) == in_order(q@, c@, qi as int, ci as int),
        decreases q@.len() - qi,
    {
        let mut matched = false;
        while ci < c.len()
            invariant_except_break
                !matched,
            invariant
                qi < q@.len(),
                ci <= c@.len(),
                !matched ==> in_order(q@, c@, 0, 0) == in_order(q@, c@, qi as int, ci as int),
                matched ==> in_order(q@, c@, 0, 0) == in_order(q@, c@, qi + 1, ci as int),
            ensures
                !matched ==> in_order(q@, c@, 0, 0) == in_order(q@, c@, qi as int, ci as int) && ci == c@.len(),
                matched ==> in_order(q@, c@, 0, 0) == in_order(q@, c@, qi + 1, ci as int),
            decreases c@.len() - ci,
        {
            if c[ci] == q[qi] {
                matched = true;
                ci = ci + 1;
                break;
            }
            ci = ci + 1;
        }
        if !matched {
            return -1000;
        }
        score = score + 10;
        qi = qi + 1;
    }
    score
}

/// How well `candidate` matches `query`; higher is better.
pub fn similarity_score(query: &str, candidate: &str) -> (r: i32)
    requires
        similarity_fits(query@, candidate@),
    ensures
        r as int == spec_similarity(query@, candidate@),
{
    let q = fold(query);
    let c = fold(candidate);
    proof {
        lemma_folded_len(query@);
        lemma_folded_len(candidate@);
    }
    if q.len() == 0 {
        return 0;
    }
    if same_bytes(&q, &c) {
        return 10000;
    }
    let mut score: i64 = 0;
    if matches_at(&q, &c, 0) {
        score = score + 5000;
    }
    if segment_starts_with(&q, &c) {
        score = score + 6000;
    }
    if contains_bytes(&q, &c) {
        score = score + 2000;
    }
    score = score + subsequence_score(&q, &c);
    let ql = q.len() as i64;
    let cl = c.len() as i64;
    if cl >= ql {
        score = score - (cl - ql);
    } else {
        score = score - (ql - cl);
    }
    score as i32
}

pub proof fn lemma_encode_concat(x: Seq<char>, y: Seq<char>)
    ensures
        encode_utf8(x + y) == encode_utf8(x) + encode_utf8(y),
    decreases x.len(),
{
    if x.len() == 0 {
        assert(x + y =~= y);
        assert(encode_utf8(x) =~= Seq::<u8>::empty());
        assert(encode_utf8(x) + encode_utf8(y) =~= encode_utf8(y));
    } else {
        assert((x + y).drop_first() =~= x.drop_first() + y);
        assert((x + y)[0] == x[0]);
        lemma_encode_concat(x.drop_first(), y);
        assert(encode_utf8(x + y) =~= encode_utf8(x) + encode_utf8(y));
    }
}

/// Trimming and lowering never lengthen the text's bytes.
pub proof fn lemma_folded_len(s: Seq<char>)
    ensures
        folded(s).len() <= encode_utf8(s).len(),
{
    let a = trim_start(s, 0);
    let b = trim_end(s, a, s.len() as int);
    lemma_trim_bounds(s, 0);
    lemma_trim_end_bounds(s, a, s.len() as int);
    let x = s.subrange(0, a);
    let y = s.subrange(a, b);
    let z = s.subrange(b, s.len() as int);
    assert(s =~= x + y + z);
    lemma_encode_concat(x + y, z);
    lemma_encode_concat(x, y);
}

pub(crate) proof fn lemma_trim_bounds(s: Seq<char>, i: int)
    requires
        0 <= i <= s.len(),
    ensures
        i <= trim_start(s, i) <= s.len(),
    decreases s.len() - i,
{
    if i < s.len() && is_unicode_white_space(s[i]) {
        lemma_trim_bounds(s, i + 1);
    }
}

pub(crate) proof fn lemma_trim_end_bounds(s: Seq<char>, lo: int, i: int)
    requires
        0 <= lo <= i <= s.len(),
    ensures
        lo <= trim_end(s, lo, i) <= i,
    decreases i,
{
    if lo < i && is_unicode_white_space(s[i - 1]) {
        lemma_trim_end_bounds(s, lo, i - 1);
    }
}


/// The greedy in-order match succeeds whenever the rest of `q` occurs
/// contiguously in `c` at or after `ci`.
proof fn lemma_in_order_of_occurrence(q: Seq<u8>, c: Seq<u8>, qi: int, ci: int, at: int)
    requires
        0 <= qi <= q.len(),
        0 <= ci <= at,
        at + (q.len() - qi) <= c.len(),
        c.subrange(at, at + (q.len() - qi)) == q.subrange(qi, q.len() as int),
    ensures
        in_order(q, c, qi, ci),
    decreases q.len() - qi, c.len() - ci,
{
    if qi < q.len() {
        let n = q.len() - qi;
        assert(c[at] == c.subrange(at, at + n)[0]);
        assert(q[qi] == q.subrange(qi, q.len() as int)[0]);
        if c[ci] == q[qi] {
            assert forall|j: int| 0 <= j < n - 1 implies #[trigger] c.subrange(at + 1, at + n)[j] == q.subrange(
                qi + 1,
                q.len() as int,
            )[j] by {
                assert(c.subrange(at, at + n)[j + 1] == q.subrange(qi, q.len() as int)[j + 1]);
            }
            assert(c.subrange(at + 1, at + n) =~= q.subrange(qi + 1, q.len() as int));
            lemma_in_order_of_occurrence(q, c, qi + 1, ci + 1, at + 1);
        } else {
            assert(ci != at);
            lemma_in_order_of_occurrence(q, c, qi, ci + 1, at);
        }
    }
}

/// The four bytes that split a candidate into segments: `-`, `_`, space
/// and `.`.
pub open spec fn splits_segments(b: u8) -> bool {
    b == 0x2d || b == 0x5f || b == 0x20 || b == 0x2e
}

/// A candidate whose last segment, after any one of `-`, `_`, space or
/// `.`, is the query scores at least the segment bonus (6000), the
/// substring bonus (2000) and ten per query byte, less the difference in
/// length.
pub proof fn lemma_segment_match_scores_high(query: Seq<char>, candidate: Seq<char>, head: Seq<u8>, sep: u8)
    requires
        folded(query).len() > 0,
        forall|i: int| 0 <= i < folded(query).len() ==> !splits_segments(#[trigger] folded(query)[i]),
        splits_segments(sep),
        folded(candidate) == head + seq![sep] + folded(query),
    ensures
        spec_similarity(query, candidate) >= 8000 + 10 * folded(query).len() - (folded(candidate).len()
            - folded(query).len()),
{
    let q = folded(query);
    let c = folded(candidate);
    let k = head.len() as int;
    assert(c.len() == k + 1 + q.len());
    assert(q != c);
    assert(c[k] == sep);
    assert(c.subrange(k + 1, c.len() as int) =~= q);
    assert(is_prefix_of(q, c.subrange(k + 1, c.len() as int))) by {
        assert(c.subrange(k + 1, c.len() as int).subrange(0, q.len() as int) =~= q);
    }
    assert(some_segment_starts_with(q, c));
    assert(c.subrange(k + 1, k + 1 + q.len()) =~= q);
    assert(occurs_in(q, c));
    assert(q.subrange(0, q.len() as int) =~= q);
    lemma_in_order_of_occurrence(q, c, 0, 0, k + 1);
}

} // verus!
