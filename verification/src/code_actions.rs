//! Quick fixes for unknown selector names: every known id or class of the
//! project is offered as a replacement, the closest match first.
use vstd::prelude::*;
use vstd::string::*;
use vstd::utf8::*;

use crate::cursor::{first_byte_from, Range};
use crate::ranking::{similarity_fits, similarity_score, spec_similarity};
use crate::syntax::{lemma_boundary_next_to_ascii, slice_text};
use crate::text::text_eq;

verus! {

broadcast use {encode_utf8_valid_utf8, encode_utf8_decode_utf8};

/// A diagnostic as the quick fixes read it: its code when it is a text,
/// its message and the range it covers.
#[derive(Debug, Clone)]
pub struct QuickFixDiagnostic {
    pub code: Option<String>,
    pub message: String,
    pub range: Range,
}

/// A replacement of the diagnostic's range by `new_text`, offered under
/// `title`.
#[derive(Debug, Clone)]
pub struct SelectorReplacement {
    pub title: String,
    pub new_text: String,
    pub range: Range,
}

pub open spec fn replacement_view(a: SelectorReplacement) -> (Seq<char>, Seq<char>, Range) {
    (a.title@, a.new_text@, a.range)
}

pub open spec fn texts_of(v: Seq<String>) -> Seq<Seq<char>> {
    v.map_values(|s: String| s@)
}

/// `candidates` inserted one by one, each after every earlier one that
/// scores at least as well against `query`: the candidates by falling
/// score, ties in their given order.
pub open spec fn ranked(candidates: Seq<Seq<char>>, query: Seq<char>) -> Seq<Seq<char>>
    decreases candidates.len(),
{
    if candidates.len() == 0 {
        Seq::empty()
    } else {
        insert_by_score(ranked(candidates.drop_last(), query), candidates.last(), query)
    }
}

/// `c` placed after the last entry of `s` that scores at least as well.
pub open spec fn insert_by_score(s: Seq<Seq<char>>, c: Seq<char>, query: Seq<char>) -> Seq<Seq<char>>
    decreases s.len(),
{
    if s.len() == 0 {
        seq![c]
    } else if spec_similarity(query, s.last()) >= spec_similarity(query, c) {
        s.push(c)
    } else {
        insert_by_score(s.drop_last(), c, query).push(s.last())
    }
}

/// The end of the run of `x` bytes that starts at `i`, stopping at `end`.
pub open spec fn skip_byte(b: Seq<u8>, x: u8, i: int, end: int) -> int
    decreases end - i,
{
    if i < end && b[i] == x {
        skip_byte(b, x, i + 1, end)
    } else {
        i
    }
}

/// The name a message quotes: the text between its first two backticks
/// (to the end when there is one backtick, empty when there is none),
/// without the leading `marker` bytes.
pub open spec fn quoted_name_span(b: Seq<u8>, marker: u8) -> (int, int) {
    let open = first_byte_from(b, 0x60, 0);
    if open < 0 {
        (0, 0)
    } else {
        let close = first_byte_from(b, 0x60, open + 1);
        let end = if close < 0 {
            b.len() as int
        } else {
            close
        };
        (skip_byte(b, marker, open + 1, end), end)
    }
}

pub open spec fn quoted_name(b: Seq<u8>, marker: u8) -> Seq<char> {
    let (s, e) = quoted_name_span(b, marker);
    decode_utf8(b.subrange(s, e))
}

/// The replacement offering `candidate` with the selector `prefix`.
pub open spec fn replacement_for(prefix: Seq<char>, candidate: Seq<char>, range: Range) -> (
    Seq<char>,
    Seq<char>,
    Range,
) {
    ("Replace with `"@ + prefix + candidate + "`"@, prefix + candidate, range)
}

pub open spec fn replacements_for(prefix: Seq<char>, candidates: Seq<Seq<char>>, range: Range) -> Seq<
    (Seq<char>, Seq<char>, Range),
> {
    candidates.map_values(|c: Seq<char>| replacement_for(prefix, c, range))
}

/// The quick fixes of one diagnostic: for an unknown id every known id,
/// for an unknown class every known class, ranked against the name the
/// message quotes; none for any other diagnostic.
pub open spec fn diagnostic_fixes(d: QuickFixDiagnostic, ids: Seq<Seq<char>>, classes: Seq<Seq<char>>) -> Seq<
    (Seq<char>, Seq<char>, Range),
> {
    match d.code {
        Some(code) => if code@ == "unknown-selector-id"@ {
            replacements_for("#"@, ranked(ids, quoted_name(encode_utf8(d.message@), 0x23)), d.range)
        } else if code@ == "unknown-selector-class"@ {
            replacements_for("."@, ranked(classes, quoted_name(encode_utf8(d.message@), 0x2e)), d.range)
        } else {
            Seq::empty()
        },
        None => Seq::empty(),
    }
}

/// The quick fixes of every diagnostic, in the diagnostics' order.
pub open spec fn all_fixes(ds: Seq<QuickFixDiagnostic>, ids: Seq<Seq<char>>, classes: Seq<Seq<char>>) -> Seq<
    (Seq<char>, Seq<char>, Range),
>
    decreases ds.len(),
{
    if ds.len() == 0 {
        Seq::empty()
    } else {
        all_fixes(ds.drop_last(), ids, classes) + diagnostic_fixes(ds.last(), ids, classes)
    }
}

/// Inserting `c` at `p` is what `insert_by_score` does when every entry
/// from `p` on scores below `c` and the one before `p` does not.
pub proof fn lemma_insert_at(s: Seq<Seq<char>>, c: Seq<char>, query: Seq<char>, p: int)
    requires
        0 <= p <= s.len(),
        forall|k: int| p <= k < s.len() ==> spec_similarity(query, #[trigger] s[k]) < spec_similarity(query, c),
        p == 0 || spec_similarity(query, s[p - 1]) >= spec_similarity(query, c),
    ensures
        insert_by_score(s, c, query) == s.insert(p, c),
    decreases s.len(),
{
    if s.len() == 0 {
        assert(s.insert(p, c) =~= seq![c]);
    } else if p == s.len() {
        assert(s.insert(p, c) =~= s.push(c));
    } else {
        assert(spec_similarity(query, s[s.len() - 1]) < spec_similarity(query, c));
        let t = s.drop_last();
        assert forall|k: int| p <= k < t.len() implies spec_similarity(query, #[trigger] t[k]) < spec_similarity(
            query,
            c,
        ) by {
            assert(t[k] == s[k]);
        }
        if p > 0 {
            assert(t[p - 1] == s[p - 1]);
        }
        lemma_insert_at(t, c, query, p);
        assert(t.insert(p, c).push(s.last()) =~= s.insert(p, c));
    }
}

/// `candidates` by falling similarity to `query`, ties in their order.
pub fn rank_candidates(query: &str, candidates: &Vec<String>) -> (r: Vec<String>)
    requires
        forall|k: int| 0 <= k < candidates@.len() ==> similarity_fits(query@, (#[trigger] candidates@[k])@),
    ensures
        texts_of(r@) == ranked(texts_of(candidates@), query@),
{
    let ghost all = texts_of(candidates@);
    let mut out: Vec<String> = Vec::new();
    let mut scores: Vec<i32> = Vec::new();
    let mut i: usize = 0;
    while i < candidates.len()
        invariant
            i <= candidates@.len(),
            all == texts_of(candidates@),
            forall|k: int| 0 <= k < candidates@.len() ==> similarity_fits(query@, (#[trigger] candidates@[k])@),
            scores@.len() == out@.len(),
            forall|k: int| 0 <= k < out@.len() ==> #[trigger] scores@[k] == spec_similarity(query@, out@[k]@),
            texts_of(out@) == ranked(all.take(i as int), query@),
        decreases candidates@.len() - i,
    {
        let c = candidates[i].clone();
        let sc = similarity_score(query, c.as_str());
        let mut p: usize = out.len();
        while p > 0 && scores[p - 1] < sc
            invariant
                p <= out@.len(),
                scores@.len() == out@.len(),
                forall|k: int| 0 <= k < out@.len() ==> #[trigger] scores@[k] == spec_similarity(query@, out@[k]@),
                forall|k: int| p <= k < out@.len() ==> #[trigger] scores@[k] < sc,
            decreases p,
        {
            p = p - 1;
        }
        proof {
            let s = texts_of(out@);
            assert forall|k: int| p <= k < s.len() implies spec_similarity(query@, #[trigger] s[k])
                < spec_similarity(query@, c@) by {
                assert(scores@[k] < sc);
            }
            if p > 0 {
                assert(scores@[p - 1] >= sc);
            }
            lemma_insert_at(s, c@, query@, p as int);
            assert(all.take(i + 1).drop_last() =~= all.take(i as int));
            assert(all.take(i + 1).last() == c@);
        }
        let ghost before = out@;
        let ghost before_scores = scores@;
        out.insert(p, c);
        scores.insert(p, sc);
        proof {
            assert(texts_of(out@) =~= texts_of(before).insert(p as int, candidates@[i as int]@));
            assert forall|k: int| 0 <= k < out@.len() implies #[trigger] scores@[k] == spec_similarity(
                query@,
                out@[k]@,
            ) by {
                if k < p {
                    assert(scores@[k] == before_scores[k] && out@[k] == before[k]);
                } else if k > p {
                    assert(scores@[k] == before_scores[k - 1] && out@[k] == before[k - 1]);
                }
            }
        }
        i = i + 1;
    }
    assert(all.take(candidates@.len() as int) =~= all);
    out
}

/// The first `x` byte from `i` on.
fn find_byte(bytes: &[u8], x: u8, i: usize) -> (r: Option<usize>)
    ensures
        match r {
            Some(j) => j as int == first_byte_from(bytes@, x, i as int),
            None => first_byte_from(bytes@, x, i as int) < 0,
        },
{
    let mut j = i;
    while j < bytes.len()
        invariant
            i <= j,
            first_byte_from(bytes@, x, i as int) == first_byte_from(bytes@, x, j as int),
        decreases bytes@.len() - j,
    {
        if bytes[j] == x {
            return Some(j);
        }
        j = j + 1;
    }
    None
}

/// The name `message` quotes, without its leading `marker` bytes.
pub fn quoted_selector_name(message: &str, marker: u8) -> (r: &str)
    requires
        marker < 0x80,
    ensures
        r@ == quoted_name(message.spec_bytes(), marker),
        r.spec_bytes().len() <= message.spec_bytes().len(),
{
    let bytes = message.as_bytes();
    let ghost b = message.spec_bytes();
    proof {
        assert(valid_utf8(b));
        assert(bytes@ == b);
    }
    let open = find_byte(bytes, 0x60, 0);
    proof {
        lemma_first_byte_at_least(b, 0x60, 0);
    }
    let (s, e): (usize, usize) = match open {
      None => (0, 0),
      Some(open) => {
        let n = bytes.len();
        assert(open < n);
        let close = find_byte(bytes, 0x60, open + 1);
        proof {
            lemma_first_byte_at_least(b, 0x60, open + 1);
        }
        let end: usize = match close {
            None => bytes.len(),
            Some(c) => c,
        };
        let mut s: usize = open + 1;
        while s < end && bytes[s] == marker
            invariant
                open < s <= end <= b.len(),
                bytes@ == b,
                skip_byte(b, marker, open + 1, end as int) == skip_byte(b, marker, s as int, end as int),
                s == open + 1 || b[s - 1] == marker,
            decreases end - s,
        {
            s = s + 1;
        }
        proof {
            lemma_boundary_next_to_ascii(b, end as int);
            lemma_boundary_next_to_ascii(b, s as int);
            assert(quoted_name_span(b, marker) == (s as int, end as int));
        }
        (s, end)
      },
    };
    proof {
        lemma_boundary_next_to_ascii(b, 0);
    }
    match slice_text(message, s, e) {
        Some(t) => {
            proof {
                assert(t.spec_bytes() == b.subrange(s as int, e as int));
            }
            t
        },
        None => {
            proof {
                assert(false);
            }
            ""
        },
    }
}

/// Where `first_byte_from` points, when it finds anything.
proof fn lemma_first_byte_at_least(b: Seq<u8>, x: u8, i: int)
    ensures
        first_byte_from(b, x, i) >= 0 ==> i <= first_byte_from(b, x, i) < b.len() && b[first_byte_from(
            b,
            x,
            i,
        )] == x,
    decreases b.len() - i,
{
    if 0 <= i < b.len() && b[i] != x {
        lemma_first_byte_at_least(b, x, i + 1);
    }
}

pub open spec fn replacements_of(v: Seq<SelectorReplacement>) -> Seq<(Seq<char>, Seq<char>, Range)> {
    v.map_values(|a: SelectorReplacement| replacement_view(a))
}

/// Appends the replacements offering each of `ranked` with `prefix`.
fn push_replacements(out: &mut Vec<SelectorReplacement>, prefix: &str, ranked: &Vec<String>, range: Range)
    ensures
        replacements_of(final(out)@) == replacements_of(old(out)@) + replacements_for(
            prefix@,
            texts_of(ranked@),
            range,
        ),
{
    let ghost start = replacements_of(out@);
    let mut j: usize = 0;
    while j < ranked.len()
        invariant
            j <= ranked@.len(),
            replacements_of(out@) == start + replacements_for(prefix@, texts_of(ranked@).take(j as int), range),
        decreases ranked@.len() - j,
    {
        let mut title = "Replace with `".to_owned();
        title.append(prefix);
        title.append(ranked[j].as_str());
        title.append("`");
        let mut new_text = prefix.to_owned();
        new_text.append(ranked[j].as_str());
        let ghost before = out@;
        out.push(SelectorReplacement { title, new_text, range });
        proof {
            assert(texts_of(ranked@).take(j + 1) =~= texts_of(ranked@).take(j as int).push(ranked@[j as int]@));
            assert(replacements_of(out@) =~= replacements_of(before).push(
                replacement_for(prefix@, ranked@[j as int]@, range),
            ));
            assert(replacements_for(prefix@, texts_of(ranked@).take(j + 1), range) =~= replacements_for(
                prefix@,
                texts_of(ranked@).take(j as int),
                range,
            ).push(replacement_for(prefix@, ranked@[j as int]@, range)));
        }
        j = j + 1;
    }
    assert(texts_of(ranked@).take(ranked@.len() as int) =~= texts_of(ranked@));
}

/// Every score the quick fixes of `d` reckon stays within `i32`.
pub open spec fn fixes_fit(d: QuickFixDiagnostic, ids: Seq<String>, classes: Seq<String>) -> bool {
    match d.code {
        Some(code) => if code@ == "unknown-selector-id"@ {
            forall|k: int| 0 <= k < ids.len() ==> similarity_fits(
                quoted_name(encode_utf8(d.message@), 0x23),
                (#[trigger] ids[k])@,
            )
        } else if code@ == "unknown-selector-class"@ {
            forall|k: int| 0 <= k < classes.len() ==> similarity_fits(
                quoted_name(encode_utf8(d.message@), 0x2e),
                (#[trigger] classes[k])@,
            )
        } else {
            true
        },
        None => true,
    }
}

/// The quick fixes for `diagnostics`: for each one about an unknown id
/// or class, a replacement by every known id (`ids`) or class
/// (`classes`), the closest to the quoted name first.
pub fn code_actions_for(diagnostics: &Vec<QuickFixDiagnostic>, ids: &Vec<String>, classes: &Vec<String>) -> (r:
    Vec<SelectorReplacement>)
    requires
        forall|k: int| 0 <= k < diagnostics@.len() ==> fixes_fit(#[trigger] diagnostics@[k], ids@, classes@),
    ensures
        replacements_of(r@) == all_fixes(diagnostics@, texts_of(ids@), texts_of(classes@)),
{
    let ghost id_texts = texts_of(ids@);
    let ghost class_texts = texts_of(classes@);
    let mut out: Vec<SelectorReplacement> = Vec::new();
    let mut i: usize = 0;
    while i < diagnostics.len()
        invariant
            i <= diagnostics@.len(),
            id_texts == texts_of(ids@),
            class_texts == texts_of(classes@),
            forall|k: int| 0 <= k < diagnostics@.len() ==> fixes_fit(#[trigger] diagnostics@[k], ids@, classes@),
            replacements_of(out@) == all_fixes(diagnostics@.take(i as int), id_texts, class_texts),
        decreases diagnostics@.len() - i,
    {
        let d = &diagnostics[i];
        let ghost before = replacements_of(out@);
        proof {
            assert(diagnostics@.take(i + 1).drop_last() =~= diagnostics@.take(i as int));
            assert(diagnostics@.take(i + 1).last() == *d);
            assert(fixes_fit(*d, ids@, classes@));
        }
        match &d.code {
            Some(code) => {
                if text_eq(code.as_str(), "unknown-selector-id") {
                    let name = quoted_selector_name(d.message.as_str(), 0x23);
                    let ranked = rank_candidates(name, ids);
                    push_replacements(&mut out, "#", &ranked, d.range);
                } else if text_eq(code.as_str(), "unknown-selector-class") {
                    let name = quoted_selector_name(d.message.as_str(), 0x2e);
                    let ranked = rank_candidates(name, classes);
                    push_replacements(&mut out, ".", &ranked, d.range);
                } else {
                    assert(diagnostic_fixes(*d, id_texts, class_texts) =~= Seq::empty());
                }
            },
            None => {
                assert(diagnostic_fixes(*d, id_texts, class_texts) =~= Seq::empty());
            },
        }
        proof {
            assert(replacements_of(out@) =~= before + diagnostic_fixes(*d, id_texts, class_texts));
        }
        i = i + 1;
    }
    assert(diagnostics@.take(diagnostics@.len() as int) =~= diagnostics@);
    out
}

} // verus!
