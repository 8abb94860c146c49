//! References of an `#id` or `.class` selector across a project's
//! stylesheets: which selector the cursor is on, and where that selector
//! is used in the rules of each stylesheet.
use vstd::prelude::*;
use vstd::string::*;
use vstd::utf8::*;

use crate::css_source::CssRange;
use crate::cursor::{
    position_to_offset, position_view, range_for, spec_offset_to_position, spec_position_to_offset, to_lsp_range,
    offset_of_from, Position, Range,
};
use crate::lsp_project::{ProjectSelectorKind, ProjectSelectorMatch};
use crate::syntax::{
    reference_view, references_from, selector_reference_at_offset, selector_references_in_segment, slice_text,
    spec_selector_reference_at, SelectorReference, SelectorReferenceKind,
};
use crate::text::text_eq;

verus! {

broadcast use {encode_utf8_valid_utf8, encode_utf8_decode_utf8};

/// A place in a document.
#[derive(Debug)]
pub struct SourceLocation {
    pub uri: String,
    pub range: Range,
}

impl Clone for SourceLocation {
    fn clone(&self) -> (r: Self)
        ensures
            r == *self,
    {
        SourceLocation { uri: self.uri.clone(), range: self.range }
    }
}

pub open spec fn location_view(l: SourceLocation) -> (Seq<char>, (int, int), (int, int)) {
    (l.uri@, position_view(l.range.start), position_view(l.range.end))
}

pub open spec fn locations_view(v: Seq<SourceLocation>) -> Seq<(Seq<char>, (int, int), (int, int))> {
    v.map_values(|l: SourceLocation| location_view(l))
}

/// A stylesheet: its document URI and that URI's path, its text, and the
/// (one-based) ranges of its rules' selectors as the stylesheet analysis
/// reports them.
#[derive(Debug, Clone)]
pub struct StylesheetDocument {
    pub uri: String,
    pub path: String,
    pub source: String,
    pub rule_selectors: Vec<CssRange>,
}

pub open spec fn reference_kind(kind: ProjectSelectorKind) -> SelectorReferenceKind {
    match kind {
        ProjectSelectorKind::Id => SelectorReferenceKind::Id,
        ProjectSelectorKind::Class => SelectorReferenceKind::Class,
    }
}

pub open spec fn project_kind(kind: SelectorReferenceKind) -> ProjectSelectorKind {
    match kind {
        SelectorReferenceKind::Id => ProjectSelectorKind::Id,
        SelectorReferenceKind::Class => ProjectSelectorKind::Class,
    }
}

/// The selector the references are asked for: the one the project index
/// reports at the cursor, else the `#id` or `.class` written there.
pub open spec fn spec_selector_for_references(b: Seq<u8>, offset: int, indexed: Option<ProjectSelectorMatch>) -> Option<
    (ProjectSelectorKind, Seq<char>),
> {
    match indexed {
        Some(m) => Some((m.kind, m.name@)),
        None => match spec_selector_reference_at(b, offset) {
            Some(r) => Some((project_kind(r.0), decode_utf8(r.1))),
            None => None,
        },
    }
}

pub fn selector_for_references(source: &str, offset: usize, indexed: Option<ProjectSelectorMatch>) -> (r: Option<
    ProjectSelectorMatch,
>)
    requires
        offset <= source.spec_bytes().len(),
        is_char_boundary(source.spec_bytes(), offset as int),
    ensures
        match r {
            Some(m) => spec_selector_for_references(source.spec_bytes(), offset as int, indexed) == Some(
                (m.kind, m.name@),
            ),
            None => spec_selector_for_references(source.spec_bytes(), offset as int, indexed) is None,
        },
{
    match indexed {
        Some(m) => Some(m),
        None => match selector_reference_at_offset(source, offset) {
            Some(x) => {
                let kind = match x.kind {
                    SelectorReferenceKind::Id => ProjectSelectorKind::Id,
                    SelectorReferenceKind::Class => ProjectSelectorKind::Class,
                };
                Some(ProjectSelectorMatch { kind, name: x.name })
            },
            None => None,
        },
    }
}

/// The path ends with `.css`.
pub open spec fn is_stylesheet_path(p: Seq<u8>) -> bool {
    p.len() >= 4 && p.subrange(p.len() - 4, p.len() as int) == seq![0x2eu8, 0x63u8, 0x73u8, 0x73u8]
}

/// Where a rule's selector lies in the text, by byte offsets.
pub open spec fn rule_bounds(b: Seq<u8>, rule: CssRange) -> Option<(int, int)> {
    let r = to_lsp_range_spec(rule);
    match (spec_position_to_offset(b, r.start), spec_position_to_offset(b, r.end)) {
        (Some(s), Some(e)) => Some((s, e)),
        _ => None,
    }
}

pub open spec fn to_lsp_range_spec(rule: CssRange) -> Range {
    Range {
        start: Position { line: crate::cursor::down_one(rule.start_line), character: crate::cursor::down_one(rule.start_column) },
        end: Position { line: crate::cursor::down_one(rule.end_line), character: crate::cursor::down_one(rule.end_column) },
    }
}

/// The locations of the references among `refs` that are of `kind` and
/// named `name`.
pub open spec fn matching_locations(
    uri: Seq<char>,
    b: Seq<u8>,
    refs: Seq<(SelectorReferenceKind, Seq<u8>, int, int)>,
    kind: SelectorReferenceKind,
    name: Seq<u8>,
) -> Seq<(Seq<char>, (int, int), (int, int))>
    decreases refs.len(),
{
    if refs.len() == 0 {
        Seq::empty()
    } else {
        let before = matching_locations(uri, b, refs.drop_last(), kind, name);
        let x = refs.last();
        if x.0 == kind && x.1 == name {
            match (spec_offset_to_position(b, x.2), spec_offset_to_position(b, x.3)) {
                (Some(p), Some(q)) => before.push((uri, p, q)),
                _ => before,
            }
        } else {
            before
        }
    }
}

/// The matching references in one rule's selector.
pub open spec fn rule_locations(d: StylesheetDocument, rule: CssRange, kind: SelectorReferenceKind, name: Seq<u8>) -> Seq<
    (Seq<char>, (int, int), (int, int)),
> {
    let b = encode_utf8(d.source@);
    match rule_bounds(b, rule) {
        Some((s, e)) => matching_locations(d.uri@, b, references_from(b.subrange(s, e), s, 0, 0), kind, name),
        None => Seq::empty(),
    }
}

pub open spec fn rules_locations(
    d: StylesheetDocument,
    rules: Seq<CssRange>,
    kind: SelectorReferenceKind,
    name: Seq<u8>,
) -> Seq<(Seq<char>, (int, int), (int, int))>
    decreases rules.len(),
{
    if rules.len() == 0 {
        Seq::empty()
    } else {
        rules_locations(d, rules.drop_last(), kind, name) + rule_locations(d, rules.last(), kind, name)
    }
}

/// The matching references in a stylesheet; none in a document whose path
/// does not end with `.css`.
pub open spec fn document_locations(d: StylesheetDocument, kind: SelectorReferenceKind, name: Seq<u8>) -> Seq<
    (Seq<char>, (int, int), (int, int)),
> {
    if is_stylesheet_path(encode_utf8(d.path@)) {
        rules_locations(d, d.rule_selectors@, kind, name)
    } else {
        Seq::empty()
    }
}

pub open spec fn documents_locations(
    ds: Seq<StylesheetDocument>,
    kind: SelectorReferenceKind,
    name: Seq<u8>,
) -> Seq<(Seq<char>, (int, int), (int, int))>
    decreases ds.len(),
{
    if ds.len() == 0 {
        Seq::empty()
    } else {
        documents_locations(ds.drop_last(), kind, name) + document_locations(ds.last(), kind, name)
    }
}

/// Each location once, at its first place.
pub open spec fn first_occurrences<T>(s: Seq<T>) -> Seq<T>
    decreases s.len(),
{
    if s.len() == 0 {
        Seq::empty()
    } else {
        let before = first_occurrences(s.drop_last());
        if before.contains(s.last()) {
            before
        } else {
            before.push(s.last())
        }
    }
}

/// The references of the selector `kind` `name`: its definitions when the
/// declaration is asked for, then its uses in the rules of the project's
/// stylesheets (the open documents when the project names none), each
/// location once.
pub open spec fn spec_selector_reference_locations(
    kind: ProjectSelectorKind,
    name: Seq<char>,
    include_declaration: bool,
    definitions: Seq<SourceLocation>,
    scoped: Seq<StylesheetDocument>,
    open_documents: Seq<StylesheetDocument>,
) -> Seq<(Seq<char>, (int, int), (int, int))> {
    let docs = if scoped.len() == 0 {
        open_documents
    } else {
        scoped
    };
    first_occurrences(
        (if include_declaration {
            locations_view(definitions)
        } else {
            Seq::empty()
        }) + documents_locations(docs, reference_kind(kind), encode_utf8(name)),
    )
}

/// The texts are small enough for positions, and no rule's selector
/// ends before it starts.
pub open spec fn documents_fit(ds: Seq<StylesheetDocument>) -> bool {
    forall|i: int|
        0 <= i < ds.len() ==> {
            let d = #[trigger] ds[i];
            &&& encode_utf8(d.source@).len() <= u32::MAX
            &&& forall|k: int|
                0 <= k < d.rule_selectors@.len() ==> (rule_bounds(encode_utf8(d.source@), #[trigger] d.rule_selectors@[k])
                    matches Some((s, e)) ==> s <= e)
        }
}

/// An offset found by `offset_of_from` starts a character or ends the text.
proof fn lemma_offset_found_at_boundary(b: Seq<u8>, line: int, column: int, i: int)
    ensures
        offset_of_from(b, line, column, i) matches Some(r) ==> i <= r <= b.len() && (r == b.len()
            || !is_continuation_byte(b[r])),
    decreases b.len() - i,
{
    if 0 <= i < b.len() {
        lemma_offset_found_at_boundary(b, line, column, i + 1);
    }
}

proof fn lemma_found_offset_is_boundary(b: Seq<u8>, p: Position)
    requires
        valid_utf8(b),
    ensures
        spec_position_to_offset(b, p) matches Some(r) ==> 0 <= r <= b.len() && is_char_boundary(b, r),
{
    lemma_offset_found_at_boundary(b, p.line as int, p.character as int, 0);
    if let Some(r) = spec_position_to_offset(b, p) {
        if r == b.len() {
            is_char_boundary_start_end_of_seq(b);
        } else {
            is_char_boundary_iff_not_is_continuation_byte(b, r);
        }
    }
}

fn push_matching(
    out: &mut Vec<SourceLocation>,
    uri: &String,
    source: &str,
    refs: &Vec<SelectorReference>,
    kind: SelectorReferenceKind,
    name: &str,
)
    requires
        source.spec_bytes().len() <= u32::MAX,
    ensures
        locations_view(final(out)@) == locations_view(old(out)@) + matching_locations(
            uri@,
            source.spec_bytes(),
            refs@.map_values(|x: SelectorReference| reference_view(x)),
            kind,
            encode_utf8(name@),
        ),
{
    let ghost start = locations_view(out@);
    let ghost views = refs@.map_values(|x: SelectorReference| reference_view(x));
    let ghost b = source.spec_bytes();
    let mut i: usize = 0;
    while i < refs.len()
        invariant
            i <= refs@.len(),
            b == source.spec_bytes(),
            b.len() <= u32::MAX,
            views == refs@.map_values(|x: SelectorReference| reference_view(x)),
            locations_view(out@) == start + matching_locations(uri@, b, views.take(i as int), kind, encode_utf8(name@)),
        decreases refs@.len() - i,
    {
        let x = &refs[i];
        let ghost before = out@;
        proof {
            assert(views.take(i + 1).drop_last() =~= views.take(i as int));
            assert(views.take(i + 1).last() == reference_view(*x));
            if encode_utf8(x.name@) == encode_utf8(name@) {
                assert(decode_utf8(encode_utf8(x.name@)) == x.name@);
                assert(decode_utf8(encode_utf8(name@)) == name@);
            }
        }
        if x.kind == kind && text_eq(x.name.as_str(), name) {
            match range_for(source, x.start, x.end) {
                Some(range) => {
                    out.push(SourceLocation { uri: uri.clone(), range });
                    proof {
                        assert(locations_view(out@) =~= locations_view(before).push(
                            (uri@, position_view(range.start), position_view(range.end)),
                        ));
                    }
                },
                None => {},
            }
        }
        i = i + 1;
    }
    proof {
        assert(views.take(refs@.len() as int) =~= views);
    }
}

fn push_document(out: &mut Vec<SourceLocation>, d: &StylesheetDocument, kind: SelectorReferenceKind, name: &str)
    requires
        encode_utf8(d.source@).len() <= u32::MAX,
        forall|k: int|
            0 <= k < d.rule_selectors@.len() ==> (rule_bounds(encode_utf8(d.source@), #[trigger] d.rule_selectors@[k])
                matches Some((s, e)) ==> s <= e),
    ensures
        locations_view(final(out)@) == locations_view(old(out)@) + document_locations(*d, kind, encode_utf8(name@)),
{
    let source = d.source.as_str();
    let ghost b = source.spec_bytes();
    let ghost start = locations_view(out@);
    let ghost rules = d.rule_selectors@;
    let path = d.path.as_str().as_bytes();
    let n = path.len();
    let css = n >= 4 && path[n - 4] == 0x2e && path[n - 3] == 0x63 && path[n - 2] == 0x73 && path[n - 1] == 0x73;
    proof {
        let p = encode_utf8(d.path@);
        assert(path@ == p);
        if n >= 4 {
            assert(css == (p.subrange(p.len() - 4, p.len() as int) =~= seq![0x2eu8, 0x63u8, 0x73u8, 0x73u8]));
        }
    }
    if !css {
        assert(locations_view(out@) =~= start + document_locations(*d, kind, encode_utf8(name@)));
        return;
    }
    let mut i: usize = 0;
    while i < d.rule_selectors.len()
        invariant
            i <= rules.len(),
            rules == d.rule_selectors@,
            b == source.spec_bytes(),
            b == encode_utf8(d.source@),
            b.len() <= u32::MAX,
            forall|k: int| 0 <= k < rules.len() ==> (rule_bounds(b, #[trigger] rules[k]) matches Some((s, e)) ==> s <= e),
            locations_view(out@) == start + rules_locations(*d, rules.take(i as int), kind, encode_utf8(name@)),
        decreases rules.len() - i,
    {
        let rule = d.rule_selectors[i];
        proof {
            assert(rules.take(i + 1).drop_last() =~= rules.take(i as int));
            assert(rules.take(i + 1).last() == rule);
        }
        let ghost mid = locations_view(out@);
        let lsp = to_lsp_range(rule);
        let s = position_to_offset(source, lsp.start);
        let e = position_to_offset(source, lsp.end);
        match (s, e) {
            (Some(s), Some(e)) => {
                proof {
                    assert(lsp == to_lsp_range_spec(rule));
                    assert(rule_bounds(b, rule) == Some((s as int, e as int)));
                    lemma_found_offset_is_boundary(b, lsp.start);
                    lemma_found_offset_is_boundary(b, lsp.end);
                    assert(rules[i as int] == rule);
                }
                match slice_text(source, s, e) {
                    Some(segment) => {
                        let refs = selector_references_in_segment(segment, s);
                        push_matching(out, &d.uri, source, &refs, kind, name);
                        proof {
                            assert(segment.spec_bytes() == b.subrange(s as int, e as int));
                        }
                    },
                    None => {
                        proof {
                            assert(false);
                        }
                    },
                }
            },
            _ => {
                proof {
                    assert(lsp == to_lsp_range_spec(rule));
                }
            },
        }
        proof {
            assert(locations_view(out@) == mid + rule_locations(*d, rule, kind, encode_utf8(name@)));
            assert(start + rules_locations(*d, rules.take(i + 1), kind, encode_utf8(name@)) =~= start
                + rules_locations(*d, rules.take(i as int), kind, encode_utf8(name@)) + rule_locations(
                *d,
                rule,
                kind,
                encode_utf8(name@),
            ));
        }
        i = i + 1;
    }
    proof {
        assert(rules.take(rules.len() as int) =~= rules);
    }
}

/// The locations of the selector `kind` `name`, as
/// `spec_selector_reference_locations` lists them.
pub fn selector_reference_locations(
    kind: ProjectSelectorKind,
    name: &str,
    include_declaration: bool,
    definitions: &Vec<SourceLocation>,
    scoped: &Vec<StylesheetDocument>,
    open_documents: &Vec<StylesheetDocument>,
) -> (r: Vec<SourceLocation>)
    requires
        documents_fit(scoped@),
        documents_fit(open_documents@),
    ensures
        locations_view(r@) == spec_selector_reference_locations(
            kind,
            name@,
            include_declaration,
            definitions@,
            scoped@,
            open_documents@,
        ),
{
    let docs = if scoped.len() == 0 {
        open_documents
    } else {
        scoped
    };
    let rkind = match kind {
        ProjectSelectorKind::Id => SelectorReferenceKind::Id,
        ProjectSelectorKind::Class => SelectorReferenceKind::Class,
    };
    let mut all: Vec<SourceLocation> = Vec::new();
    if include_declaration {
        let mut j: usize = 0;
        while j < definitions.len()
            invariant
                j <= definitions@.len(),
                locations_view(all@) == locations_view(definitions@.take(j as int)),
            decreases definitions@.len() - j,
        {
            let ghost before = all@;
            all.push(definitions[j].clone());
            proof {
                assert(definitions@.take(j + 1) =~= definitions@.take(j as int).push(definitions@[j as int]));
                assert(locations_view(all@) =~= locations_view(before).push(location_view(definitions@[j as int])));
                assert(locations_view(definitions@.take(j + 1)) =~= locations_view(definitions@.take(j as int)).push(
                    location_view(definitions@[j as int]),
                ));
            }
            j = j + 1;
        }
        assert(definitions@.take(definitions@.len() as int) =~= definitions@);
    }
    let ghost front = locations_view(all@);
    let mut i: usize = 0;
    while i < docs.len()
        invariant
            i <= docs@.len(),
            documents_fit(docs@),
            locations_view(all@) == front + documents_locations(docs@.take(i as int), rkind, encode_utf8(name@)),
        decreases docs@.len() - i,
    {
        proof {
            assert(docs@.take(i + 1).drop_last() =~= docs@.take(i as int));
            assert(docs@.take(i + 1).last() == docs@[i as int]);
            let d = docs@[i as int];
            assert(encode_utf8(d.source@).len() <= u32::MAX);
        }
        let ghost mid = locations_view(all@);
        push_document(&mut all, &docs[i], rkind, name);
        proof {
            assert(front + documents_locations(docs@.take(i + 1), rkind, encode_utf8(name@)) =~= mid
                + document_locations(docs@[i as int], rkind, encode_utf8(name@)));
        }
        i = i + 1;
    }
    proof {
        assert(docs@.take(docs@.len() as int) =~= docs@);
    }
    let ghost whole = locations_view(all@);
    let mut out: Vec<SourceLocation> = Vec::new();
    let mut k: usize = 0;
    while k < all.len()
        invariant
            k <= all@.len(),
            whole == locations_view(all@),
            locations_view(out@) == first_occurrences(whole.take(k as int)),
        decreases all@.len() - k,
    {
        let loc = &all[k];
        let mut seen = false;
        let mut m: usize = 0;
        while m < out.len()
            invariant
                m <= out@.len(),
                seen <==> exists|q: int| 0 <= q < m && location_view(out@[q]) == location_view(*loc),
            decreases out@.len() - m,
        {
            if text_eq(out[m].uri.as_str(), loc.uri.as_str()) && out[m].range.start == loc.range.start
                && out[m].range.end == loc.range.end {
                seen = true;
            }
            m = m + 1;
        }
        proof {
            assert(whole.take(k + 1).drop_last() =~= whole.take(k as int));
            assert(whole.take(k + 1).last() == location_view(*loc));
            let v = locations_view(out@);
            if seen {
                let q = choose|q: int| 0 <= q < out@.len() && location_view(out@[q]) == location_view(*loc);
                assert(v[q] == location_view(*loc));
            } else {
                assert forall|q: int| 0 <= q < v.len() implies v[q] != location_view(*loc) by {
                    assert(v[q] == location_view(out@[q]));
                }
            }
        }
        if !seen {
            let ghost before = out@;
            out.push(loc.clone());
            proof {
                assert(locations_view(out@) =~= locations_view(before).push(location_view(*loc)));
            }
        }
        k = k + 1;
    }
    proof {
        assert(whole.take(whole.len() as int) =~= whole);
    }
    out
}


proof fn lemma_first_occurrences_members<T>(s: Seq<T>)
    ensures
        forall|i: int| 0 <= i < first_occurrences(s).len() ==> s.contains(#[trigger] first_occurrences(s)[i]),
        forall|j: int| 0 <= j < s.len() ==> first_occurrences(s).contains(#[trigger] s[j]),
    decreases s.len(),
{
    if s.len() > 0 {
        let d = s.drop_last();
        lemma_first_occurrences_members(d);
        let f = first_occurrences(s);
        let fd = first_occurrences(d);
        assert forall|i: int| 0 <= i < f.len() implies s.contains(#[trigger] f[i]) by {
            if i < fd.len() {
                assert(f[i] == fd[i]);
                let j = choose|j: int| 0 <= j < d.len() && d[j] == fd[i];
                assert(s[j] == d[j]);
            } else {
                assert(f[i] == s.last());
                assert(s[s.len() - 1] == s.last());
            }
        }
        assert forall|j: int| 0 <= j < s.len() implies f.contains(#[trigger] s[j]) by {
            if j < d.len() {
                assert(s[j] == d[j]);
                assert(fd.contains(d[j]));
                let i = choose|i: int| 0 <= i < fd.len() && fd[i] == d[j];
                assert(f[i] == fd[i]);
            } else {
                if fd.contains(s.last()) {
                    let i = choose|i: int| 0 <= i < fd.len() && fd[i] == s.last();
                    assert(f[i] == fd[i]);
                } else {
                    assert(f[fd.len() as int] == s.last());
                }
            }
        }
    }
}

proof fn lemma_first_occurrences_prefix<T>(a: Seq<T>, b: Seq<T>)
    ensures
        first_occurrences(a).len() <= first_occurrences(a + b).len(),
        first_occurrences(a + b).take(first_occurrences(a).len() as int) == first_occurrences(a),
    decreases b.len(),
{
    if b.len() == 0 {
        assert(a + b =~= a);
        assert(first_occurrences(a).take(first_occurrences(a).len() as int) =~= first_occurrences(a));
    } else {
        lemma_first_occurrences_prefix(a, b.drop_last());
        assert((a + b).drop_last() =~= a + b.drop_last());
        let fa = first_occurrences(a);
        let prev = first_occurrences(a + b.drop_last());
        assert(first_occurrences(a + b).take(fa.len() as int) =~= prev.take(fa.len() as int));
    }
}

/// The declarations are listed only when asked for: without them every
/// reference is a use in a rule selector of one of the stylesheets; with
/// them, the declarations come first and each is listed.
pub proof fn lemma_declarations_only_when_asked(
    kind: ProjectSelectorKind,
    name: Seq<char>,
    include_declaration: bool,
    definitions: Seq<SourceLocation>,
    scoped: Seq<StylesheetDocument>,
    open_documents: Seq<StylesheetDocument>,
)
    ensures
        ({
            let r = spec_selector_reference_locations(
                kind,
                name,
                include_declaration,
                definitions,
                scoped,
                open_documents,
            );
            let docs = if scoped.len() == 0 {
                open_documents
            } else {
                scoped
            };
            let uses = documents_locations(docs, reference_kind(kind), encode_utf8(name));
            &&& !include_declaration ==> forall|i: int| 0 <= i < r.len() ==> uses.contains(#[trigger] r[i])
            &&& include_declaration ==> forall|j: int|
                0 <= j < definitions.len() ==> r.contains(location_view(#[trigger] definitions[j]))
            &&& include_declaration && definitions.len() > 0 ==> r[0] == location_view(definitions[0])
        }),
{
    let docs = if scoped.len() == 0 {
        open_documents
    } else {
        scoped
    };
    let uses = documents_locations(docs, reference_kind(kind), encode_utf8(name));
    let defs = locations_view(definitions);
    if include_declaration {
        lemma_first_occurrences_members(defs + uses);
        lemma_first_occurrences_prefix(defs, uses);
        lemma_first_occurrences_members(defs);
        assert forall|j: int| 0 <= j < definitions.len() implies spec_selector_reference_locations(
            kind,
            name,
            include_declaration,
            definitions,
            scoped,
            open_documents,
        ).contains(location_view(#[trigger] definitions[j])) by {
            assert((defs + uses)[j] == location_view(definitions[j]));
        }
        if definitions.len() > 0 {
            let fd = first_occurrences(defs);
            assert(defs.drop_last().len() >= 0);
            lemma_first_head(defs);
            assert(first_occurrences(defs + uses)[0] == first_occurrences(defs + uses).take(fd.len() as int)[0]);
        }
    } else {
        assert(Seq::<(Seq<char>, (int, int), (int, int))>::empty() + uses =~= uses);
        lemma_first_occurrences_members(uses);
    }
}

/// The first of the first occurrences is the first element.
proof fn lemma_first_head<T>(s: Seq<T>)
    requires
        s.len() > 0,
    ensures
        first_occurrences(s).len() > 0,
        first_occurrences(s)[0] == s[0],
    decreases s.len(),
{
    if s.len() == 1 {
        assert(s.drop_last() =~= Seq::<T>::empty());
    } else {
        lemma_first_head(s.drop_last());
        let fd = first_occurrences(s.drop_last());
        assert(s.drop_last()[0] == s[0]);
        if fd.contains(s.last()) {
            assert(first_occurrences(s) == fd);
        } else {
            assert(first_occurrences(s) == fd.push(s.last()));
            assert(fd.push(s.last())[0] == fd[0]);
        }
    }
}

} // verus!
