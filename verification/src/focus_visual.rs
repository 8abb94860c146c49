//! A focus hierarchy inferred from window rectangles alone: windows are
//! grouped into bands along the axis that splits them most cleanly, and
//! each band is grouped again, until every group holds one window.
use vstd::prelude::*;

use crate::focus::FocusAxis;
use crate::ids::WindowId;
use crate::wm::WindowGeometry;

verus! {

/// A window with its rectangle and its position in the order given.
#[derive(Debug)]
pub struct VisualEntry {
    pub window_id: WindowId,
    pub geometry: WindowGeometry,
    pub original_index: usize,
}

impl Clone for VisualEntry {
    fn clone(&self) -> (r: Self)
        ensures
            r == *self,
    {
        VisualEntry { window_id: self.window_id.clone(), geometry: self.geometry, original_index: self.original_index }
    }
}

/// How entries are ordered: by their rectangles along an axis, or by their
/// position in the order given.
pub enum EntryOrder {
    Along(FocusAxis),
    Given,
}

/// The ordering key of an entry.
pub open spec fn entry_key(e: VisualEntry, order: EntryOrder) -> (int, int, int) {
    match order {
        EntryOrder::Along(FocusAxis::Horizontal) => (
            e.geometry.x as int,
            e.geometry.y as int,
            (e.original_index as i32) as int,
        ),
        EntryOrder::Along(FocusAxis::Vertical) => (
            e.geometry.y as int,
            e.geometry.x as int,
            (e.original_index as i32) as int,
        ),
        EntryOrder::Given => (e.original_index as int, 0, 0),
    }
}

pub open spec fn key_le(a: (int, int, int), b: (int, int, int)) -> bool {
    a.0 < b.0 || (a.0 == b.0 && (a.1 < b.1 || (a.1 == b.1 && a.2 <= b.2)))
}

/// `s` with `e` inserted after the last element whose key is at most
/// `e`'s (one step of a stable insertion sort).
pub open spec fn insert_sorted(s: Seq<VisualEntry>, e: VisualEntry, order: EntryOrder) -> Seq<VisualEntry>
    decreases s.len(),
{
    if s.len() == 0 {
        seq![e]
    } else if key_le(entry_key(s.last(), order), entry_key(e, order)) {
        s.push(e)
    } else {
        insert_sorted(s.drop_last(), e, order).push(s.last())
    }
}

/// The entries stably sorted by key.
pub open spec fn sorted_entries(s: Seq<VisualEntry>, order: EntryOrder) -> Seq<VisualEntry>
    decreases s.len(),
{
    if s.len() == 0 {
        Seq::empty()
    } else {
        insert_sorted(sorted_entries(s.drop_last(), order), s.last(), order)
    }
}

/// Position after the last of the first `n` elements whose key is at most
/// `e`'s, or 0.
pub open spec fn insertion_point(s: Seq<VisualEntry>, e: VisualEntry, order: EntryOrder, n: int) -> int
    decreases n,
{
    if n <= 0 {
        0
    } else if key_le(entry_key(s[n - 1], order), entry_key(e, order)) {
        n
    } else {
        insertion_point(s, e, order, n - 1)
    }
}

pub proof fn lemma_insert_sorted(s: Seq<VisualEntry>, e: VisualEntry, order: EntryOrder)
    ensures
        0 <= insertion_point(s, e, order, s.len() as int) <= s.len(),
        insert_sorted(s, e, order) == s.subrange(0, insertion_point(s, e, order, s.len() as int)).push(e) + s.subrange(
            insertion_point(s, e, order, s.len() as int),
            s.len() as int,
        ),
    decreases s.len(),
{
    let n = s.len() as int;
    if n == 0 {
        assert(insert_sorted(s, e, order) =~= s.subrange(0, 0).push(e) + s.subrange(0, 0));
    } else if key_le(entry_key(s.last(), order), entry_key(e, order)) {
        assert(s.subrange(0, n) =~= s);
        assert(insert_sorted(s, e, order) =~= s.subrange(0, n).push(e) + s.subrange(n, n));
    } else {
        let t = s.drop_last();
        lemma_insert_sorted(t, e, order);
        lemma_insertion_point_prefix(s, e, order, n - 1);
        let p = insertion_point(s, e, order, n);
        assert(p == insertion_point(t, e, order, n - 1));
        assert(t.subrange(0, p) =~= s.subrange(0, p));
        assert(t.subrange(p, n - 1).push(s.last()) =~= s.subrange(p, n));
        assert(insert_sorted(s, e, order) =~= s.subrange(0, p).push(e) + s.subrange(p, n));
    }
}

proof fn lemma_insertion_point_prefix(s: Seq<VisualEntry>, e: VisualEntry, order: EntryOrder, n: int)
    requires
        0 <= n < s.len(),
    ensures
        insertion_point(s, e, order, n) == insertion_point(s.drop_last(), e, order, n),
        0 <= insertion_point(s, e, order, n) <= n,
    decreases n,
{
    if n > 0 {
        lemma_insertion_point_prefix(s, e, order, n - 1);
    }
}

fn key_le_exec(a: &VisualEntry, b: &VisualEntry, order: &EntryOrder) -> (r: bool)
    ensures
        r == key_le(entry_key(*a, *order), entry_key(*b, *order)),
{
    match order {
        EntryOrder::Along(FocusAxis::Horizontal) => {
            let (a0, a1, a2) = (a.geometry.x, a.geometry.y, a.original_index as i32);
            let (b0, b1, b2) = (b.geometry.x, b.geometry.y, b.original_index as i32);
            a0 < b0 || (a0 == b0 && (a1 < b1 || (a1 == b1 && a2 <= b2)))
        },
        EntryOrder::Along(FocusAxis::Vertical) => {
            let (a0, a1, a2) = (a.geometry.y, a.geometry.x, a.original_index as i32);
            let (b0, b1, b2) = (b.geometry.y, b.geometry.x, b.original_index as i32);
            a0 < b0 || (a0 == b0 && (a1 < b1 || (a1 == b1 && a2 <= b2)))
        },
        EntryOrder::Given => a.original_index <= b.original_index,
    }
}

/// Stable sort of the entries by key.
fn sort_entries(entries: &Vec<VisualEntry>, order: &EntryOrder) -> (r: Vec<VisualEntry>)
    ensures
        r@ == sorted_entries(entries@, *order),
{
    let mut out: Vec<VisualEntry> = Vec::new();
    let mut i: usize = 0;
    while i < entries.len()
        invariant
            i <= entries@.len(),
            out@ == sorted_entries(entries@.take(i as int), *order),
        decreases entries@.len() - i,
    {
        let e = entries[i].clone();
        let ghost before = out@;
        let mut p = out.len();
        while p > 0 && !key_le_exec(&out[p - 1], &e, order)
            invariant
                out@ == before,
                p <= out@.len(),
                insertion_point(before, e, *order, p as int) == insertion_point(before, e, *order, before.len() as int),
            decreases p,
        {
            p = p - 1;
        }
        proof {
            lemma_insert_sorted(before, e, *order);
            assert(entries@.take(i + 1).drop_last() =~= entries@.take(i as int));
            assert(entries@.take(i + 1).last() == e);
        }
        out.insert(p, e);
        proof {
            assert(out@ =~= before.subrange(0, p as int).push(e) + before.subrange(p as int, before.len() as int));
        }
        i = i + 1;
    }
    proof {
        assert(entries@.take(entries@.len() as int) =~= entries@);
    }
    out
}

/// The extent of an entry along an axis.
pub open spec fn interval(e: VisualEntry, axis: FocusAxis) -> (int, int) {
    match axis {
        FocusAxis::Horizontal => (e.geometry.x as int, e.geometry.x + e.geometry.width),
        FocusAxis::Vertical => (e.geometry.y as int, e.geometry.y + e.geometry.height),
    }
}

/// Bands formed by the first `n` entries of `s` (already in order along
/// the axis): an entry that starts before the current band ends joins it,
/// otherwise it opens a new band. Also gives where the current band ends
/// and whether there is one.
pub open spec fn cluster_upto(s: Seq<VisualEntry>, axis: FocusAxis, n: int) -> (Seq<Seq<VisualEntry>>, int, bool)
    decreases n,
{
    if n <= 0 {
        (Seq::empty(), 0, false)
    } else {
        let prev = cluster_upto(s, axis, n - 1);
        let e = s[n - 1];
        let iv = interval(e, axis);
        if prev.2 && iv.0 < prev.1 && prev.0.len() > 0 {
            (
                prev.0.update(prev.0.len() - 1, prev.0.last().push(e)),
                if prev.1 >= iv.1 { prev.1 } else { iv.1 },
                true,
            )
        } else {
            (prev.0.push(seq![e]), iv.1, true)
        }
    }
}

/// The bands of the entries along an axis.
pub open spec fn bands_along(entries: Seq<VisualEntry>, axis: FocusAxis) -> Seq<Seq<VisualEntry>> {
    let s = sorted_entries(entries, EntryOrder::Along(axis));
    cluster_upto(s, axis, s.len() as int).0
}

/// Number of runs of consecutive given positions among the first `n`
/// entries of `s` (sorted by given position).
pub open spec fn run_count(s: Seq<VisualEntry>, n: int) -> int
    decreases n,
{
    if n <= 0 {
        0
    } else {
        run_count(s, n - 1) + if n == 1 || s[n - 1].original_index != s[n - 2].original_index + 1 {
            1int
        } else {
            0int
        }
    }
}

/// How many times a band breaks the given order: its runs of
/// consecutive given positions, less one.
pub open spec fn fragmentation(band: Seq<VisualEntry>) -> int {
    let s = sorted_entries(band, EntryOrder::Given);
    let c = run_count(s, s.len() as int);
    if c > 0 {
        c - 1
    } else {
        0
    }
}

pub open spec fn total_fragmentation(bands: Seq<Seq<VisualEntry>>, n: int) -> int
    decreases n,
{
    if n <= 0 {
        0
    } else {
        total_fragmentation(bands, n - 1) + fragmentation(bands[n - 1])
    }
}

/// How badly a split into `bands` breaks the given order (lower is
/// better), and into how many bands; none for a single band.
pub open spec fn split_score(bands: Seq<Seq<VisualEntry>>) -> Option<(int, int)> {
    if bands.len() <= 1 {
        None
    } else {
        Some((total_fragmentation(bands, bands.len() as int), bands.len() as int))
    }
}

pub open spec fn score_le(a: (int, int), b: (int, int)) -> bool {
    a.0 < b.0 || (a.0 == b.0 && a.1 <= b.1)
}

/// The axis to split along and its bands: the one with the better score
/// (horizontal on a tie), when either splits at all.
pub open spec fn chosen_split(entries: Seq<VisualEntry>) -> Option<(FocusAxis, Seq<Seq<VisualEntry>>)> {
    let hb = bands_along(entries, FocusAxis::Horizontal);
    let vb = bands_along(entries, FocusAxis::Vertical);
    match (split_score(hb), split_score(vb)) {
        (Some(h), Some(v)) => if score_le(h, v) {
            Some((FocusAxis::Horizontal, hb))
        } else {
            Some((FocusAxis::Vertical, vb))
        },
        (Some(_), None) => Some((FocusAxis::Horizontal, hb)),
        (None, Some(_)) => Some((FocusAxis::Vertical, vb)),
        (None, None) => None,
    }
}

fn interval_of(e: &VisualEntry, axis: FocusAxis) -> (r: (i64, i64))
    ensures
        r.0 as int == interval(*e, axis).0,
        r.1 as int == interval(*e, axis).1,
{
    match axis {
        FocusAxis::Horizontal => (e.geometry.x as i64, e.geometry.x as i64 + e.geometry.width as i64),
        FocusAxis::Vertical => (e.geometry.y as i64, e.geometry.y as i64 + e.geometry.height as i64),
    }
}

pub proof fn lemma_sorted_len(s: Seq<VisualEntry>, order: EntryOrder)
    ensures
        sorted_entries(s, order).len() == s.len(),
    decreases s.len(),
{
    if s.len() > 0 {
        lemma_sorted_len(s.drop_last(), order);
        lemma_insert_sorted(sorted_entries(s.drop_last(), order), s.last(), order);
    }
}

/// Sum of the sizes of the bands.
pub open spec fn total_size(bands: Seq<Seq<VisualEntry>>, n: int) -> int
    decreases n,
{
    if n <= 0 {
        0
    } else {
        total_size(bands, n - 1) + bands[n - 1].len()
    }
}

proof fn lemma_total_size_update_last(bands: Seq<Seq<VisualEntry>>, b: Seq<VisualEntry>, n: int)
    requires
        0 < n == bands.len(),
    ensures
        total_size(bands.update(n - 1, b), n) == total_size(bands, n) - bands[n - 1].len() + b.len(),
{
    lemma_total_size_prefix(bands, bands.update(n - 1, b), n - 1);
}

proof fn lemma_total_size_prefix(a: Seq<Seq<VisualEntry>>, b: Seq<Seq<VisualEntry>>, n: int)
    requires
        0 <= n <= a.len(),
        n <= b.len(),
        forall|k: int| 0 <= k < n ==> a[k] == b[k],
    ensures
        total_size(a, n) == total_size(b, n),
    decreases n,
{
    if n > 0 {
        lemma_total_size_prefix(a, b, n - 1);
    }
}

/// The bands partition the entries: every band is non-empty and together
/// they hold all `n` entries.
proof fn lemma_cluster_sizes(s: Seq<VisualEntry>, axis: FocusAxis, n: int)
    requires
        0 <= n <= s.len(),
    ensures
        total_size(cluster_upto(s, axis, n).0, cluster_upto(s, axis, n).0.len() as int) == n,
        forall|k: int| 0 <= k < cluster_upto(s, axis, n).0.len() ==> #[trigger] cluster_upto(s, axis, n).0[k].len() >= 1,
        cluster_upto(s, axis, n).2 ==> cluster_upto(s, axis, n).0.len() > 0,
        n > 0 ==> cluster_upto(s, axis, n).2,
    decreases n,
{
    if n > 0 {
        lemma_cluster_sizes(s, axis, n - 1);
        let prev = cluster_upto(s, axis, n - 1);
        let e = s[n - 1];
        let iv = interval(e, axis);
        let m = prev.0.len() as int;
        if prev.2 && iv.0 < prev.1 && m > 0 {
            lemma_total_size_update_last(prev.0, prev.0.last().push(e), m);
        } else {
            let next = prev.0.push(seq![e]);
            lemma_total_size_prefix(prev.0, next, m);
        }
    }
}

proof fn lemma_band_smaller(bands: Seq<Seq<VisualEntry>>, n: int, i: int)
    requires
        0 <= i < n <= bands.len(),
        forall|k: int| 0 <= k < bands.len() ==> #[trigger] bands[k].len() >= 1,
    ensures
        total_size(bands, n) >= bands[i].len() + (n - 1),
    decreases n,
{
    assert(total_size(bands, n) == total_size(bands, n - 1) + bands[n - 1].len());
    if n - 1 > i {
        lemma_band_smaller(bands, n - 1, i);
    } else {
        lemma_total_size_at_least(bands, n - 1);
    }
}

proof fn lemma_total_size_at_least(bands: Seq<Seq<VisualEntry>>, n: int)
    requires
        0 <= n <= bands.len(),
        forall|k: int| 0 <= k < bands.len() ==> #[trigger] bands[k].len() >= 1,
    ensures
        total_size(bands, n) >= n,
    decreases n,
{
    if n > 0 {
        lemma_total_size_at_least(bands, n - 1);
    }
}

/// When the entries split into two or more bands along an axis, each band
/// is smaller than the whole.
pub proof fn lemma_bands_smaller(entries: Seq<VisualEntry>, axis: FocusAxis)
    ensures
        forall|k: int|
            0 <= k < bands_along(entries, axis).len() ==> #[trigger] bands_along(entries, axis)[k].len() >= 1,
        bands_along(entries, axis).len() >= 2 ==> forall|k: int|
            0 <= k < bands_along(entries, axis).len() ==> #[trigger] bands_along(entries, axis)[k].len()
                < entries.len(),
{
    let s = sorted_entries(entries, EntryOrder::Along(axis));
    lemma_sorted_len(entries, EntryOrder::Along(axis));
    lemma_cluster_sizes(s, axis, s.len() as int);
    let bands = bands_along(entries, axis);
    if bands.len() >= 2 {
        assert forall|k: int| 0 <= k < bands.len() implies #[trigger] bands[k].len() < entries.len() by {
            lemma_band_smaller(bands, bands.len() as int, k);
        }
    }
}

fn cluster_visual_entries(entries: &Vec<VisualEntry>, axis: FocusAxis) -> (r: Vec<Vec<VisualEntry>>)
    ensures
        r@.map_values(|b: Vec<VisualEntry>| b@) == bands_along(entries@, axis),
{
    let ordered = sort_entries(entries, &EntryOrder::Along(axis));
    let ghost s = ordered@;
    let mut bands: Vec<Vec<VisualEntry>> = Vec::new();
    let mut band_end: Option<i64> = None;
    let mut n: usize = 0;
    proof {
        assert(bands@.map_values(|b: Vec<VisualEntry>| b@) =~= cluster_upto(s, axis, 0).0);
    }
    while n < ordered.len()
        invariant
            s == ordered@,
            n <= s.len(),
            bands@.map_values(|b: Vec<VisualEntry>| b@) == cluster_upto(s, axis, n as int).0,
            match band_end {
                Some(end) => cluster_upto(s, axis, n as int).2 && cluster_upto(s, axis, n as int).1 == end as int,
                None => !cluster_upto(s, axis, n as int).2,
            },
            forall|k: int| 0 <= k < n ==> -0x1_0000_0000 <= #[trigger] interval(s[k], axis).1 <= 0x1_0000_0000,
            match band_end {
                Some(end) => -0x1_0000_0000 <= end <= 0x1_0000_0000,
                None => true,
            },
        decreases s.len() - n,
    {
        let e = ordered[n].clone();
        let (start, end) = interval_of(&e, axis);
        let ghost prev = cluster_upto(s, axis, n as int);
        let ghost before = bands@;
        proof {
            lemma_cluster_sizes(s, axis, n as int);
        }
        let joins = match band_end {
            Some(current_end) => start < current_end,
            None => false,
        };
        if joins && bands.len() > 0 {
            let current_end = band_end.unwrap();
            band_end = Some(if current_end >= end { current_end } else { end });
            let mut last = bands.pop().unwrap();
            last.push(e);
            bands.push(last);
            proof {
                assert(bands@.map_values(|b: Vec<VisualEntry>| b@) =~= prev.0.update(
                    prev.0.len() - 1,
                    prev.0.last().push(s[n as int]),
                ));
            }
        } else {
            band_end = Some(end);
            let mut band: Vec<VisualEntry> = Vec::new();
            band.push(e);
            bands.push(band);
            proof {
                assert(band@ =~= seq![s[n as int]]);
                assert(bands@.map_values(|b: Vec<VisualEntry>| b@) =~= prev.0.push(seq![s[n as int]]));
            }
        }
        n = n + 1;
    }
    bands
}

fn band_fragmentation(band: &Vec<VisualEntry>) -> (r: usize)
    ensures
        r as int == fragmentation(band@),
{
    let ordered = sort_entries(band, &EntryOrder::Given);
    let ghost s = ordered@;
    let mut segments: usize = 0;
    let mut i: usize = 0;
    while i < ordered.len()
        invariant
            s == ordered@,
            i <= s.len(),
            segments as int == run_count(s, i as int),
            segments <= i,
        decreases s.len() - i,
    {
        let starts_run = if i == 0 {
            true
        } else {
            let previous = ordered[i - 1].original_index;
            previous == usize::MAX || ordered[i].original_index != previous + 1
        };
        if starts_run {
            segments = segments + 1;
        }
        i = i + 1;
    }
    if segments > 0 {
        segments - 1
    } else {
        0
    }
}

fn split_score_of(bands: &Vec<Vec<VisualEntry>>) -> (r: Option<(usize, usize)>)
    requires
        total_size(bands@.map_values(|v: Vec<VisualEntry>| v@), bands@.len() as int) <= usize::MAX,
    ensures
        match r {
            Some((a, b)) => split_score(bands@.map_values(|v: Vec<VisualEntry>| v@)) == Some((a as int, b as int)),
            None => split_score(bands@.map_values(|v: Vec<VisualEntry>| v@)) is None,
        },
{
    let ghost views = bands@.map_values(|v: Vec<VisualEntry>| v@);
    if bands.len() <= 1 {
        return None;
    }
    let mut total: usize = 0;
    let mut i: usize = 0;
    while i < bands.len()
        invariant
            views == bands@.map_values(|v: Vec<VisualEntry>| v@),
            total_size(views, bands@.len() as int) <= usize::MAX,
            i <= bands@.len(),
            total as int == total_fragmentation(views, i as int),
            total <= total_size(views, i as int),
        decreases bands@.len() - i,
    {
        let f = band_fragmentation(&bands[i]);
        proof {
            lemma_fragmentation_bound(bands@[i as int]@);
            assert(views[i as int] == bands@[i as int]@);
            lemma_total_size_monotone(views, i + 1, bands@.len() as int);
        }
        total = total + f;
        i = i + 1;
    }
    Some((total, bands.len()))
}

proof fn lemma_total_size_monotone(bands: Seq<Seq<VisualEntry>>, a: int, b: int)
    requires
        0 <= a <= b <= bands.len(),
    ensures
        total_size(bands, a) <= total_size(bands, b),
    decreases b - a,
{
    if a < b {
        lemma_total_size_monotone(bands, a, b - 1);
    }
}

proof fn lemma_run_count_bound(s: Seq<VisualEntry>, n: int)
    requires
        0 <= n,
    ensures
        run_count(s, n) <= n,
    decreases n,
{
    if n > 0 {
        lemma_run_count_bound(s, n - 1);
    }
}

proof fn lemma_fragmentation_bound(band: Seq<VisualEntry>)
    ensures
        fragmentation(band) <= band.len(),
        0 <= fragmentation(band),
{
    let s = sorted_entries(band, EntryOrder::Given);
    lemma_sorted_len(band, EntryOrder::Given);
    lemma_run_count_bound(s, s.len() as int);
}

/// A child of a visual scope: a nested scope or a single window.
#[derive(Debug)]
pub enum VisualChild {
    Scope(VisualScope),
    Window(VisualEntry),
}

/// A group of windows split along `axis` (none for a group that does not
/// split) into its children, in visual order.
#[derive(Debug)]
pub struct VisualScope {
    pub axis: Option<FocusAxis>,
    pub children: Vec<VisualChild>,
}

/// `r` is the scope inferred for `entries`: one window or none stays as
/// it is; entries that split along neither axis stay in the order they
/// were given; otherwise each band of the chosen axis becomes a child.
pub open spec fn is_inferred(entries: Seq<VisualEntry>, r: VisualScope) -> bool
    decreases entries.len(), 0int,
{
    if entries.len() <= 1 {
        r.axis is None && r.children@ == entries.map_values(|e: VisualEntry| VisualChild::Window(e))
    } else {
        match chosen_split(entries) {
            None => r.axis is None && r.children@ == sorted_entries(entries, EntryOrder::Given).map_values(
                |e: VisualEntry| VisualChild::Window(e),
            ),
            Some((axis, bands)) => {
                &&& r.axis == Some(axis)
                &&& r.children@.len() == bands.len()
                &&& forall|i: int|
                    #![trigger r.children@[i]]
                    0 <= i < bands.len() ==> bands[i].len() < entries.len() && child_of(bands[i], r.children@[i])
            },
        }
    }
}

/// `child` stands for `band`: a band of one window is that window, a
/// larger band the scope inferred for it.
pub open spec fn child_of(band: Seq<VisualEntry>, child: VisualChild) -> bool
    decreases band.len(), 1int,
{
    if band.len() == 1 {
        child == VisualChild::Window(band[0])
    } else {
        child matches VisualChild::Scope(s) && is_inferred(band, s)
    }
}

fn windows_of(entries: &Vec<VisualEntry>) -> (r: Vec<VisualChild>)
    ensures
        r@ == entries@.map_values(|e: VisualEntry| VisualChild::Window(e)),
{
    let mut children: Vec<VisualChild> = Vec::new();
    let mut i: usize = 0;
    while i < entries.len()
        invariant
            i <= entries@.len(),
            children@ == entries@.take(i as int).map_values(|e: VisualEntry| VisualChild::Window(e)),
        decreases entries@.len() - i,
    {
        children.push(VisualChild::Window(entries[i].clone()));
        proof {
            assert(entries@.take(i + 1).map_values(|e: VisualEntry| VisualChild::Window(e)) =~= entries@.take(
                i as int,
            ).map_values(|e: VisualEntry| VisualChild::Window(e)).push(VisualChild::Window(entries@[i as int])));
        }
        i = i + 1;
    }
    proof {
        assert(entries@.take(entries@.len() as int) =~= entries@);
    }
    children
}

/// Infers the visual focus hierarchy of `entries`.
pub fn infer_visual_scope(entries: &Vec<VisualEntry>) -> (r: VisualScope)
    ensures
        is_inferred(entries@, r),
    decreases entries@.len(),
{
    if entries.len() <= 1 {
        return VisualScope { axis: None, children: windows_of(entries) };
    }
    let horizontal_bands = cluster_visual_entries(entries, FocusAxis::Horizontal);
    let vertical_bands = cluster_visual_entries(entries, FocusAxis::Vertical);
    proof {
        lemma_partition_sizes(entries@, FocusAxis::Horizontal);
        lemma_partition_sizes(entries@, FocusAxis::Vertical);
        assert(horizontal_bands@.map_values(|v: Vec<VisualEntry>| v@) == bands_along(entries@, FocusAxis::Horizontal));
        assert(vertical_bands@.map_values(|v: Vec<VisualEntry>| v@) == bands_along(entries@, FocusAxis::Vertical));
    }
    let horizontal_score = split_score_of(&horizontal_bands);
    let vertical_score = split_score_of(&vertical_bands);
    let selected: Option<(FocusAxis, Vec<Vec<VisualEntry>>)> = match (horizontal_score, vertical_score) {
        (Some(h), Some(v)) => {
            if h.0 < v.0 || (h.0 == v.0 && h.1 <= v.1) {
                Some((FocusAxis::Horizontal, horizontal_bands))
            } else {
                Some((FocusAxis::Vertical, vertical_bands))
            }
        },
        (Some(_), None) => Some((FocusAxis::Horizontal, horizontal_bands)),
        (None, Some(_)) => Some((FocusAxis::Vertical, vertical_bands)),
        (None, None) => None,
    };
    match selected {
        None => {
            let ordered = sort_entries(entries, &EntryOrder::Given);
            VisualScope { axis: None, children: windows_of(&ordered) }
        },
        Some((axis, bands)) => {
            let ghost views = bands@.map_values(|v: Vec<VisualEntry>| v@);
            proof {
                assert(chosen_split(entries@) == Some((axis, views)));
                lemma_bands_smaller(entries@, axis);
            }
            let mut children: Vec<VisualChild> = Vec::new();
            let mut i: usize = 0;
            while i < bands.len()
                invariant
                    views == bands@.map_values(|v: Vec<VisualEntry>| v@),
                    views.len() >= 2,
                    forall|k: int| 0 <= k < views.len() ==> #[trigger] views[k].len() < entries@.len(),
                    forall|k: int| 0 <= k < views.len() ==> #[trigger] views[k].len() >= 1,
                    i <= bands@.len(),
                    children@.len() == i,
                    forall|k: int| #![trigger children@[k]] 0 <= k < i ==> child_of(views[k], children@[k]),
                decreases bands@.len() - i,
            {
                assert(views[i as int] == bands@[i as int]@);
                let scope = infer_visual_scope(&bands[i]);
                let ghost s0 = scope;
                proof {
                    lemma_lone_child(views[i as int], s0);
                }
                if scope.axis.is_none() && scope.children.len() == 1 {
                    let mut lone = scope;
                    let child = lone.children.remove(0);
                    children.push(child);
                } else {
                    children.push(VisualChild::Scope(scope));
                }
                i = i + 1;
            }
            VisualScope { axis: Some(axis), children }
        },
    }
}

/// The scope inferred for a non-empty group does not split and holds one
/// child exactly when the group is one window, and that child is the window.
proof fn lemma_lone_child(entries: Seq<VisualEntry>, s: VisualScope)
    requires
        is_inferred(entries, s),
        entries.len() >= 1,
    ensures
        (s.axis is None && s.children@.len() == 1) <==> entries.len() == 1,
        entries.len() == 1 ==> s.children@[0] == VisualChild::Window(entries[0]),
{
    if entries.len() >= 2 {
        if chosen_split(entries) is None {
            lemma_sorted_len(entries, EntryOrder::Given);
        }
    }
}

/// The bands of either axis hold all the entries together.
proof fn lemma_partition_sizes(entries: Seq<VisualEntry>, axis: FocusAxis)
    ensures
        total_size(bands_along(entries, axis), bands_along(entries, axis).len() as int) == entries.len(),
{
    let s = sorted_entries(entries, EntryOrder::Along(axis));
    lemma_sorted_len(entries, EntryOrder::Along(axis));
    lemma_cluster_sizes(s, axis, s.len() as int);
}

} // verus!
