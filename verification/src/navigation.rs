//! Directional focus: picking the window that lies in a direction from the
//! focused one, guided by the focus scopes that enclose it.
use vstd::prelude::*;

use crate::id_map::IdMap;
use crate::focus::{branch_view, FocusAxis, FocusBranchKey, FocusScopeNavigation, FocusScopePath, FocusTree};
use crate::ids::{same_key, TextKey, WindowId};
use crate::seq_util::position_of;
use crate::wm::WindowGeometry;

verus! {

/// Positions of two windows in a window order, when both occur in it.
pub fn managed_window_swap_positions(
    window_order: &Vec<WindowId>,
    first_window_id: WindowId,
    second_window_id: WindowId,
) -> (r: Option<(usize, usize)>)
    ensures
        match r {
            Some((i, j)) => {
                &&& i < window_order@.len() && j < window_order@.len()
                &&& window_order@[i as int]@ == first_window_id@
                &&& window_order@[j as int]@ == second_window_id@
                &&& forall|k: int| 0 <= k < i ==> (#[trigger] window_order@[k])@ != first_window_id@
                &&& forall|k: int| 0 <= k < j ==> (#[trigger] window_order@[k])@ != second_window_id@
            },
            None => !crate::seq_util::has_text(window_order@, first_window_id@)
                || !crate::seq_util::has_text(window_order@, second_window_id@),
        },
{
    let first_index = match position_of(window_order, &first_window_id) {
        Some(i) => i,
        None => return None,
    };
    let second_index = match position_of(window_order, &second_window_id) {
        Some(i) => i,
        None => return None,
    };
    Some((first_index, second_index))
}

#[derive(Debug, Clone, Copy, PartialEq, Eq, Structural)]
pub enum NavigationDirection {
    Left,
    Right,
    Up,
    Down,
}

/// A window that focus may move to: its geometry and the focus scopes that
/// enclose it, outermost first.
#[derive(Debug)]
pub struct WindowGeometryCandidate {
    pub window_id: WindowId,
    pub geometry: WindowGeometry,
    pub scope_path: Vec<FocusScopePath>,
}

/// A rectangle as its four edges.
pub struct Bounds {
    pub left: int,
    pub top: int,
    pub right: int,
    pub bottom: int,
}

/// A branch of a scope as seen from the candidates: its key, the box that
/// covers its windows and the candidates (by position) under it.
pub struct BranchShape {
    pub key: (bool, Seq<char>),
    pub bounds: Bounds,
    pub members: Seq<int>,
}

pub open spec fn geometry_bounds(g: WindowGeometry) -> Bounds {
    Bounds { left: g.x as int, top: g.y as int, right: g.x + g.width, bottom: g.y + g.height }
}

/// The smallest box that covers both.
pub open spec fn union_bounds(a: Bounds, b: Bounds) -> Bounds {
    Bounds {
        left: if a.left <= b.left { a.left } else { b.left },
        top: if a.top <= b.top { a.top } else { b.top },
        right: if a.right >= b.right { a.right } else { b.right },
        bottom: if a.bottom >= b.bottom { a.bottom } else { b.bottom },
    }
}

/// Half of `v`, rounded toward zero.
pub open spec fn half(v: int) -> int {
    if v >= 0 {
        v / 2
    } else {
        -((-v) / 2)
    }
}

/// Centre of a box, rounded toward its top-left edges.
pub open spec fn bounds_center(b: Bounds) -> (int, int) {
    (b.left + half(b.right - b.left), b.top + half(b.bottom - b.top))
}

/// The candidate lies in scope `key` at `depth` of its scope path.
pub open spec fn in_scope(c: WindowGeometryCandidate, key: Seq<char>, depth: int) -> bool {
    0 <= depth < c.scope_path@.len() && c.scope_path@[depth]@ == key
}

/// The branch a candidate belongs to within its scope at `depth`: the next
/// scope on its path, or the window itself when the path ends there.
pub open spec fn branch_key_at(c: WindowGeometryCandidate, depth: int) -> (bool, Seq<char>) {
    if c.scope_path@.len() > depth + 1 {
        (true, c.scope_path@[depth + 1]@)
    } else {
        (false, c.window_id@)
    }
}

/// Position of the branch with `key` in `bs`, or -1.
pub open spec fn branch_position(bs: Seq<BranchShape>, key: (bool, Seq<char>)) -> int {
    crate::seq_util::first_index(bs, |b: BranchShape| b.key == key)
}

/// The branches of scope `key` at `depth` formed by the first `n`
/// candidates, in order of first appearance; each covers its candidates.
pub open spec fn scope_branches_upto(cs: Seq<WindowGeometryCandidate>, key: Seq<char>, depth: int, n: int) -> Seq<
    BranchShape,
>
    decreases n,
{
    if n <= 0 {
        Seq::empty()
    } else {
        let bs = scope_branches_upto(cs, key, depth, n - 1);
        let c = cs[n - 1];
        if !in_scope(c, key, depth) {
            bs
        } else {
            let k = branch_key_at(c, depth);
            let p = branch_position(bs, k);
            if p >= 0 {
                bs.update(
                    p,
                    BranchShape {
                        key: k,
                        bounds: union_bounds(bs[p].bounds, geometry_bounds(c.geometry)),
                        members: bs[p].members.push(n - 1),
                    },
                )
            } else {
                bs.push(BranchShape { key: k, bounds: geometry_bounds(c.geometry), members: seq![n - 1] })
            }
        }
    }
}

pub open spec fn scope_branches_of(cs: Seq<WindowGeometryCandidate>, key: Seq<char>, depth: int) -> Seq<BranchShape> {
    scope_branches_upto(cs, key, depth, cs.len() as int)
}

/// A branch of a scope, grouped from the candidates.
struct ScopeBranch {
    key: FocusBranchKey,
    left: i64,
    top: i64,
    right: i64,
    bottom: i64,
    members: Vec<usize>,
}

impl ScopeBranch {
    spec fn shape(self) -> BranchShape {
        BranchShape {
            key: branch_view(self.key),
            bounds: Bounds {
                left: self.left as int,
                top: self.top as int,
                right: self.right as int,
                bottom: self.bottom as int,
            },
            members: self.members@.map_values(|m: usize| m as int),
        }
    }
}

spec fn shapes(bs: Seq<ScopeBranch>) -> Seq<BranchShape> {
    bs.map_values(|b: ScopeBranch| b.shape())
}

/// Edges of every box built from window geometries stay within these.
spec fn edge_in_range(v: int) -> bool {
    -0x1_0000_0000 <= v <= 0x1_0000_0000
}

spec fn bounds_in_range(b: Bounds) -> bool {
    edge_in_range(b.left) && edge_in_range(b.top) && edge_in_range(b.right) && edge_in_range(b.bottom)
}

fn current_branch_key(current: &WindowGeometryCandidate, scope_depth: usize) -> (r: FocusBranchKey)
    ensures
        branch_view(r) == branch_key_at(*current, scope_depth as int),
{
    if current.scope_path.len() > 0 && scope_depth < current.scope_path.len() - 1 {
        FocusBranchKey::Scope(current.scope_path[scope_depth + 1].clone())
    } else {
        FocusBranchKey::Window(current.window_id.clone())
    }
}

fn find_branch(branches: &Vec<ScopeBranch>, key: &FocusBranchKey) -> (r: Option<usize>)
    ensures
        match r {
            Some(i) => i < branches@.len() && i as int == branch_position(shapes(branches@), branch_view(*key)),
            None => branch_position(shapes(branches@), branch_view(*key)) < 0,
        },
{
    let ghost p = |b: BranchShape| b.key == branch_view(*key);
    proof {
        crate::seq_util::lemma_first_index(shapes(branches@), p);
    }
    let mut i: usize = 0;
    while i < branches.len()
        invariant
            p == (|b: BranchShape| b.key == branch_view(*key)),
            i <= branches@.len(),
            forall|j: int| 0 <= j < i ==> !p(#[trigger] shapes(branches@)[j]),
        decreases branches@.len() - i,
    {
        if branches[i].key.same_branch(key) {
            proof {
                crate::seq_util::lemma_first_index(shapes(branches@), p);
            }
            assert(p(shapes(branches@)[i as int]));
            return Some(i);
        }
        i = i + 1;
    }
    None
}

fn same_scope(a: &FocusScopePath, b: &FocusScopePath) -> (r: bool)
    ensures
        r == (a@ == b@),
{
    same_key(a, b)
}

/// Groups the candidates that lie in scope `scope_key` at `scope_depth`
/// into branches.
fn scope_branches(
    candidates: &Vec<WindowGeometryCandidate>,
    scope_key: &FocusScopePath,
    scope_depth: usize,
) -> (r: Vec<ScopeBranch>)
    ensures
        shapes(r@) == scope_branches_of(candidates@, scope_key@, scope_depth as int),
        forall|i: int| 0 <= i < r@.len() ==> bounds_in_range(#[trigger] shapes(r@)[i].bounds),
{
    let mut branches: Vec<ScopeBranch> = Vec::new();
    let mut n: usize = 0;
    while n < candidates.len()
        invariant
            n <= candidates@.len(),
            shapes(branches@) == scope_branches_upto(candidates@, scope_key@, scope_depth as int, n as int),
            forall|i: int| 0 <= i < branches@.len() ==> bounds_in_range(#[trigger] shapes(branches@)[i].bounds),
        decreases candidates@.len() - n,
    {
        let candidate = &candidates[n];
        let ghost before = shapes(branches@);
        let in_scope = scope_depth < candidate.scope_path.len() && same_scope(
            &candidate.scope_path[scope_depth],
            scope_key,
        );
        if in_scope {
            let key = current_branch_key(candidate, scope_depth);
            let g = candidate.geometry;
            let left = g.x as i64;
            let top = g.y as i64;
            let right = g.x as i64 + g.width as i64;
            let bottom = g.y as i64 + g.height as i64;
            match find_branch(&branches, &key) {
                Some(p) => {
                    let ghost old_branches = branches@;
                    proof {
                        crate::seq_util::lemma_first_index(before, |b: BranchShape| b.key == branch_view(key));
                    }
                    let b = branches.remove(p);
                    let mut members = b.members;
                    members.push(n);
                    let merged = ScopeBranch {
                        key: b.key,
                        left: if b.left <= left { b.left } else { left },
                        top: if b.top <= top { b.top } else { top },
                        right: if b.right >= right { b.right } else { right },
                        bottom: if b.bottom >= bottom { b.bottom } else { bottom },
                        members,
                    };
                    branches.insert(p, merged);
                    proof {
                        assert(branches@ =~= old_branches.update(p as int, merged));
                        assert(b.shape() == before[p as int]);
                        assert(merged.members@.map_values(|m: usize| m as int) =~= b.members@.map_values(
                            |m: usize| m as int,
                        ).push(n as int));
                        assert(shapes(branches@) =~= before.update(
                            p as int,
                            BranchShape {
                                key: branch_view(key),
                                bounds: union_bounds(before[p as int].bounds, geometry_bounds(candidate.geometry)),
                                members: before[p as int].members.push(n as int),
                            },
                        ));
                        assert(bounds_in_range(before[p as int].bounds));
                    }
                },
                None => {
                    let mut members: Vec<usize> = Vec::new();
                    members.push(n);
                    let fresh = ScopeBranch { key, left, top, right, bottom, members };
                    branches.push(fresh);
                    proof {
                        assert(fresh.members@.map_values(|m: usize| m as int) =~= seq![n as int]);
                        assert(shapes(branches@) =~= before.push(fresh.shape()));
                    }
                },
            }
        }
        n = n + 1;
    }
    proof {
        assert(candidates@.len() as int == n as int);
    }
    branches
}

pub open spec fn branch_center(b: BranchShape) -> (int, int) {
    bounds_center(b.bounds)
}

pub open spec fn min_int(a: int, b: int) -> int {
    if a <= b {
        a
    } else {
        b
    }
}

pub open spec fn max_int(a: int, b: int) -> int {
    if a >= b {
        a
    } else {
        b
    }
}

/// Least and greatest centre coordinates of the first `n` branches:
/// (min x, max x, min y, max y).
pub open spec fn center_extent(bs: Seq<BranchShape>, n: int) -> (int, int, int, int)
    decreases n,
{
    if n <= 1 {
        let c = branch_center(bs[0]);
        (c.0, c.0, c.1, c.1)
    } else {
        let e = center_extent(bs, n - 1);
        let c = branch_center(bs[n - 1]);
        (min_int(e.0, c.0), max_int(e.1, c.0), min_int(e.2, c.1), max_int(e.3, c.1))
    }
}

/// The axis along which branches spread: the one on which their centres
/// span further (horizontal on a tie); none for fewer than two branches or
/// branches that all share one centre.
pub open spec fn split_axis(bs: Seq<BranchShape>) -> Option<FocusAxis> {
    if bs.len() < 2 {
        None
    } else {
        let e = center_extent(bs, bs.len() as int);
        let x_span = e.1 - e.0;
        let y_span = e.3 - e.2;
        if x_span == 0 && y_span == 0 {
            None
        } else if x_span >= y_span {
            Some(FocusAxis::Horizontal)
        } else {
            Some(FocusAxis::Vertical)
        }
    }
}

/// The direction moves along the axis.
pub open spec fn direction_on_axis(direction: NavigationDirection, axis: FocusAxis) -> bool {
    match direction {
        NavigationDirection::Left | NavigationDirection::Right => axis == FocusAxis::Horizontal,
        NavigationDirection::Up | NavigationDirection::Down => axis == FocusAxis::Vertical,
    }
}

/// The direction moves toward the start of its axis (left or up).
pub open spec fn backward(direction: NavigationDirection) -> bool {
    direction == NavigationDirection::Left || direction == NavigationDirection::Up
}

/// The axis a direction moves along.
pub open spec fn direction_axis(direction: NavigationDirection) -> FocusAxis {
    match direction {
        NavigationDirection::Left | NavigationDirection::Right => FocusAxis::Horizontal,
        NavigationDirection::Up | NavigationDirection::Down => FocusAxis::Vertical,
    }
}

/// Branches are ordered by their top-left corner along the axis first.
pub open spec fn sort_key(b: BranchShape, axis: FocusAxis) -> (int, int) {
    match axis {
        FocusAxis::Horizontal => (b.bounds.left, b.bounds.top),
        FocusAxis::Vertical => (b.bounds.top, b.bounds.left),
    }
}

pub open spec fn pair_lt(a: (int, int), b: (int, int)) -> bool {
    a.0 < b.0 || (a.0 == b.0 && a.1 < b.1)
}

/// Branch `i` comes before branch `j` in a stable sort by `sort_key`.
pub open spec fn precedes(bs: Seq<BranchShape>, axis: FocusAxis, i: int, j: int) -> bool {
    pair_lt(sort_key(bs[i], axis), sort_key(bs[j], axis)) || (sort_key(bs[i], axis) == sort_key(bs[j], axis)
        && i < j)
}

/// The first, in that order, of the first `n` branches that come after
/// branch `after` (after every branch when `after` is negative), or -1.
pub open spec fn least_after(bs: Seq<BranchShape>, axis: FocusAxis, after: int, n: int) -> int
    decreases n,
{
    if n <= 0 {
        -1
    } else {
        let r = least_after(bs, axis, after, n - 1);
        let j = n - 1;
        if (after < 0 || precedes(bs, axis, after, j)) && (r < 0 || precedes(bs, axis, j, r)) {
            j
        } else {
            r
        }
    }
}

/// The last, in that order, of the first `n` branches that come before
/// branch `before` (before every branch when `before` is negative), or -1.
pub open spec fn greatest_before(bs: Seq<BranchShape>, axis: FocusAxis, before: int, n: int) -> int
    decreases n,
{
    if n <= 0 {
        -1
    } else {
        let r = greatest_before(bs, axis, before, n - 1);
        let j = n - 1;
        if (before < 0 || precedes(bs, axis, j, before)) && (r < 0 || precedes(bs, axis, r, j)) {
            j
        } else {
            r
        }
    }
}

/// The branch next to `current` in the direction, wrapping around at the
/// ends of the axis.
pub open spec fn wrapped_neighbor(bs: Seq<BranchShape>, axis: FocusAxis, current: int, direction: NavigationDirection) -> int {
    let n = bs.len() as int;
    if backward(direction) {
        let t = greatest_before(bs, axis, current, n);
        if t >= 0 {
            t
        } else {
            greatest_before(bs, axis, -1, n)
        }
    } else {
        let t = least_after(bs, axis, current, n);
        if t >= 0 {
            t
        } else {
            least_after(bs, axis, -1, n)
        }
    }
}

/// The branch a scope is entered from when moving in the direction: the
/// far end for left and up, the near end for right and down.
pub open spec fn entry_branch(bs: Seq<BranchShape>, direction: NavigationDirection) -> int {
    let axis = direction_axis(direction);
    if backward(direction) {
        greatest_before(bs, axis, -1, bs.len() as int)
    } else {
        least_after(bs, axis, -1, bs.len() as int)
    }
}

pub proof fn lemma_least_after_range(bs: Seq<BranchShape>, axis: FocusAxis, after: int, n: int)
    requires
        0 <= n <= bs.len(),
    ensures
        -1 <= least_after(bs, axis, after, n) < n,
        n > 0 && after < 0 ==> least_after(bs, axis, after, n) >= 0,
    decreases n,
{
    if n > 0 {
        lemma_least_after_range(bs, axis, after, n - 1);
    }
}

pub proof fn lemma_greatest_before_range(bs: Seq<BranchShape>, axis: FocusAxis, before: int, n: int)
    requires
        0 <= n <= bs.len(),
    ensures
        -1 <= greatest_before(bs, axis, before, n) < n,
        n > 0 && before < 0 ==> greatest_before(bs, axis, before, n) >= 0,
    decreases n,
{
    if n > 0 {
        lemma_greatest_before_range(bs, axis, before, n - 1);
    }
}

fn half_i64(v: i64) -> (r: i64)
    requires
        -0x4_0000_0000 <= v <= 0x4_0000_0000,
    ensures
        r == half(v as int),
{
    if v >= 0 {
        v / 2
    } else {
        -((-v) / 2)
    }
}

fn center_of(b: &ScopeBranch) -> (r: (i64, i64))
    requires
        bounds_in_range(b.shape().bounds),
    ensures
        r.0 as int == branch_center(b.shape()).0,
        r.1 as int == branch_center(b.shape()).1,
        -0x2_0000_0000 <= r.0 <= 0x2_0000_0000,
        -0x2_0000_0000 <= r.1 <= 0x2_0000_0000,
{
    (b.left + half_i64(b.right - b.left), b.top + half_i64(b.bottom - b.top))
}

fn axis_matches(direction: NavigationDirection, axis: FocusAxis) -> (r: bool)
    ensures
        r == direction_on_axis(direction, axis),
{
    match direction {
        NavigationDirection::Left | NavigationDirection::Right => match axis {
            FocusAxis::Horizontal => true,
            FocusAxis::Vertical => false,
        },
        NavigationDirection::Up | NavigationDirection::Down => match axis {
            FocusAxis::Horizontal => false,
            FocusAxis::Vertical => true,
        },
    }
}

fn infer_split_axis(branches: &Vec<ScopeBranch>) -> (r: Option<FocusAxis>)
    requires
        forall|i: int| 0 <= i < branches@.len() ==> bounds_in_range(#[trigger] shapes(branches@)[i].bounds),
    ensures
        r == split_axis(shapes(branches@)),
{
    let ghost bs = shapes(branches@);
    if branches.len() < 2 {
        return None;
    }
    assert(bs[0] == branches@[0].shape());
    let first = center_of(&branches[0]);
    let mut min_x = first.0;
    let mut max_x = first.0;
    let mut min_y = first.1;
    let mut max_y = first.1;
    let mut i: usize = 1;
    while i < branches.len()
        invariant
            bs == shapes(branches@),
            forall|k: int| 0 <= k < branches@.len() ==> bounds_in_range(#[trigger] shapes(branches@)[k].bounds),
            1 <= i <= branches@.len(),
            (min_x as int, max_x as int, min_y as int, max_y as int) == center_extent(bs, i as int),
            -0x2_0000_0000 <= min_x <= 0x2_0000_0000,
            -0x2_0000_0000 <= max_x <= 0x2_0000_0000,
            -0x2_0000_0000 <= min_y <= 0x2_0000_0000,
            -0x2_0000_0000 <= max_y <= 0x2_0000_0000,
        decreases branches@.len() - i,
    {
        assert(bs[i as int] == branches@[i as int].shape());
        let c = center_of(&branches[i]);
        if c.0 < min_x {
            min_x = c.0;
        }
        if c.0 > max_x {
            max_x = c.0;
        }
        if c.1 < min_y {
            min_y = c.1;
        }
        if c.1 > max_y {
            max_y = c.1;
        }
        i = i + 1;
    }
    let x_span = max_x - min_x;
    let y_span = max_y - min_y;
    if x_span == 0 && y_span == 0 {
        None
    } else if x_span >= y_span {
        Some(FocusAxis::Horizontal)
    } else {
        Some(FocusAxis::Vertical)
    }
}

fn branch_precedes(branches: &Vec<ScopeBranch>, axis: FocusAxis, i: usize, j: usize) -> (r: bool)
    requires
        i < branches@.len(),
        j < branches@.len(),
    ensures
        r == precedes(shapes(branches@), axis, i as int, j as int),
{
    let a = &branches[i];
    let b = &branches[j];
    let (a0, a1, b0, b1) = match axis {
        FocusAxis::Horizontal => (a.left, a.top, b.left, b.top),
        FocusAxis::Vertical => (a.top, a.left, b.top, b.left),
    };
    proof {
        assert(shapes(branches@)[i as int] == a.shape());
        assert(shapes(branches@)[j as int] == b.shape());
    }
    a0 < b0 || (a0 == b0 && a1 < b1) || (a0 == b0 && a1 == b1 && i < j)
}

/// `least_after` over all branches; `after` is `None` for "after every branch".
fn first_after(branches: &Vec<ScopeBranch>, axis: FocusAxis, after: Option<usize>) -> (r: Option<usize>)
    requires
        after matches Some(a) ==> a < branches@.len(),
    ensures
        ({
            let t = least_after(shapes(branches@), axis, match after {
                Some(a) => a as int,
                None => -1,
            }, branches@.len() as int);
            match r {
                Some(i) => t == i as int && i < branches@.len(),
                None => t < 0,
            }
        }),
{
    let ghost bs = shapes(branches@);
    let ghost a: int = match after {
        Some(a) => a as int,
        None => -1,
    };
    let mut best: Option<usize> = None;
    let mut j: usize = 0;
    while j < branches.len()
        invariant
            bs == shapes(branches@),
            a == (match after {
                Some(x) => x as int,
                None => -1,
            }),
            after matches Some(x) ==> x < branches@.len(),
            j <= branches@.len(),
            match best {
                Some(b) => b < j && least_after(bs, axis, a, j as int) == b as int,
                None => least_after(bs, axis, a, j as int) < 0,
            },
        decreases branches@.len() - j,
    {
        let candidate_ok = match after {
            Some(x) => branch_precedes(branches, axis, x, j),
            None => true,
        };
        if candidate_ok {
            let better = match best {
                Some(b) => branch_precedes(branches, axis, j, b),
                None => true,
            };
            if better {
                best = Some(j);
            }
        }
        j = j + 1;
    }
    best
}

/// `greatest_before` over all branches; `before` is `None` for "before
/// every branch".
fn last_before(branches: &Vec<ScopeBranch>, axis: FocusAxis, before: Option<usize>) -> (r: Option<usize>)
    requires
        before matches Some(b) ==> b < branches@.len(),
    ensures
        ({
            let t = greatest_before(shapes(branches@), axis, match before {
                Some(b) => b as int,
                None => -1,
            }, branches@.len() as int);
            match r {
                Some(i) => t == i as int && i < branches@.len(),
                None => t < 0,
            }
        }),
{
    let ghost bs = shapes(branches@);
    let ghost a: int = match before {
        Some(b) => b as int,
        None => -1,
    };
    let mut best: Option<usize> = None;
    let mut j: usize = 0;
    while j < branches.len()
        invariant
            bs == shapes(branches@),
            a == (match before {
                Some(x) => x as int,
                None => -1,
            }),
            before matches Some(x) ==> x < branches@.len(),
            j <= branches@.len(),
            match best {
                Some(b) => b < j && greatest_before(bs, axis, a, j as int) == b as int,
                None => greatest_before(bs, axis, a, j as int) < 0,
            },
        decreases branches@.len() - j,
    {
        let candidate_ok = match before {
            Some(x) => branch_precedes(branches, axis, j, x),
            None => true,
        };
        if candidate_ok {
            let better = match best {
                Some(b) => branch_precedes(branches, axis, b, j),
                None => true,
            };
            if better {
                best = Some(j);
            }
        }
        j = j + 1;
    }
    best
}

/// The window ids of `cs`, as text.
pub open spec fn max_path_len_upto(cs: Seq<WindowGeometryCandidate>, n: int) -> int
    decreases n,
{
    if n <= 0 {
        0
    } else {
        max_int(max_path_len_upto(cs, n - 1), cs[n - 1].scope_path@.len() as int)
    }
}

/// The length of the longest scope path among the candidates.
pub open spec fn max_path_len(cs: Seq<WindowGeometryCandidate>) -> int {
    max_path_len_upto(cs, cs.len() as int)
}

/// Some candidate of `members` is the window `w`.
pub open spec fn members_hold(cs: Seq<WindowGeometryCandidate>, members: Seq<int>, w: Seq<char>) -> bool {
    exists|k: int| 0 <= k < members.len() && 0 <= #[trigger] members[k] < cs.len() && cs[members[k]].window_id@ == w
}

/// The window focus lands on when it enters branch `b` of a scope at
/// `depth`: a window branch is that window; a scope branch is the window
/// remembered for that scope when it lies in the branch, else the window
/// reached by entering the scope from the side the move comes from.
pub open spec fn resolve_target(
    cs: Seq<WindowGeometryCandidate>,
    b: BranchShape,
    depth: int,
    direction: NavigationDirection,
    remembered: IdMap<FocusScopePath, WindowId>,
) -> Option<Seq<char>>
    decreases max_path_len(cs) - depth, 0int,
{
    if !b.key.0 {
        Some(b.key.1)
    } else {
        let s = b.key.1;
        if remembered.spec_get(s) is Some && members_hold(cs, b.members, remembered.spec_get(s)->0@) {
            Some(remembered.spec_get(s)->0@)
        } else if depth + 1 < max_path_len(cs) {
            entered_target(cs, s, depth + 1, direction, remembered)
        } else {
            None
        }
    }
}

/// The window reached by entering scope `s` at `depth` in the direction:
/// through its last branch (in the direction's axis order) for left and
/// up, its first for right and down.
pub open spec fn entered_target(
    cs: Seq<WindowGeometryCandidate>,
    s: Seq<char>,
    depth: int,
    direction: NavigationDirection,
    remembered: IdMap<FocusScopePath, WindowId>,
) -> Option<Seq<char>>
    decreases max_path_len(cs) - depth, 1int,
{
    let bs = scope_branches_of(cs, s, depth);
    let t = entry_branch(bs, direction);
    if 0 <= t < bs.len() {
        resolve_target(cs, bs[t], depth, direction, remembered)
    } else {
        None
    }
}

/// Score of a move from `from` to `to`: total distance, offset across the
/// axis, distance along it; none when `to` does not lie in the direction.
pub open spec fn directional_score(from: (int, int), to: (int, int), direction: NavigationDirection) -> Option<(int, int, int)> {
    let dx = to.0 - from.0;
    let dy = to.1 - from.1;
    let adx = if dx >= 0 { dx } else { -dx };
    let ady = if dy >= 0 { dy } else { -dy };
    match direction {
        NavigationDirection::Left => if dx < 0 { Some((adx + ady, ady, -dx)) } else { None },
        NavigationDirection::Right => if dx > 0 { Some((adx + ady, ady, dx)) } else { None },
        NavigationDirection::Up => if dy < 0 { Some((adx + ady, adx, -dy)) } else { None },
        NavigationDirection::Down => if dy > 0 { Some((adx + ady, adx, dy)) } else { None },
    }
}

pub open spec fn score_lt(a: (int, int, int), b: (int, int, int)) -> bool {
    a.0 < b.0 || (a.0 == b.0 && (a.1 < b.1 || (a.1 == b.1 && a.2 < b.2)))
}

pub open spec fn candidate_score(c: WindowGeometryCandidate, from: WindowGeometryCandidate, direction: NavigationDirection) -> Option<(int, int, int)> {
    if c.window_id@ == from.window_id@ {
        None
    } else {
        directional_score(
            bounds_center(geometry_bounds(from.geometry)),
            bounds_center(geometry_bounds(c.geometry)),
            direction,
        )
    }
}

/// Position of the first of the first `n` candidates with the lowest
/// score, or -1 when none lies in the direction.
pub open spec fn best_scored(cs: Seq<WindowGeometryCandidate>, from: WindowGeometryCandidate, direction: NavigationDirection, n: int) -> int
    decreases n,
{
    if n <= 0 {
        -1
    } else {
        let r = best_scored(cs, from, direction, n - 1);
        let sc = candidate_score(cs[n - 1], from, direction);
        if sc is Some && (r < 0 || score_lt(sc->0, candidate_score(cs[r], from, direction)->0)) {
            n - 1
        } else {
            r
        }
    }
}

/// The nearest window in the direction by centre distance, ignoring scopes.
pub open spec fn geometric_target(cs: Seq<WindowGeometryCandidate>, from: WindowGeometryCandidate, direction: NavigationDirection) -> Option<Seq<char>> {
    let i = best_scored(cs, from, direction, cs.len() as int);
    if 0 <= i < cs.len() {
        Some(cs[i].window_id@)
    } else {
        None
    }
}

/// The move decided within the scope at `depth` of the current window's
/// path: when the scope's branches spread along the direction's axis, the
/// neighbouring branch (wrapping around) resolved to a window.
pub open spec fn scope_step(
    cs: Seq<WindowGeometryCandidate>,
    current: WindowGeometryCandidate,
    direction: NavigationDirection,
    remembered: IdMap<FocusScopePath, WindowId>,
    depth: int,
) -> Option<Seq<char>> {
    let bs = scope_branches_of(cs, current.scope_path@[depth]@, depth);
    match split_axis(bs) {
        None => None,
        Some(axis) => if !direction_on_axis(direction, axis) || bs.len() < 2 {
            None
        } else {
            let ci = branch_position(bs, branch_key_at(current, depth));
            if ci < 0 {
                None
            } else {
                let t = wrapped_neighbor(bs, axis, ci, direction);
                if 0 <= t < bs.len() {
                    resolve_target(cs, bs[t], depth, direction, remembered)
                } else {
                    None
                }
            }
        },
    }
}

/// Tries the scopes of the current window from the innermost of the first
/// `k` outwards, then falls back to the nearest window by geometry.
pub open spec fn scope_walk(
    cs: Seq<WindowGeometryCandidate>,
    current: WindowGeometryCandidate,
    direction: NavigationDirection,
    remembered: IdMap<FocusScopePath, WindowId>,
    k: int,
) -> Option<Seq<char>>
    decreases k,
{
    if k <= 0 {
        geometric_target(cs, current, direction)
    } else {
        match scope_step(cs, current, direction, remembered, k - 1) {
            Some(w) => Some(w),
            None => scope_walk(cs, current, direction, remembered, k - 1),
        }
    }
}

fn candidate_center(g: WindowGeometry) -> (r: (i64, i64))
    ensures
        r.0 as int == bounds_center(geometry_bounds(g)).0,
        r.1 as int == bounds_center(geometry_bounds(g)).1,
        -0x2_0000_0000 <= r.0 <= 0x2_0000_0000,
        -0x2_0000_0000 <= r.1 <= 0x2_0000_0000,
{
    (g.x as i64 + half_i64(g.width as i64), g.y as i64 + half_i64(g.height as i64))
}

fn score_of(from: (i64, i64), to: (i64, i64), direction: NavigationDirection) -> (r: Option<(i64, i64, i64)>)
    requires
        -0x2_0000_0000 <= from.0 <= 0x2_0000_0000,
        -0x2_0000_0000 <= from.1 <= 0x2_0000_0000,
        -0x2_0000_0000 <= to.0 <= 0x2_0000_0000,
        -0x2_0000_0000 <= to.1 <= 0x2_0000_0000,
    ensures
        match r {
            Some(t) => directional_score((from.0 as int, from.1 as int), (to.0 as int, to.1 as int), direction)
                == Some((t.0 as int, t.1 as int, t.2 as int)),
            None => directional_score((from.0 as int, from.1 as int), (to.0 as int, to.1 as int), direction) is None,
        },
{
    let dx = to.0 - from.0;
    let dy = to.1 - from.1;
    let adx = if dx >= 0 { dx } else { -dx };
    let ady = if dy >= 0 { dy } else { -dy };
    match direction {
        NavigationDirection::Left => if dx < 0 { Some((adx + ady, ady, -dx)) } else { None },
        NavigationDirection::Right => if dx > 0 { Some((adx + ady, ady, dx)) } else { None },
        NavigationDirection::Up => if dy < 0 { Some((adx + ady, adx, -dy)) } else { None },
        NavigationDirection::Down => if dy > 0 { Some((adx + ady, adx, dy)) } else { None },
    }
}

fn lt_score(a: (i64, i64, i64), b: (i64, i64, i64)) -> (r: bool)
    ensures
        r == score_lt((a.0 as int, a.1 as int, a.2 as int), (b.0 as int, b.1 as int, b.2 as int)),
{
    a.0 < b.0 || (a.0 == b.0 && (a.1 < b.1 || (a.1 == b.1 && a.2 < b.2)))
}

fn select_geometric_candidate(
    candidates: &Vec<WindowGeometryCandidate>,
    current: &WindowGeometryCandidate,
    direction: NavigationDirection,
) -> (r: Option<WindowId>)
    ensures
        crate::ids::opt_text(r) == geometric_target(candidates@, *current, direction),
{
    let ghost cs = candidates@;
    let from = candidate_center(current.geometry);
    let mut best: Option<(usize, (i64, i64, i64))> = None;
    let mut n: usize = 0;
    while n < candidates.len()
        invariant
            cs == candidates@,
            n <= cs.len(),
            from.0 as int == bounds_center(geometry_bounds(current.geometry)).0,
            from.1 as int == bounds_center(geometry_bounds(current.geometry)).1,
            -0x2_0000_0000 <= from.0 <= 0x2_0000_0000,
            -0x2_0000_0000 <= from.1 <= 0x2_0000_0000,
            match best {
                Some((b, sc)) => b < n && best_scored(cs, *current, direction, n as int) == b as int
                    && candidate_score(cs[b as int], *current, direction) == Some((sc.0 as int, sc.1 as int, sc.2 as int)),
                None => best_scored(cs, *current, direction, n as int) < 0,
            },
        decreases cs.len() - n,
    {
        let c = &candidates[n];
        if !same_key(&c.window_id, &current.window_id) {
            let to = candidate_center(c.geometry);
            match score_of(from, to, direction) {
                Some(sc) => {
                    let better = match best {
                        Some((_, b)) => lt_score(sc, b),
                        None => true,
                    };
                    if better {
                        best = Some((n, sc));
                    }
                },
                None => {},
            }
        }
        n = n + 1;
    }
    match best {
        Some((b, _)) => Some(candidates[b].window_id.clone()),
        None => None,
    }
}

fn max_scope_path_len(candidates: &Vec<WindowGeometryCandidate>) -> (r: usize)
    ensures
        r as int == max_path_len(candidates@),
{
    let mut m: usize = 0;
    let mut n: usize = 0;
    while n < candidates.len()
        invariant
            n <= candidates@.len(),
            m as int == max_path_len_upto(candidates@, n as int),
        decreases candidates@.len() - n,
    {
        if candidates[n].scope_path.len() > m {
            m = candidates[n].scope_path.len();
        }
        n = n + 1;
    }
    m
}

fn members_hold_window(candidates: &Vec<WindowGeometryCandidate>, members: &Vec<usize>, w: &WindowId) -> (r: bool)
    ensures
        r == members_hold(candidates@, members@.map_values(|m: usize| m as int), w@),
{
    let ghost ms = members@.map_values(|m: usize| m as int);
    let mut k: usize = 0;
    while k < members.len()
        invariant
            ms == members@.map_values(|m: usize| m as int),
            k <= members@.len(),
            forall|j: int|
                0 <= j < k ==> !(0 <= #[trigger] ms[j] < candidates@.len() && candidates@[ms[j]].window_id@ == w@),
        decreases members@.len() - k,
    {
        let m = members[k];
        if m < candidates.len() && same_key(&candidates[m].window_id, w) {
            assert(ms[k as int] == m as int);
            return true;
        }
        k = k + 1;
    }
    false
}

fn resolve_branch_target(
    candidates: &Vec<WindowGeometryCandidate>,
    branch: &ScopeBranch,
    depth: usize,
    direction: NavigationDirection,
    remembered: &IdMap<FocusScopePath, WindowId>,
    bound: usize,
) -> (r: Option<WindowId>)
    requires
        remembered.wf(),
        bound as int == max_path_len(candidates@),
        depth < bound,
    ensures
        crate::ids::opt_text(r) == resolve_target(candidates@, branch.shape(), depth as int, direction, *remembered),
    decreases bound - depth, 0int,
{
    match &branch.key {
        FocusBranchKey::Window(w) => Some(w.clone()),
        FocusBranchKey::Scope(scope_key) => {
            match remembered.get(scope_key) {
                Some(rw) => {
                    if members_hold_window(candidates, &branch.members, rw) {
                        return Some(rw.clone());
                    }
                },
                None => {},
            }
            if depth + 1 < bound {
                default_focus_in_scope(candidates, scope_key, depth + 1, direction, remembered, bound)
            } else {
                None
            }
        },
    }
}

fn direction_axis_of(direction: NavigationDirection) -> (r: FocusAxis)
    ensures
        r == direction_axis(direction),
{
    match direction {
        NavigationDirection::Left | NavigationDirection::Right => FocusAxis::Horizontal,
        NavigationDirection::Up | NavigationDirection::Down => FocusAxis::Vertical,
    }
}

fn is_backward(direction: NavigationDirection) -> (r: bool)
    ensures
        r == backward(direction),
{
    match direction {
        NavigationDirection::Left | NavigationDirection::Up => true,
        NavigationDirection::Right | NavigationDirection::Down => false,
    }
}

fn default_focus_in_scope(
    candidates: &Vec<WindowGeometryCandidate>,
    scope_key: &FocusScopePath,
    depth: usize,
    direction: NavigationDirection,
    remembered: &IdMap<FocusScopePath, WindowId>,
    bound: usize,
) -> (r: Option<WindowId>)
    requires
        remembered.wf(),
        bound as int == max_path_len(candidates@),
        depth < bound,
    ensures
        crate::ids::opt_text(r) == entered_target(candidates@, scope_key@, depth as int, direction, *remembered),
    decreases bound - depth, 1int,
{
    let branches = scope_branches(candidates, scope_key, depth);
    let axis = direction_axis_of(direction);
    let target = if is_backward(direction) {
        last_before(&branches, axis, None)
    } else {
        first_after(&branches, axis, None)
    };
    match target {
        Some(i) => {
            assert(shapes(branches@)[i as int] == branches@[i as int].shape());
            resolve_branch_target(candidates, &branches[i], depth, direction, remembered, bound)
        },
        None => None,
    }
}

fn wrapped_target(branches: &Vec<ScopeBranch>, axis: FocusAxis, current: usize, direction: NavigationDirection) -> (r: usize)
    requires
        current < branches@.len(),
    ensures
        r as int == wrapped_neighbor(shapes(branches@), axis, current as int, direction),
        r < branches@.len(),
{
    proof {
        lemma_least_after_range(shapes(branches@), axis, current as int, branches@.len() as int);
        lemma_least_after_range(shapes(branches@), axis, -1, branches@.len() as int);
        lemma_greatest_before_range(shapes(branches@), axis, current as int, branches@.len() as int);
        lemma_greatest_before_range(shapes(branches@), axis, -1, branches@.len() as int);
    }
    if is_backward(direction) {
        match last_before(branches, axis, Some(current)) {
            Some(t) => t,
            None => match last_before(branches, axis, None) {
                Some(t) => t,
                None => 0,
            },
        }
    } else {
        match first_after(branches, axis, Some(current)) {
            Some(t) => t,
            None => match first_after(branches, axis, None) {
                Some(t) => t,
                None => 0,
            },
        }
    }
}

fn step_in_scope(
    candidates: &Vec<WindowGeometryCandidate>,
    current: &WindowGeometryCandidate,
    direction: NavigationDirection,
    remembered: &IdMap<FocusScopePath, WindowId>,
    depth: usize,
    bound: usize,
) -> (r: Option<WindowId>)
    requires
        remembered.wf(),
        bound as int == max_path_len(candidates@),
        depth < current.scope_path@.len(),
        current.scope_path@.len() <= bound,
    ensures
        crate::ids::opt_text(r) == scope_step(candidates@, *current, direction, *remembered, depth as int),
{
    let branches = scope_branches(candidates, &current.scope_path[depth], depth);
    let axis = match infer_split_axis(&branches) {
        Some(a) => a,
        None => {
            return None;
        },
    };
    if !axis_matches(direction, axis) || branches.len() < 2 {
        return None;
    }
    let key = current_branch_key(current, depth);
    let ci = match find_branch(&branches, &key) {
        Some(i) => i,
        None => {
            return None;
        },
    };
    let t = wrapped_target(&branches, axis, ci, direction);
    assert(shapes(branches@)[t as int] == branches@[t as int].shape());
    resolve_branch_target(candidates, &branches[t], depth, direction, remembered, bound)
}

fn walk_scopes(
    candidates: &Vec<WindowGeometryCandidate>,
    current: &WindowGeometryCandidate,
    direction: NavigationDirection,
    remembered: &IdMap<FocusScopePath, WindowId>,
    bound: usize,
) -> (r: Option<WindowId>)
    requires
        remembered.wf(),
        bound as int == max_path_len(candidates@),
        current.scope_path@.len() <= bound,
    ensures
        crate::ids::opt_text(r) == scope_walk(
            candidates@,
            *current,
            direction,
            *remembered,
            current.scope_path@.len() as int,
        ),
{
    let ghost goal = scope_walk(candidates@, *current, direction, *remembered, current.scope_path@.len() as int);
    let mut k: usize = current.scope_path.len();
    while k > 0
        invariant
            remembered.wf(),
            bound as int == max_path_len(candidates@),
            current.scope_path@.len() <= bound,
            k <= current.scope_path@.len(),
            goal == scope_walk(candidates@, *current, direction, *remembered, k as int),
            goal == scope_walk(candidates@, *current, direction, *remembered, current.scope_path@.len() as int),
        decreases k,
    {
        match step_in_scope(candidates, current, direction, remembered, k - 1, bound) {
            Some(w) => {
                return Some(w);
            },
            None => {},
        }
        k = k - 1;
    }
    select_geometric_candidate(candidates, current, direction)
}

/// The branch next to `current` among `count`, without wrapping.
pub open spec fn adjacent_index(current: int, count: int, direction: NavigationDirection) -> Option<int> {
    if count < 2 {
        None
    } else if backward(direction) {
        if current >= 1 {
            Some(current - 1)
        } else {
            None
        }
    } else if current + 1 < count {
        Some(current + 1)
    } else {
        None
    }
}

/// The branch next to `current` among `count`, wrapping around.
pub open spec fn wrapped_index(current: int, count: int, direction: NavigationDirection) -> Option<int> {
    if count < 2 {
        None
    } else if backward(direction) {
        Some(if current >= 1 { current - 1 } else { count - 1 })
    } else {
        Some(if current + 1 < count { current + 1 } else { 0 })
    }
}

/// The window focus lands on when it enters branch `b` of the focus tree:
/// a window branch is that window; a scope branch is the window remembered
/// for the scope when the scope holds it, else the window reached by
/// entering the scope. `fuel` bounds how many scopes are entered in turn.
pub open spec fn tree_resolve(
    tree: FocusTree,
    b: FocusBranchKey,
    direction: NavigationDirection,
    remembered: IdMap<FocusScopePath, WindowId>,
    fuel: nat,
) -> Option<Seq<char>>
    decreases fuel, 1int,
{
    match b {
        FocusBranchKey::Window(w) => Some(w@),
        FocusBranchKey::Scope(s) => {
            let rw = remembered.spec_get(s@);
            let d = tree.spec_descendants(s@);
            if rw is Some && d is Some && crate::seq_util::has_text(d->0, rw->0@) {
                Some(rw->0@)
            } else {
                tree_entered(tree, s@, direction, remembered, fuel)
            }
        },
    }
}

/// The window reached by entering scope `s` of the focus tree: through its
/// last branch for left and up and its first for right and down; a scope
/// without navigation yields its last or first window.
pub open spec fn tree_entered(
    tree: FocusTree,
    s: Seq<char>,
    direction: NavigationDirection,
    remembered: IdMap<FocusScopePath, WindowId>,
    fuel: nat,
) -> Option<Seq<char>>
    decreases fuel, 0int,
{
    match tree.spec_navigation(s) {
        None => match tree.spec_descendants(s) {
            None => None,
            Some(d) => if d.len() == 0 {
                None
            } else if backward(direction) {
                Some(d.last()@)
            } else {
                Some(d[0]@)
            },
        },
        Some(nav) => if nav.branches@.len() == 0 || fuel == 0 {
            None
        } else {
            let b = if backward(direction) {
                nav.branches@.last()
            } else {
                nav.branches@[0]
            };
            tree_resolve(tree, b, direction, remembered, (fuel - 1) as nat)
        },
    }
}

/// Position of the current window's branch among a scope's navigation
/// branches, or -1.
pub open spec fn tree_branch_position(nav: FocusScopeNavigation, key: (bool, Seq<char>)) -> int {
    crate::seq_util::first_index(nav.branches@, |b: FocusBranchKey| branch_view(b) == key)
}

/// After the walk: the move that wraps around within the outermost scope
/// that had the current window's branch but no neighbour in the direction.
pub open spec fn tree_wrap(
    tree: FocusTree,
    wrap: Option<(Seq<char>, int, int)>,
    direction: NavigationDirection,
    remembered: IdMap<FocusScopePath, WindowId>,
    fuel: nat,
) -> Option<Seq<char>> {
    match wrap {
        None => None,
        Some((s, current, count)) => match tree.spec_navigation(s) {
            None => None,
            Some(nav) => match wrapped_index(current, count, direction) {
                None => None,
                Some(t) => if 0 <= t < nav.branches@.len() {
                    tree_resolve(tree, nav.branches@[t], direction, remembered, fuel)
                } else {
                    None
                },
            },
        },
    }
}

/// Walks the first `k` scopes of the tree path from the innermost
/// outwards; a scope along the direction's axis moves to the neighbouring
/// branch of the current window's, if any.
pub open spec fn tree_walk(
    tree: FocusTree,
    current: WindowGeometryCandidate,
    path: Seq<FocusScopePath>,
    direction: NavigationDirection,
    remembered: IdMap<FocusScopePath, WindowId>,
    k: int,
    wrap: Option<(Seq<char>, int, int)>,
    fuel: nat,
) -> Option<Seq<char>>
    decreases k,
{
    if k <= 0 {
        tree_wrap(tree, wrap, direction, remembered, fuel)
    } else {
        let d = k - 1;
        let s = path[d]@;
        match tree.spec_navigation(s) {
            None => tree_walk(tree, current, path, direction, remembered, k - 1, wrap, fuel),
            Some(nav) => if !direction_on_axis(direction, nav.axis) || nav.branches@.len() < 2 {
                tree_walk(tree, current, path, direction, remembered, k - 1, wrap, fuel)
            } else {
                let ci = tree_branch_position(nav, branch_key_at(current, d));
                if ci < 0 {
                    tree_walk(tree, current, path, direction, remembered, k - 1, wrap, fuel)
                } else {
                    let count = nav.branches@.len() as int;
                    let hit = match adjacent_index(ci, count, direction) {
                        Some(t) => tree_resolve(tree, nav.branches@[t], direction, remembered, fuel),
                        None => None,
                    };
                    if hit is Some {
                        hit
                    } else {
                        tree_walk(tree, current, path, direction, remembered, k - 1, Some((s, ci, count)), fuel)
                    }
                }
            },
        }
    }
}

/// The move the focus tree decides for the current window, if any.
pub open spec fn tree_target(
    tree: FocusTree,
    current: WindowGeometryCandidate,
    direction: NavigationDirection,
    remembered: IdMap<FocusScopePath, WindowId>,
) -> Option<Seq<char>> {
    match tree.spec_scope_path(current.window_id@) {
        None => None,
        Some(path) => tree_walk(
            tree,
            current,
            path,
            direction,
            remembered,
            path.len() as int,
            None,
            tree.scopes@.len(),
        ),
    }
}

fn resolve_tree_branch_target(
    focus_tree: &FocusTree,
    branch: &FocusBranchKey,
    direction: NavigationDirection,
    remembered: &IdMap<FocusScopePath, WindowId>,
    fuel: usize,
) -> (r: Option<WindowId>)
    requires
        remembered.wf(),
    ensures
        crate::ids::opt_text(r) == tree_resolve(*focus_tree, *branch, direction, *remembered, fuel as nat),
    decreases fuel, 1int,
{
    match branch {
        FocusBranchKey::Window(w) => Some(w.clone()),
        FocusBranchKey::Scope(scope_key) => {
            match remembered.get(scope_key) {
                Some(rw) => match focus_tree.descendants(scope_key) {
                    Some(descendants) => {
                        if crate::seq_util::contains_text(descendants, rw) {
                            return Some(rw.clone());
                        }
                    },
                    None => {},
                },
                None => {},
            }
            default_focus_in_tree_scope(focus_tree, scope_key, direction, remembered, fuel)
        },
    }
}

fn default_focus_in_tree_scope(
    focus_tree: &FocusTree,
    scope_key: &FocusScopePath,
    direction: NavigationDirection,
    remembered: &IdMap<FocusScopePath, WindowId>,
    fuel: usize,
) -> (r: Option<WindowId>)
    requires
        remembered.wf(),
    ensures
        crate::ids::opt_text(r) == tree_entered(*focus_tree, scope_key@, direction, *remembered, fuel as nat),
    decreases fuel, 0int,
{
    match focus_tree.navigation(scope_key) {
        None => match focus_tree.descendants(scope_key) {
            None => None,
            Some(descendants) => {
                if descendants.len() == 0 {
                    None
                } else if is_backward(direction) {
                    Some(descendants[descendants.len() - 1].clone())
                } else {
                    Some(descendants[0].clone())
                }
            },
        },
        Some(navigation) => {
            if navigation.branches.len() == 0 || fuel == 0 {
                None
            } else {
                let b = if is_backward(direction) {
                    &navigation.branches[navigation.branches.len() - 1]
                } else {
                    &navigation.branches[0]
                };
                resolve_tree_branch_target(focus_tree, b, direction, remembered, fuel - 1)
            }
        },
    }
}

fn tree_branch_index(navigation: &FocusScopeNavigation, key: &FocusBranchKey) -> (r: Option<usize>)
    ensures
        match r {
            Some(i) => i < navigation.branches@.len() && i as int == tree_branch_position(*navigation, branch_view(*key)),
            None => tree_branch_position(*navigation, branch_view(*key)) < 0,
        },
{
    let ghost p = |b: FocusBranchKey| branch_view(b) == branch_view(*key);
    proof {
        crate::seq_util::lemma_first_index(navigation.branches@, p);
    }
    let mut i: usize = 0;
    while i < navigation.branches.len()
        invariant
            p == (|b: FocusBranchKey| branch_view(b) == branch_view(*key)),
            i <= navigation.branches@.len(),
            forall|j: int| 0 <= j < i ==> !p(#[trigger] navigation.branches@[j]),
        decreases navigation.branches@.len() - i,
    {
        if navigation.branches[i].same_branch(key) {
            proof {
                crate::seq_util::lemma_first_index(navigation.branches@, p);
            }
            assert(p(navigation.branches@[i as int]));
            return Some(i);
        }
        i = i + 1;
    }
    None
}

fn focus_axis_matches(direction: NavigationDirection, axis: FocusAxis) -> (r: bool)
    ensures
        r == direction_on_axis(direction, axis),
{
    axis_matches(direction, axis)
}

fn select_from_tree(
    current: &WindowGeometryCandidate,
    direction: NavigationDirection,
    remembered: &IdMap<FocusScopePath, WindowId>,
    focus_tree: &FocusTree,
) -> (r: Option<WindowId>)
    requires
        remembered.wf(),
    ensures
        crate::ids::opt_text(r) == tree_target(*focus_tree, *current, direction, *remembered),
{
    let scope_path = match focus_tree.scope_path(&current.window_id) {
        Some(p) => p,
        None => {
            return None;
        },
    };
    let fuel = focus_tree.scopes.len();
    let ghost goal = tree_target(*focus_tree, *current, direction, *remembered);
    let mut wrap: Option<(usize, usize, usize)> = None;
    let ghost wrap_view: Option<(Seq<char>, int, int)> = None;
    let mut k: usize = scope_path.len();
    while k > 0
        invariant
            remembered.wf(),
            fuel as nat == focus_tree.scopes@.len(),
            k <= scope_path@.len(),
            wrap_view == (match wrap {
                Some((d, ci, count)) => Some((scope_path@[d as int]@, ci as int, count as int)),
                None => None,
            }),
            wrap matches Some((d, ci, count)) ==> d < scope_path@.len() && ci < count,
            goal == tree_target(*focus_tree, *current, direction, *remembered),
            goal == tree_walk(*focus_tree, *current, scope_path@, direction, *remembered, k as int, wrap_view, fuel as nat),
        decreases k,
    {
        let d = k - 1;
        let scope_key = &scope_path[d];
        match focus_tree.navigation(scope_key) {
            None => {},
            Some(navigation) => {
                if focus_axis_matches(direction, navigation.axis) && navigation.branches.len() >= 2 {
                    let key = current_branch_key(current, d);
                    match tree_branch_index(navigation, &key) {
                        None => {},
                        Some(ci) => {
                            let count = navigation.branches.len();
                            let adjacent = if is_backward(direction) {
                                if ci >= 1 { Some(ci - 1) } else { None }
                            } else if ci + 1 < count {
                                Some(ci + 1)
                            } else {
                                None
                            };
                            match adjacent {
                                Some(t) => {
                                    match resolve_tree_branch_target(
                                        focus_tree,
                                        &navigation.branches[t],
                                        direction,
                                        remembered,
                                        fuel,
                                    ) {
                                        Some(w) => {
                                            return Some(w);
                                        },
                                        None => {},
                                    }
                                },
                                None => {},
                            }
                            wrap = Some((d, ci, count));
                            proof {
                                wrap_view = Some((scope_path@[d as int]@, ci as int, count as int));
                            }
                        },
                    }
                }
            },
        }
        k = k - 1;
    }
    match wrap {
        None => None,
        Some((d, ci, count)) => {
            let navigation = match focus_tree.navigation(&scope_path[d]) {
                Some(n) => n,
                None => {
                    return None;
                },
            };
            if count < 2 {
                return None;
            }
            let t = if is_backward(direction) {
                if ci >= 1 { ci - 1 } else { count - 1 }
            } else if ci + 1 < count {
                ci + 1
            } else {
                0
            };
            if t < navigation.branches.len() {
                resolve_tree_branch_target(focus_tree, &navigation.branches[t], direction, remembered, fuel)
            } else {
                None
            }
        },
    }
}

pub proof fn lemma_max_path_len(cs: Seq<WindowGeometryCandidate>, n: int, i: int)
    requires
        0 <= i < n <= cs.len(),
    ensures
        cs[i].scope_path@.len() <= max_path_len_upto(cs, n),
    decreases n,
{
    if i < n - 1 {
        lemma_max_path_len(cs, n - 1, i);
    }
}

/// Position of the candidate for window `w`, or -1.
pub open spec fn candidate_position(cs: Seq<WindowGeometryCandidate>, w: Seq<char>) -> int {
    crate::seq_util::first_index(cs, |c: WindowGeometryCandidate| c.window_id@ == w)
}

/// The window that directional focus moves to: decided by the focus tree
/// when it has one, else by the scopes of the focused window from the
/// innermost outwards, else by geometry alone. Nothing when no window is
/// focused or the focused window is not among the candidates.
pub open spec fn spec_directional_focus(
    cs: Seq<WindowGeometryCandidate>,
    focused: Option<WindowId>,
    direction: NavigationDirection,
    remembered: IdMap<FocusScopePath, WindowId>,
    focus_tree: Option<FocusTree>,
) -> Option<Seq<char>> {
    match focused {
        None => None,
        Some(w) => {
            let i = candidate_position(cs, w@);
            if i < 0 {
                None
            } else {
                let current = cs[i];
                let from_tree = match focus_tree {
                    Some(tree) => tree_target(tree, current, direction, remembered),
                    None => None,
                };
                if from_tree is Some {
                    from_tree
                } else {
                    scope_walk(cs, current, direction, remembered, current.scope_path@.len() as int)
                }
            }
        },
    }
}

fn find_candidate(candidates: &Vec<WindowGeometryCandidate>, w: &WindowId) -> (r: Option<usize>)
    ensures
        match r {
            Some(i) => i < candidates@.len() && i as int == candidate_position(candidates@, w@),
            None => candidate_position(candidates@, w@) < 0,
        },
{
    let ghost p = |c: WindowGeometryCandidate| c.window_id@ == w@;
    proof {
        crate::seq_util::lemma_first_index(candidates@, p);
    }
    let mut i: usize = 0;
    while i < candidates.len()
        invariant
            p == (|c: WindowGeometryCandidate| c.window_id@ == w@),
            i <= candidates@.len(),
            forall|j: int| 0 <= j < i ==> !p(#[trigger] candidates@[j]),
        decreases candidates@.len() - i,
    {
        if same_key(&candidates[i].window_id, w) {
            proof {
                crate::seq_util::lemma_first_index(candidates@, p);
            }
            assert(p(candidates@[i as int]));
            return Some(i);
        }
        i = i + 1;
    }
    None
}

/// The window that focus moves to from the focused one in `direction`.
///
/// With a focus tree, the tree's scopes are walked from the innermost
/// outwards and the first neighbouring branch along the direction's axis
/// wins; failing that, focus wraps around within the outermost such scope.
/// Otherwise (or when the tree decides nothing) the scopes of the focused
/// candidate are walked the same way, with branches grouped from the
/// candidates and their axis inferred from the spread of their centres,
/// wrapping within each scope; and last the nearest window in the
/// direction by centre distance. Entering a nested scope lands on the
/// window remembered for it, else on the branch at the side the move comes
/// from.
pub fn select_directional_focus_candidate(
    candidates: &Vec<WindowGeometryCandidate>,
    current_focused_window_id: Option<WindowId>,
    direction: NavigationDirection,
    remembered_focus_by_scope: &IdMap<FocusScopePath, WindowId>,
    focus_tree: Option<&FocusTree>,
) -> (r: Option<WindowId>)
    requires
        remembered_focus_by_scope.wf(),
    ensures
        crate::ids::opt_text(r) == spec_directional_focus(
            candidates@,
            current_focused_window_id,
            direction,
            *remembered_focus_by_scope,
            match focus_tree {
                Some(t) => Some(*t),
                None => None,
            },
        ),
{
    let focused = match current_focused_window_id {
        Some(w) => w,
        None => {
            return None;
        },
    };
    let index = match find_candidate(candidates, &focused) {
        Some(i) => i,
        None => {
            return None;
        },
    };
    let current = &candidates[index];
    match focus_tree {
        Some(tree) => match select_from_tree(current, direction, remembered_focus_by_scope, tree) {
            Some(w) => {
                return Some(w);
            },
            None => {},
        },
        None => {},
    }
    let bound = max_scope_path_len(candidates);
    proof {
        lemma_max_path_len(candidates@, candidates@.len() as int, index as int);
    }
    walk_scopes(candidates, current, direction, remembered_focus_by_scope, bound)
}


/// `to` lies strictly in `direction` from `from`: further left, right, up
/// or down.
pub open spec fn lies_toward(from: (int, int), to: (int, int), direction: NavigationDirection) -> bool {
    match direction {
        NavigationDirection::Left => to.0 < from.0,
        NavigationDirection::Right => to.0 > from.0,
        NavigationDirection::Up => to.1 < from.1,
        NavigationDirection::Down => to.1 > from.1,
    }
}

/// The distance between two points, across and along added up.
pub open spec fn manhattan(a: (int, int), b: (int, int)) -> int {
    (if b.0 >= a.0 { b.0 - a.0 } else { a.0 - b.0 }) + (if b.1 >= a.1 { b.1 - a.1 } else { a.1 - b.1 })
}

pub open spec fn window_center(c: WindowGeometryCandidate) -> (int, int) {
    bounds_center(geometry_bounds(c.geometry))
}

/// Another window whose centre lies strictly in `direction` from `from`'s.
pub open spec fn ahead_of(c: WindowGeometryCandidate, from: WindowGeometryCandidate, direction: NavigationDirection) -> bool {
    c.window_id@ != from.window_id@ && lies_toward(window_center(from), window_center(c), direction)
}

proof fn lemma_score_means_ahead(c: WindowGeometryCandidate, from: WindowGeometryCandidate, direction: NavigationDirection)
    ensures
        candidate_score(c, from, direction) is Some <==> ahead_of(c, from, direction),
        candidate_score(c, from, direction) matches Some(sc) ==> sc.0 == manhattan(window_center(from), window_center(c)),
{
}

proof fn lemma_best_scored(cs: Seq<WindowGeometryCandidate>, from: WindowGeometryCandidate, direction: NavigationDirection, n: int)
    requires
        0 <= n <= cs.len(),
    ensures
        best_scored(cs, from, direction, n) == -1 ==> forall|j: int| 0 <= j < n ==> candidate_score(#[trigger] cs[j], from, direction) is None,
        best_scored(cs, from, direction, n) != -1 ==> {
            let r = best_scored(cs, from, direction, n);
            &&& 0 <= r < n
            &&& candidate_score(cs[r], from, direction) is Some
            &&& forall|j: int| 0 <= j < n && candidate_score(#[trigger] cs[j], from, direction) is Some ==> !score_lt(
                candidate_score(cs[j], from, direction)->0,
                candidate_score(cs[r], from, direction)->0,
            )
        },
    decreases n,
{
    if n > 0 {
        lemma_best_scored(cs, from, direction, n - 1);
    }
}

/// The geometric fallback only moves toward the requested side: the
/// window it picks is another window whose centre lies strictly in the
/// direction from the focused one, and no such window is nearer (by
/// distance across and along); it picks none only when no other window
/// lies that way.
pub proof fn lemma_geometric_target_lies_ahead(
    cs: Seq<WindowGeometryCandidate>,
    from: WindowGeometryCandidate,
    direction: NavigationDirection,
)
    ensures
        geometric_target(cs, from, direction) matches Some(t) ==> exists|i: int|
            0 <= i < cs.len() && (#[trigger] cs[i]).window_id@ == t && ahead_of(cs[i], from, direction) && forall|j: int|
                0 <= j < cs.len() && ahead_of(#[trigger] cs[j], from, direction) ==> manhattan(
                    window_center(from),
                    window_center(cs[i]),
                ) <= manhattan(window_center(from), window_center(cs[j])),
        geometric_target(cs, from, direction) is None ==> forall|j: int|
            0 <= j < cs.len() ==> !ahead_of(#[trigger] cs[j], from, direction),
{
    lemma_best_scored(cs, from, direction, cs.len() as int);
    let r = best_scored(cs, from, direction, cs.len() as int);
    assert forall|j: int| 0 <= j < cs.len() implies (candidate_score(#[trigger] cs[j], from, direction) is Some
        <==> ahead_of(cs[j], from, direction)) by {
        lemma_score_means_ahead(cs[j], from, direction);
    }
    if r != -1 {
        lemma_score_means_ahead(cs[r], from, direction);
        assert forall|j: int| 0 <= j < cs.len() && ahead_of(#[trigger] cs[j], from, direction) implies manhattan(
            window_center(from),
            window_center(cs[r]),
        ) <= manhattan(window_center(from), window_center(cs[j])) by {
            lemma_score_means_ahead(cs[j], from, direction);
        }
        assert(cs[r].window_id@ == geometric_target(cs, from, direction)->0);
    }
}

/// Without a focus tree, when the windows have no focus scopes, focus
/// moves only toward the requested side: to the nearest other window whose
/// centre lies strictly in that direction from the focused window's, and
/// nowhere when there is none.
pub proof fn lemma_directional_focus_moves_toward(
    cs: Seq<WindowGeometryCandidate>,
    focused: WindowId,
    direction: NavigationDirection,
    remembered: IdMap<FocusScopePath, WindowId>,
)
    requires
        forall|i: int| 0 <= i < cs.len() ==> (#[trigger] cs[i]).scope_path@.len() == 0,
    ensures
        ({
            let r = spec_directional_focus(cs, Some(focused), direction, remembered, None);
            let p = candidate_position(cs, focused@);
            &&& r matches Some(t) ==> 0 <= p < cs.len() && cs[p].window_id@ == focused@ && exists|i: int|
                0 <= i < cs.len() && (#[trigger] cs[i]).window_id@ == t && ahead_of(cs[i], cs[p], direction)
                    && forall|j: int|
                    0 <= j < cs.len() && ahead_of(#[trigger] cs[j], cs[p], direction) ==> manhattan(
                        window_center(cs[p]),
                        window_center(cs[i]),
                    ) <= manhattan(window_center(cs[p]), window_center(cs[j]))
            &&& r is None && 0 <= p < cs.len() ==> forall|j: int|
                0 <= j < cs.len() ==> !ahead_of(#[trigger] cs[j], cs[p], direction)
        }),
{
    let p = candidate_position(cs, focused@);
    crate::seq_util::lemma_first_index(cs, |c: WindowGeometryCandidate| c.window_id@ == focused@);
    if 0 <= p < cs.len() {
        assert(cs[p].window_id@ == focused@);
        lemma_geometric_target_lies_ahead(cs, cs[p], direction);
        assert(scope_walk(cs, cs[p], direction, remembered, cs[p].scope_path@.len() as int) == geometric_target(
            cs,
            cs[p],
            direction,
        ));
    }
}

} // verus!
