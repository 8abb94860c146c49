//! Interactive resizing of tiled layouts: each partition splits its space
//! among branches by integer shares, and a resize step moves share units
//! from one neighbouring branch to the other within the branches' limits.
use vstd::prelude::*;

use crate::id_map::IdMap;
use crate::ids::{TextKey, WindowId, WorkspaceId};
use crate::seq_util::{contains_text, first_index, has_text, lemma_first_index};
use crate::text::{compare_text, text_eq, text_lt, TextOrder};

verus! {

pub const DEFAULT_RESIZE_STEP_UNITS: u32 = 12;

pub const MIN_BRANCH_SHARE_UNITS: u32 = 1;

pub const DEFAULT_BRANCH_SHARE_UNITS: u32 = 120;

pub const AUTHORED_SHARE_SCALE: u32 = 12;

/// `value * AUTHORED_SHARE_SCALE`, saturated at `u32::MAX`.
pub open spec fn spec_scaled_share(value: u32) -> u32 {
    if value * AUTHORED_SHARE_SCALE > u32::MAX {
        u32::MAX
    } else {
        (value * AUTHORED_SHARE_SCALE) as u32
    }
}

/// Converts a share written by a layout author into internal share units.
pub fn scale_authored_share_units(value: u32) -> (r: u32)
    ensures
        r == spec_scaled_share(value),
{
    if value > u32::MAX / AUTHORED_SHARE_SCALE {
        u32::MAX
    } else {
        value * AUTHORED_SHARE_SCALE
    }
}

#[derive(Debug, Clone, Copy, PartialEq, Eq, Structural)]
pub enum ResizeDirection {
    Left,
    Right,
    Up,
    Down,
}

/// Identifier of a partition (a split node) within a layout.
#[derive(Debug)]
pub struct PartitionId(pub String);

impl View for PartitionId {
    type V = Seq<char>;

    open spec fn view(&self) -> Seq<char> {
        self.0@
    }
}

impl TextKey for PartitionId {
    open spec fn key_text(&self) -> Seq<char> {
        self.0@
    }

    fn key_order(&self, other: &Self) -> (r: TextOrder) {
        compare_text(self.0.as_str(), other.0.as_str())
    }

    fn copy_key(&self) -> (r: Self) {
        PartitionId(self.0.clone())
    }
}

impl Clone for PartitionId {
    fn clone(&self) -> (r: Self)
        ensures
            r == *self,
    {
        PartitionId(self.0.clone())
    }
}

impl PartialEq for PartitionId {
    fn eq(&self, other: &Self) -> (r: bool) {
        self.0 == other.0
    }
}

impl vstd::std_specs::cmp::PartialEqSpecImpl for PartitionId {
    open spec fn obeys_eq_spec() -> bool {
        true
    }

    open spec fn eq_spec(&self, other: &Self) -> bool {
        self@ == other@
    }
}

impl Eq for PartitionId {}

impl PartitionId {
    pub fn new(value: &str) -> (r: Self)
        ensures
            r@ == value@,
    {
        PartitionId(value.to_owned())
    }
}

#[derive(Debug, Clone, Copy, PartialEq, Eq, Structural)]
pub enum PartitionAxis {
    Horizontal,
    Vertical,
}

/// The axis along which a resize in `direction` moves space.
pub open spec fn axis_for(direction: ResizeDirection) -> PartitionAxis {
    match direction {
        ResizeDirection::Left | ResizeDirection::Right => PartitionAxis::Horizontal,
        ResizeDirection::Up | ResizeDirection::Down => PartitionAxis::Vertical,
    }
}

impl PartitionAxis {
    pub fn from_resize_direction(direction: ResizeDirection) -> (r: Self)
        ensures
            r == axis_for(direction),
    {
        match direction {
            ResizeDirection::Left | ResizeDirection::Right => PartitionAxis::Horizontal,
            ResizeDirection::Up | ResizeDirection::Down => PartitionAxis::Vertical,
        }
    }
}

/// Limits on a branch's share.
#[derive(Debug, Clone, Copy)]
pub struct PartitionConstraints {
    pub min_share: Option<u32>,
    pub max_share: Option<u32>,
    pub fixed: bool,
}

impl Default for PartitionConstraints {
    fn default() -> (r: Self)
        ensures
            r.min_share is None,
            r.max_share is None,
            !r.fixed,
    {
        PartitionConstraints { min_share: None, max_share: None, fixed: false }
    }
}

impl PartitionConstraints {
    /// No limit is set.
    pub fn is_default(&self) -> (r: bool)
        ensures
            r == (self.min_share is None && self.max_share is None && !self.fixed),
    {
        self.min_share.is_none() && self.max_share.is_none() && !self.fixed
    }
}

/// One side of a partition: the windows under it and its share settings.
#[derive(Debug)]
pub struct PartitionBranch {
    pub branch_id: String,
    pub descendant_window_ids: Vec<WindowId>,
    pub default_share: Option<u32>,
    pub constraints: PartitionConstraints,
}

/// A split of space along one axis into branches.
#[derive(Debug)]
pub struct PartitionNode {
    pub partition_id: PartitionId,
    pub axis: PartitionAxis,
    pub branches: Vec<PartitionBranch>,
    pub adjustable: bool,
}

/// The partitions of a laid-out workspace, and for each window the
/// partitions that enclose it, outermost first.
#[derive(Debug)]
pub struct PartitionTree {
    pub root_partition_ids: Vec<PartitionId>,
    pub partitions: IdMap<PartitionId, PartitionNode>,
    pub window_to_partition_path: IdMap<WindowId, Vec<PartitionId>>,
}

impl PartitionTree {
    pub open spec fn wf(self) -> bool {
        self.partitions.wf() && self.window_to_partition_path.wf()
    }
}

impl Default for PartitionTree {
    fn default() -> (r: Self)
        ensures
            r.wf(),
            r.root_partition_ids@.len() == 0,
            r.partitions.size() == 0,
            r.window_to_partition_path.size() == 0,
    {
        PartitionTree {
            root_partition_ids: Vec::new(),
            partitions: IdMap::new(),
            window_to_partition_path: IdMap::new(),
        }
    }
}

/// Saved shares of a partition's branches, with the branch identifiers they
/// belong to.
#[derive(Debug)]
pub struct PartitionAdjustment {
    pub branch_ids: Vec<String>,
    pub branch_shares: Vec<u32>,
}

impl View for PartitionAdjustment {
    type V = (Seq<Seq<char>>, Seq<u32>);

    open spec fn view(&self) -> (Seq<Seq<char>>, Seq<u32>) {
        (self.branch_ids@.map_values(|s: String| s@), self.branch_shares@)
    }
}

/// Resize adjustments of one workspace, by partition.
#[derive(Debug)]
pub struct WorkspaceResizeState {
    pub adjustments_by_partition_id: IdMap<PartitionId, PartitionAdjustment>,
}

impl Default for WorkspaceResizeState {
    fn default() -> (r: Self)
        ensures
            r.adjustments_by_partition_id.wf(),
            r.adjustments_by_partition_id.size() == 0,
    {
        WorkspaceResizeState { adjustments_by_partition_id: IdMap::new() }
    }
}

impl PartitionAdjustment {
    /// A copy with the same identifiers and shares.
    pub fn copy(&self) -> (r: Self)
        ensures
            r@ == self@,
    {
        let mut ids: Vec<String> = Vec::new();
        let mut i: usize = 0;
        while i < self.branch_ids.len()
            invariant
                i <= self.branch_ids@.len(),
                ids@.len() == i,
                forall|j: int| 0 <= j < i ==> (#[trigger] ids@[j])@ == self.branch_ids@[j]@,
            decreases self.branch_ids@.len() - i,
        {
            ids.push(self.branch_ids[i].clone());
            i = i + 1;
        }
        assert(ids@.map_values(|s: String| s@) =~= self.branch_ids@.map_values(|s: String| s@));
        PartitionAdjustment { branch_ids: ids, branch_shares: self.branch_shares.clone() }
    }
}

/// Two adjustment tables hold the same partitions, in the same order, with
/// equal saved shares.
pub open spec fn same_adjustments(
    a: IdMap<PartitionId, PartitionAdjustment>,
    b: IdMap<PartitionId, PartitionAdjustment>,
) -> bool {
    &&& a.entries().len() == b.entries().len()
    &&& forall|i: int|
        0 <= i < a.entries().len() ==> (#[trigger] a.entries()[i]).0 == b.entries()[i].0 && a.entries()[i].1@
            == b.entries()[i].1@
}

impl WorkspaceResizeState {
    pub open spec fn same(self, other: Self) -> bool {
        same_adjustments(self.adjustments_by_partition_id, other.adjustments_by_partition_id)
    }

    /// A copy holding the same adjustments.
    pub fn copy(&self) -> (r: Self)
        requires
            self.adjustments_by_partition_id.wf(),
        ensures
            r.same(*self),
            r.adjustments_by_partition_id.wf(),
    {
        let source = &self.adjustments_by_partition_id;
        let mut out: IdMap<PartitionId, PartitionAdjustment> = IdMap::new();
        let mut i: usize = 0;
        while i < source.len()
            invariant
                source.wf(),
                out.wf(),
                i <= source.size(),
                out.entries().len() == i,
                forall|j: int|
                    0 <= j < i ==> (#[trigger] out.entries()[j]).0 == source.entries()[j].0 && out.entries()[j].1@
                        == source.entries()[j].1@,
            decreases source.size() - i,
        {
            let key = source.key_at(i).clone();
            let value = source.value_at(i).copy();
            proof {
                assert(key.key_text() == source.text_at(i as int));
                if i > 0 {
                    assert(out.text_at(i - 1) == source.text_at(i - 1));
                    assert(text_lt(source.text_at(i - 1), source.text_at(i as int)));
                }
            }
            out.push_last(key, value);
            i = i + 1;
        }
        WorkspaceResizeState { adjustments_by_partition_id: out }
    }

    pub fn is_empty(&self) -> (r: bool)
        ensures
            r == (self.adjustments_by_partition_id.size() == 0),
    {
        self.adjustments_by_partition_id.is_empty()
    }
}

/// Resize adjustments of every workspace.
#[derive(Debug)]
pub struct ResizeState {
    pub by_workspace_id: IdMap<WorkspaceId, WorkspaceResizeState>,
}

impl Default for ResizeState {
    fn default() -> (r: Self)
        ensures
            r.by_workspace_id.wf(),
            r.by_workspace_id.size() == 0,
    {
        ResizeState { by_workspace_id: IdMap::new() }
    }
}

impl ResizeState {
    /// The outer table and every workspace's table are well formed.
    pub open spec fn tables_wf(self) -> bool {
        &&& self.by_workspace_id.wf()
        &&& forall|i: int|
            0 <= i < self.by_workspace_id.entries().len() ==> (#[trigger] self.by_workspace_id.entries()[i]).1.adjustments_by_partition_id.wf()
    }

    /// The same workspaces, in the same order, with the same adjustments.
    pub open spec fn same(self, other: Self) -> bool {
        &&& self.by_workspace_id.entries().len() == other.by_workspace_id.entries().len()
        &&& forall|i: int|
            0 <= i < self.by_workspace_id.entries().len() ==> (#[trigger] self.by_workspace_id.entries()[i]).0
                == other.by_workspace_id.entries()[i].0 && self.by_workspace_id.entries()[i].1.same(
                other.by_workspace_id.entries()[i].1,
            )
    }

    /// A copy holding the same adjustments for the same workspaces.
    pub fn copy(&self) -> (r: Self)
        requires
            self.tables_wf(),
        ensures
            r.same(*self),
            r.tables_wf(),
    {
        let source = &self.by_workspace_id;
        let mut out: IdMap<WorkspaceId, WorkspaceResizeState> = IdMap::new();
        let mut i: usize = 0;
        while i < source.len()
            invariant
                self.tables_wf(),
                source == &self.by_workspace_id,
                out.wf(),
                i <= source.size(),
                out.entries().len() == i,
                forall|j: int|
                    0 <= j < i ==> (#[trigger] out.entries()[j]).0 == source.entries()[j].0 && out.entries()[j].1.same(
                        source.entries()[j].1,
                    ) && out.entries()[j].1.adjustments_by_partition_id.wf(),
            decreases source.size() - i,
        {
            let key = source.key_at(i).clone();
            let value = source.value_at(i).copy();
            proof {
                assert(key.key_text() == source.text_at(i as int));
                if i > 0 {
                    assert(out.text_at(i - 1) == source.text_at(i - 1));
                    assert(text_lt(source.text_at(i - 1), source.text_at(i as int)));
                }
            }
            out.push_last(key, value);
            i = i + 1;
        }
        ResizeState { by_workspace_id: out }
    }

    pub fn is_empty(&self) -> (r: bool)
        ensures
            r == (self.by_workspace_id.size() == 0),
    {
        self.by_workspace_id.is_empty()
    }
}

/// A resize step: the branch that grows and its neighbour that shrinks.
#[derive(Debug, PartialEq, Eq)]
pub struct ResizeCandidate {
    pub partition_id: PartitionId,
    pub grow_branch_index: usize,
    pub shrink_branch_index: usize,
}

/// The share a branch gets when nothing was saved for it.
pub open spec fn default_share_at(defaults: Seq<Option<u32>>, index: int) -> u32 {
    if 0 <= index < defaults.len() && defaults[index] is Some {
        defaults[index]->0
    } else {
        DEFAULT_BRANCH_SHARE_UNITS
    }
}

/// Position of the last of the first `n` identifiers that equals `id`, or -1.
pub open spec fn last_position(ids: Seq<Seq<char>>, id: Seq<char>, n: int) -> int
    decreases n,
{
    if n <= 0 {
        -1
    } else if ids[n - 1] == id {
        n - 1
    } else {
        last_position(ids, id, n - 1)
    }
}

pub proof fn lemma_last_position(ids: Seq<Seq<char>>, id: Seq<char>, n: int)
    requires
        0 <= n <= ids.len(),
    ensures
        -1 <= last_position(ids, id, n) < n,
        last_position(ids, id, n) >= 0 ==> ids[last_position(ids, id, n)] == id,
        forall|j: int| last_position(ids, id, n) < j < n ==> #[trigger] ids[j] != id,
    decreases n,
{
    if n > 0 {
        lemma_last_position(ids, id, n - 1);
    }
}

/// Saved shares are matched by branch identifier when the saved
/// identifiers and shares line up, and by position otherwise.
pub open spec fn matches_by_id(saved: (Seq<Seq<char>>, Seq<u32>)) -> bool {
    saved.0.len() == saved.1.len() && saved.0.len() > 0
}

/// The share of the branch `branch_id` at position `index` after
/// reconciling the saved shares with the current branches.
pub open spec fn reconciled_share(
    saved: (Seq<Seq<char>>, Seq<u32>),
    branch_id: Seq<char>,
    index: int,
    defaults: Seq<Option<u32>>,
) -> u32 {
    if matches_by_id(saved) {
        let p = last_position(saved.0, branch_id, saved.0.len() as int);
        if p >= 0 {
            saved.1[p]
        } else {
            default_share_at(defaults, index)
        }
    } else if 0 <= index < saved.1.len() {
        saved.1[index]
    } else {
        default_share_at(defaults, index)
    }
}

fn default_branch_share(branch_default_shares: &[Option<u32>], index: usize) -> (r: u32)
    ensures
        r == default_share_at(branch_default_shares@, index as int),
{
    if index < branch_default_shares.len() {
        match branch_default_shares[index] {
            Some(share) => share,
            None => DEFAULT_BRANCH_SHARE_UNITS,
        }
    } else {
        DEFAULT_BRANCH_SHARE_UNITS
    }
}

/// Share of every current branch: the share saved under the branch's
/// identifier (or at its position), else the branch's default.
pub fn reconciled_branch_shares(
    adjustment: &PartitionAdjustment,
    branch_ids: &[String],
    branch_default_shares: &[Option<u32>],
) -> (r: Vec<u32>)
    ensures
        r@.len() == branch_ids@.len(),
        forall|i: int|
            0 <= i < branch_ids@.len() ==> #[trigger] r@[i] == reconciled_share(
                adjustment@,
                branch_ids@[i]@,
                i,
                branch_default_shares@,
            ),
{
    let ghost saved = adjustment@;
    let use_branch_ids = adjustment.branch_ids.len() == adjustment.branch_shares.len()
        && !adjustment.branch_ids.is_empty();
    let mut shares: Vec<u32> = Vec::new();
    let mut i: usize = 0;
    while i < branch_ids.len()
        invariant
            saved == adjustment@,
            use_branch_ids == matches_by_id(saved),
            i <= branch_ids@.len(),
            shares@.len() == i,
            forall|k: int|
                0 <= k < i ==> #[trigger] shares@[k] == reconciled_share(
                    saved,
                    branch_ids@[k]@,
                    k,
                    branch_default_shares@,
                ),
        decreases branch_ids@.len() - i,
    {
        let share = if use_branch_ids {
            let n = adjustment.branch_ids.len();
            let mut j: usize = n;
            let mut found: Option<u32> = None;
            while j > 0
                invariant_except_break
                    found is None,
                    last_position(saved.0, branch_ids@[i as int]@, n as int) == last_position(
                        saved.0,
                        branch_ids@[i as int]@,
                        j as int,
                    ),
                invariant
                    saved == adjustment@,
                    matches_by_id(saved),
                    i < branch_ids@.len(),
                    n == saved.0.len(),
                    j <= n,
                ensures
                    match found {
                        Some(s) => {
                            let p = last_position(saved.0, branch_ids@[i as int]@, n as int);
                            p >= 0 && s == saved.1[p]
                        },
                        None => last_position(saved.0, branch_ids@[i as int]@, n as int) < 0,
                    },
                decreases j,
            {
                j = j - 1;
                if text_eq(adjustment.branch_ids[j].as_str(), branch_ids[i].as_str()) {
                    found = Some(adjustment.branch_shares[j]);
                    break;
                }
            }
            match found {
                Some(s) => s,
                None => default_branch_share(branch_default_shares, i),
            }
        } else if i < adjustment.branch_shares.len() {
            adjustment.branch_shares[i]
        } else {
            default_branch_share(branch_default_shares, i)
        };
        shares.push(share);
        i = i + 1;
    }
    shares
}

/// The branch holds the window `w` among its descendants.
pub open spec fn holds_window(w: Seq<char>) -> spec_fn(PartitionBranch) -> bool {
    |b: PartitionBranch| has_text(b.descendant_window_ids@, w)
}

/// Grow and shrink positions for a resize in `direction` from the branch at
/// `focused` among `count` branches: toward the requested side when there
/// is a neighbour there, else toward the other side.
pub open spec fn neighbour_pair(count: int, focused: int, direction: ResizeDirection) -> Option<(int, int)> {
    match direction {
        ResizeDirection::Left | ResizeDirection::Up => if focused >= 1 {
            Some((focused, focused - 1))
        } else if focused + 1 < count {
            Some((focused + 1, focused))
        } else {
            None
        },
        ResizeDirection::Right | ResizeDirection::Down => if focused + 1 < count {
            Some((focused, focused + 1))
        } else if focused >= 1 {
            Some((focused - 1, focused))
        } else {
            None
        },
    }
}

/// The candidate that `node` offers for resizing the window `w`.
pub open spec fn node_candidate(node: PartitionNode, w: Seq<char>, direction: ResizeDirection) -> Option<
    ResizeCandidate,
> {
    if !node.adjustable || node.axis != axis_for(direction) {
        None
    } else {
        let focused = first_index(node.branches@, holds_window(w));
        if focused < 0 {
            None
        } else {
            match neighbour_pair(node.branches@.len() as int, focused, direction) {
                Some(pair) => Some(
                    ResizeCandidate {
                        partition_id: node.partition_id,
                        grow_branch_index: pair.0 as usize,
                        shrink_branch_index: pair.1 as usize,
                    },
                ),
                None => None,
            }
        }
    }
}

/// Walks the first `k` partitions of `path` from the innermost outwards
/// and takes the first candidate; a partition missing from the tree ends
/// the walk with none.
pub open spec fn path_candidate(
    partitions: IdMap<PartitionId, PartitionNode>,
    path: Seq<PartitionId>,
    w: Seq<char>,
    direction: ResizeDirection,
    k: int,
) -> Option<ResizeCandidate>
    decreases k,
{
    if k <= 0 {
        None
    } else {
        match partitions.spec_get(path[k - 1]@) {
            None => None,
            Some(node) => match node_candidate(node, w, direction) {
                Some(c) => Some(c),
                None => path_candidate(partitions, path, w, direction, k - 1),
            },
        }
    }
}

/// The resize candidate for the window `w` in `tree`.
pub open spec fn spec_resize_candidate(tree: PartitionTree, w: Seq<char>, direction: ResizeDirection) -> Option<
    ResizeCandidate,
> {
    match tree.window_to_partition_path.spec_get(w) {
        None => None,
        Some(path) => path_candidate(tree.partitions, path@, w, direction, path@.len() as int),
    }
}

fn focused_branch_index(node: &PartitionNode, focused_window_id: &WindowId) -> (r: Option<usize>)
    ensures
        match r {
            Some(i) => i as int == first_index(node.branches@, holds_window(focused_window_id@)),
            None => first_index(node.branches@, holds_window(focused_window_id@)) < 0,
        },
{
    let ghost p = holds_window(focused_window_id@);
    proof {
        lemma_first_index(node.branches@, p);
    }
    let mut i: usize = 0;
    while i < node.branches.len()
        invariant
            p == holds_window(focused_window_id@),
            i <= node.branches@.len(),
            forall|j: int| 0 <= j < i ==> !p(#[trigger] node.branches@[j]),
        decreases node.branches@.len() - i,
    {
        if contains_text(&node.branches[i].descendant_window_ids, focused_window_id) {
            proof {
                lemma_first_index(node.branches@, p);
            }
            return Some(i);
        }
        i = i + 1;
    }
    proof {
        lemma_first_index(node.branches@, p);
    }
    None
}

fn candidate_in(node: &PartitionNode, focused_window_id: &WindowId, direction: ResizeDirection) -> (r: Option<
    ResizeCandidate,
>)
    ensures
        r == node_candidate(*node, focused_window_id@, direction),
{
    let target_axis = PartitionAxis::from_resize_direction(direction);
    if !node.adjustable || node.axis != target_axis {
        return None;
    }
    let focused = match focused_branch_index(node, focused_window_id) {
        Some(i) => i,
        None => {
            return None;
        },
    };
    proof {
        lemma_first_index(node.branches@, holds_window(focused_window_id@));
    }
    let count = node.branches.len();
    let pair: Option<(usize, usize)> = match direction {
        ResizeDirection::Left | ResizeDirection::Up => if focused >= 1 {
            Some((focused, focused - 1))
        } else if focused + 1 < count {
            Some((focused + 1, focused))
        } else {
            None
        },
        ResizeDirection::Right | ResizeDirection::Down => if focused + 1 < count {
            Some((focused, focused + 1))
        } else if focused >= 1 {
            Some((focused - 1, focused))
        } else {
            None
        },
    };
    match pair {
        Some((grow, shrink)) => Some(
            ResizeCandidate {
                partition_id: node.partition_id.clone(),
                grow_branch_index: grow,
                shrink_branch_index: shrink,
            },
        ),
        None => None,
    }
}

/// The partition to resize for the focused window: the innermost
/// adjustable partition along the resize axis whose focused branch has a
/// neighbour, growing the focused branch toward the requested side (or its
/// neighbour, at the edge).
pub fn select_resize_candidate(
    partition_tree: &PartitionTree,
    focused_window_id: &WindowId,
    direction: ResizeDirection,
) -> (r: Option<ResizeCandidate>)
    requires
        partition_tree.wf(),
    ensures
        r == spec_resize_candidate(*partition_tree, focused_window_id@, direction),
{
    let partition_path = match partition_tree.window_to_partition_path.get(focused_window_id) {
        Some(path) => path,
        None => {
            return None;
        },
    };
    let ghost w = focused_window_id@;
    let ghost goal = path_candidate(partition_tree.partitions, partition_path@, w, direction,
        partition_path@.len() as int);
    let mut k: usize = partition_path.len();
    while k > 0
        invariant
            partition_tree.wf(),
            w == focused_window_id@,
            k <= partition_path@.len(),
            goal == path_candidate(partition_tree.partitions, partition_path@, w, direction, k as int),
            goal == spec_resize_candidate(*partition_tree, w, direction),
        decreases k,
    {
        let partition = match partition_tree.partitions.get(&partition_path[k - 1]) {
            Some(node) => node,
            None => {
                return None;
            },
        };
        match candidate_in(partition, focused_window_id, direction) {
            Some(candidate) => {
                return Some(candidate);
            },
            None => {},
        }
        k = k - 1;
    }
    None
}

/// Identifiers of a partition's branches, in order.
pub open spec fn branch_id_texts(node: PartitionNode) -> Seq<Seq<char>> {
    node.branches@.map_values(|b: PartitionBranch| b.branch_id@)
}

/// Default shares of a partition's branches, in order.
pub open spec fn branch_defaults(node: PartitionNode) -> Seq<Option<u32>> {
    node.branches@.map_values(|b: PartitionBranch| b.default_share)
}

/// The adjustment a partition starts from when none was saved: each
/// branch at its default share.
pub open spec fn default_view(node: PartitionNode) -> (Seq<Seq<char>>, Seq<u32>) {
    (
        branch_id_texts(node),
        Seq::new(node.branches@.len(), |i: int| default_share_at(branch_defaults(node), i)),
    )
}

/// The saved adjustment (or the default one) brought in line with the
/// partition's current branches.
pub open spec fn synced_view(prev: Option<PartitionAdjustment>, node: PartitionNode) -> (
    Seq<Seq<char>>,
    Seq<u32>,
) {
    let saved = match prev {
        Some(a) => a@,
        None => default_view(node),
    };
    (
        branch_id_texts(node),
        Seq::new(
            node.branches@.len(),
            |i: int| reconciled_share(saved, branch_id_texts(node)[i], i, branch_defaults(node)),
        ),
    )
}

/// The smallest share a branch may shrink to.
pub open spec fn min_share_of(c: PartitionConstraints) -> u32 {
    match c.min_share {
        Some(m) => m,
        None => MIN_BRANCH_SHARE_UNITS,
    }
}

/// Units a step may move before the grow branch's maximum is considered:
/// at most `step_units`, and no more than takes the shrink branch to its
/// minimum.
pub open spec fn step_before_max(shares: Seq<u32>, node: PartitionNode, shrink: int, step_units: u32) -> int {
    let room = shares[shrink] - min_share_of(node.branches@[shrink].constraints);
    if step_units < room {
        step_units as int
    } else {
        room
    }
}

/// The shares after moving units from `shrink` to `grow`, or `None` when
/// the limits leave nothing to move.
pub open spec fn stepped_shares(shares: Seq<u32>, node: PartitionNode, grow: int, shrink: int, step_units: u32) -> Option<
    Seq<u32>,
> {
    let g = shares[grow];
    let s = shares[shrink];
    if s <= min_share_of(node.branches@[shrink].constraints) {
        None
    } else {
        let step = step_before_max(shares, node, shrink, step_units);
        if step == 0 {
            None
        } else {
            match node.branches@[grow].constraints.max_share {
                Some(m) => {
                    let headroom = if m > g {
                        m - g
                    } else {
                        0
                    };
                    if headroom == 0 {
                        None
                    } else {
                        let moved = if step < headroom {
                            step
                        } else {
                            headroom
                        };
                        Some(shares.update(grow, (g + moved) as u32).update(shrink, (s - moved) as u32))
                    }
                },
                None => Some(shares.update(grow, (g + step) as u32).update(shrink, (s - step) as u32)),
            }
        }
    }
}

/// The candidate names two distinct branches of `node`, neither fixed.
pub open spec fn step_applies(node: PartitionNode, candidate: ResizeCandidate) -> bool {
    let n = node.branches@.len();
    &&& candidate.grow_branch_index < n
    &&& candidate.shrink_branch_index < n
    &&& candidate.grow_branch_index != candidate.shrink_branch_index
    &&& !node.branches@[candidate.grow_branch_index as int].constraints.fixed
    &&& !node.branches@[candidate.shrink_branch_index as int].constraints.fixed
}

/// A step is attempted: the partition exists and the candidate applies.
pub open spec fn step_attempted(tree: PartitionTree, candidate: ResizeCandidate) -> bool {
    match tree.partitions.spec_get(candidate.partition_id@) {
        Some(node) => step_applies(node, candidate),
        None => false,
    }
}

/// The grow branch has no maximum and the step would take its share past
/// `u32::MAX`.
pub open spec fn resize_step_overflows(
    state: WorkspaceResizeState,
    tree: PartitionTree,
    candidate: ResizeCandidate,
    step_units: u32,
) -> bool {
    step_attempted(tree, candidate) && {
        let node = tree.partitions.spec_get(candidate.partition_id@)->0;
        let shares = synced_view(state.adjustments_by_partition_id.spec_get(candidate.partition_id@), node).1;
        let grow = candidate.grow_branch_index as int;
        let shrink = candidate.shrink_branch_index as int;
        &&& shares[shrink] > min_share_of(node.branches@[shrink].constraints)
        &&& node.branches@[grow].constraints.max_share is None
        &&& shares[grow] + step_before_max(shares, node, shrink, step_units) > u32::MAX
    }
}

fn branch_ids_of(node: &PartitionNode) -> (r: Vec<String>)
    ensures
        r@.map_values(|s: String| s@) == branch_id_texts(*node),
        r@.len() == node.branches@.len(),
        forall|j: int| 0 <= j < r@.len() ==> #[trigger] r@[j]@ == node.branches@[j].branch_id@,
{
    let mut ids: Vec<String> = Vec::new();
    let mut i: usize = 0;
    while i < node.branches.len()
        invariant
            i <= node.branches@.len(),
            ids@.len() == i,
            forall|j: int| 0 <= j < i ==> #[trigger] ids@[j]@ == node.branches@[j].branch_id@,
        decreases node.branches@.len() - i,
    {
        ids.push(node.branches[i].branch_id.clone());
        i = i + 1;
    }
    assert(ids@.map_values(|s: String| s@) =~= branch_id_texts(*node));
    ids
}

fn branch_defaults_of(node: &PartitionNode) -> (r: Vec<Option<u32>>)
    ensures
        r@ == branch_defaults(*node),
{
    let mut defaults: Vec<Option<u32>> = Vec::new();
    let mut i: usize = 0;
    while i < node.branches.len()
        invariant
            i <= node.branches@.len(),
            defaults@.len() == i,
            forall|j: int| 0 <= j < i ==> #[trigger] defaults@[j] == node.branches@[j].default_share,
        decreases node.branches@.len() - i,
    {
        defaults.push(node.branches[i].default_share);
        i = i + 1;
    }
    assert(defaults@ =~= branch_defaults(*node));
    defaults
}

fn default_partition_adjustment(node: &PartitionNode) -> (r: PartitionAdjustment)
    ensures
        r@ == default_view(*node),
{
    let branch_ids = branch_ids_of(node);
    let defaults = branch_defaults_of(node);
    let mut shares: Vec<u32> = Vec::new();
    let mut i: usize = 0;
    while i < node.branches.len()
        invariant
            i <= node.branches@.len(),
            defaults@ == branch_defaults(*node),
            shares@.len() == i,
            forall|j: int| 0 <= j < i ==> #[trigger] shares@[j] == default_share_at(branch_defaults(*node), j),
        decreases node.branches@.len() - i,
    {
        shares.push(default_branch_share(defaults.as_slice(), i));
        i = i + 1;
    }
    let r = PartitionAdjustment { branch_ids, branch_shares: shares };
    assert(r@.1 =~= default_view(*node).1);
    r
}

/// Moves share units from the candidate's shrink branch to its grow
/// branch: at most `step_units`, never below the shrink branch's minimum
/// nor above the grow branch's maximum. The partition's saved adjustment is
/// first brought in line with its current branches (and created from the
/// defaults if missing); returns whether any unit moved.
pub fn apply_resize_step(
    state: &mut WorkspaceResizeState,
    partition_tree: &PartitionTree,
    candidate: &ResizeCandidate,
    step_units: u32,
) -> (r: bool)
    requires
        old(state).adjustments_by_partition_id.wf(),
        partition_tree.wf(),
        !resize_step_overflows(*old(state), *partition_tree, *candidate, step_units),
    ensures
        final(state).adjustments_by_partition_id.wf(),
        !step_attempted(*partition_tree, *candidate) ==> !r && *final(state) == *old(state),
        step_attempted(*partition_tree, *candidate) ==> ({
            let pid = candidate.partition_id@;
            let node = partition_tree.partitions.spec_get(pid)->0;
            let synced = synced_view(old(state).adjustments_by_partition_id.spec_get(pid), node);
            let outcome = stepped_shares(
                synced.1,
                node,
                candidate.grow_branch_index as int,
                candidate.shrink_branch_index as int,
                step_units,
            );
            &&& r == outcome is Some
            &&& forall|t: Seq<char>|
                t != pid ==> #[trigger] final(state).adjustments_by_partition_id.spec_get(t)
                    == old(state).adjustments_by_partition_id.spec_get(t)
            &&& final(state).adjustments_by_partition_id.spec_get(pid) is Some
            &&& final(state).adjustments_by_partition_id.spec_get(pid)->0@ == (synced.0, match outcome {
                Some(x) => x,
                None => synced.1,
            })
        }),
{
    let partition = match partition_tree.partitions.get(&candidate.partition_id) {
        Some(node) => node,
        None => {
            return false;
        },
    };
    let n = partition.branches.len();
    let grow = candidate.grow_branch_index;
    let shrink = candidate.shrink_branch_index;
    if grow >= n || shrink >= n || grow == shrink {
        return false;
    }
    let grow_branch = &partition.branches[grow];
    let shrink_branch = &partition.branches[shrink];
    if grow_branch.constraints.fixed || shrink_branch.constraints.fixed {
        return false;
    }
    let ghost pid = candidate.partition_id@;
    let ghost node = *partition;
    let ghost synced = synced_view(state.adjustments_by_partition_id.spec_get(pid), node);
    let branch_ids = branch_ids_of(partition);
    let defaults = branch_defaults_of(partition);
    let ghost saved = match state.adjustments_by_partition_id.spec_get(pid) {
        Some(a) => a@,
        None => default_view(node),
    };
    let mut shares = match state.adjustments_by_partition_id.get(&candidate.partition_id) {
        Some(adjustment) => {
            let v = reconciled_branch_shares(adjustment, branch_ids.as_slice(), defaults.as_slice());
            proof {
                assert(adjustment@ == saved);
            }
            v
        },
        None => {
            let adjustment = default_partition_adjustment(partition);
            let v = reconciled_branch_shares(&adjustment, branch_ids.as_slice(), defaults.as_slice());
            proof {
                assert(adjustment@ == saved);
            }
            v
        },
    };
    proof {
        assert forall|i: int| 0 <= i < n implies #[trigger] shares@[i] == synced.1[i] by {
            assert(branch_ids@[i]@ == branch_id_texts(node)[i]);
        }
        assert(shares@ =~= synced.1);
    }
    let grow_share = shares[grow];
    let shrink_share = shares[shrink];
    let shrink_min = match shrink_branch.constraints.min_share {
        Some(m) => m,
        None => MIN_BRANCH_SHARE_UNITS,
    };
    let changed = if shrink_share <= shrink_min {
        false
    } else {
        let room = shrink_share - shrink_min;
        let step = if step_units < room {
            step_units
        } else {
            room
        };
        if step == 0 {
            false
        } else {
            match grow_branch.constraints.max_share {
                Some(max) => {
                    let headroom = if max > grow_share {
                        max - grow_share
                    } else {
                        0
                    };
                    if headroom == 0 {
                        false
                    } else {
                        let moved = if step < headroom {
                            step
                        } else {
                            headroom
                        };
                        shares.set(grow, grow_share + moved);
                        shares.set(shrink, shrink_share - moved);
                        true
                    }
                },
                None => {
                    shares.set(grow, grow_share + step);
                    shares.set(shrink, shrink_share - step);
                    true
                },
            }
        }
    };
    let ghost outcome = stepped_shares(synced.1, node, grow as int, shrink as int, step_units);
    proof {
        match outcome {
            Some(x) => {
                assert(shares@ =~= x);
            },
            None => {
                assert(shares@ =~= synced.1);
            },
        }
    }
    let adjustment = PartitionAdjustment { branch_ids, branch_shares: shares };
    state.adjustments_by_partition_id.insert(candidate.partition_id.clone(), adjustment);
    changed
}

/// Forgets the adjustments of partitions that no longer exist.
pub fn gc_resize_state(state: &mut WorkspaceResizeState, partition_tree: &PartitionTree)
    requires
        old(state).adjustments_by_partition_id.wf(),
        partition_tree.wf(),
    ensures
        final(state).adjustments_by_partition_id.wf(),
        forall|t: Seq<char>| #[trigger] final(state).adjustments_by_partition_id.spec_get(t) == (
        if partition_tree.partitions.contains(t) {
            old(state).adjustments_by_partition_id.spec_get(t)
        } else {
            None
        }),
{
    let ghost before = state.adjustments_by_partition_id;
    let mut i: usize = state.adjustments_by_partition_id.len();
    while i > 0
        invariant
            partition_tree.wf(),
            before.wf(),
            state.adjustments_by_partition_id.wf(),
            i <= state.adjustments_by_partition_id.size(),
            i <= before.size(),
            forall|j: int| 0 <= j < i ==> #[trigger] state.adjustments_by_partition_id.text_at(j) == before.text_at(j),
            forall|t: Seq<char>| #[trigger] state.adjustments_by_partition_id.spec_get(t) == (if before.contains(t)
                && before.index_of(t) >= i && !partition_tree.partitions.contains(t) {
                None
            } else {
                before.spec_get(t)
            }),
        decreases i,
    {
        let keep = partition_tree.partitions.contains_key(state.adjustments_by_partition_id.key_at(i - 1));
        proof {
            before.lemma_index_of(i - 1);
        }
        let ghost current = state.adjustments_by_partition_id;
        if !keep {
            state.adjustments_by_partition_id.remove_at(i - 1);
            proof {
                assert forall|j: int| 0 <= j < i - 1 implies #[trigger] state.adjustments_by_partition_id.text_at(j)
                    == before.text_at(j) by {
                    assert(current.text_at(j) == before.text_at(j));
                    assert(state.adjustments_by_partition_id.entries()[j] == current.entries()[j]);
                }
            }
        }
        proof {
            let ti = before.text_at(i - 1);
            assert(current.text_at(i - 1) == ti);
            assert forall|t: Seq<char>| #[trigger] state.adjustments_by_partition_id.spec_get(t) == (if before.contains(t)
                && before.index_of(t) >= i - 1 && !partition_tree.partitions.contains(t) {
                None
            } else {
                before.spec_get(t)
            }) by {
                if before.contains(t) && before.index_of(t) == i - 1 {
                    assert(t == ti);
                }
            }
        }
        i = i - 1;
    }
}

/// Sum of shares.
pub open spec fn total_share(shares: Seq<u32>) -> int
    decreases shares.len(),
{
    if shares.len() == 0 {
        0
    } else {
        total_share(shares.drop_last()) + shares.last()
    }
}

pub proof fn lemma_total_share_update(shares: Seq<u32>, i: int, v: u32)
    requires
        0 <= i < shares.len(),
    ensures
        total_share(shares.update(i, v)) == total_share(shares) - shares[i] + v,
    decreases shares.len(),
{
    let u = shares.update(i, v);
    if i == shares.len() - 1 {
        assert(u.drop_last() =~= shares.drop_last());
    } else {
        assert(u.drop_last() =~= shares.drop_last().update(i, v));
        lemma_total_share_update(shares.drop_last(), i, v);
    }
}

/// A resize step moves units between two branches and nothing else: the
/// total share is unchanged, the grow branch gains what the shrink branch
/// loses, the shrink branch stays at or above its minimum and the grow
/// branch at or below its maximum.
pub proof fn lemma_step_moves_units(shares: Seq<u32>, node: PartitionNode, grow: int, shrink: int, step_units: u32)
    requires
        0 <= grow < shares.len(),
        0 <= shrink < shares.len(),
        shares.len() == node.branches@.len(),
        grow != shrink,
        stepped_shares(shares, node, grow, shrink, step_units) is Some,
        node.branches@[grow].constraints.max_share is None ==> shares[grow] + step_before_max(
            shares,
            node,
            shrink,
            step_units,
        ) <= u32::MAX,
    ensures
        ({
            let after = stepped_shares(shares, node, grow, shrink, step_units)->0;
            &&& after.len() == shares.len()
            &&& total_share(after) == total_share(shares)
            &&& after[grow] > shares[grow]
            &&& after[grow] - shares[grow] == shares[shrink] - after[shrink]
            &&& after[grow] - shares[grow] <= step_units
            &&& after[shrink] >= min_share_of(node.branches@[shrink].constraints)
            &&& forall|m: u32| node.branches@[grow].constraints.max_share == Some(m) ==> after[grow] <= m
            &&& forall|k: int| 0 <= k < shares.len() && k != grow && k != shrink ==> #[trigger] after[k] == shares[k]
        }),
{
    let after = stepped_shares(shares, node, grow, shrink, step_units)->0;
    let g = shares[grow];
    let s = shares[shrink];
    let moved = after[grow] - g;
    let mid = shares.update(grow, after[grow]);
    lemma_total_share_update(shares, grow, after[grow]);
    lemma_total_share_update(mid, shrink, after[shrink]);
    assert(after =~= mid.update(shrink, after[shrink]));
}

/// Reconciling keeps every saved share when the branches are still the
/// saved ones, in the same order, with distinct identifiers.
pub proof fn lemma_reconcile_keeps_matching_shares(
    saved: (Seq<Seq<char>>, Seq<u32>),
    branch_ids: Seq<Seq<char>>,
    defaults: Seq<Option<u32>>,
)
    requires
        matches_by_id(saved),
        branch_ids == saved.0,
        forall|a: int, b: int| 0 <= a < b < branch_ids.len() ==> branch_ids[a] != branch_ids[b],
    ensures
        forall|i: int|
            0 <= i < branch_ids.len() ==> #[trigger] reconciled_share(saved, branch_ids[i], i, defaults) == saved.1[i],
{
    assert forall|i: int| 0 <= i < branch_ids.len() implies #[trigger] reconciled_share(
        saved,
        branch_ids[i],
        i,
        defaults,
    ) == saved.1[i] by {
        let n = saved.0.len() as int;
        lemma_last_position(saved.0, branch_ids[i], n);
        let p = last_position(saved.0, branch_ids[i], n);
        if p != i {
            if p < i {
                assert(saved.0[i] != branch_ids[i]) by {
                    assert(p < i < n);
                }
            } else {
                assert(branch_ids[p] == branch_ids[i]);
            }
        }
    }
}


/// The candidate moves the divider of `node` the way `direction` asks,
/// next to the first branch holding `w`: up or left, the branch before the
/// divider shrinks and the one after it grows, which is the focused branch
/// whenever a branch lies before it; down or right, the branch before the
/// divider grows and the one after it shrinks, the focused branch
/// whenever a branch lies after it. The node splits along the direction's
/// axis and may be adjusted.
pub open spec fn moves_divider(node: PartitionNode, w: Seq<char>, direction: ResizeDirection, c: ResizeCandidate) -> bool {
    let n = node.branches@.len() as int;
    let g = c.grow_branch_index as int;
    let s = c.shrink_branch_index as int;
    &&& node.adjustable
    &&& node.axis == (match direction {
        ResizeDirection::Left | ResizeDirection::Right => PartitionAxis::Horizontal,
        _ => PartitionAxis::Vertical,
    })
    &&& c.partition_id == node.partition_id
    &&& 0 <= g < n && 0 <= s < n
    &&& exists|f: int|
        0 <= f < n && has_text((#[trigger] node.branches@[f]).descendant_window_ids@, w) && (forall|j: int|
            0 <= j < f ==> !has_text(node.branches@[j].descendant_window_ids@, w)) && (f == g || f == s) && match direction {
            ResizeDirection::Left | ResizeDirection::Up => s + 1 == g && (f >= 1 ==> g == f),
            ResizeDirection::Right | ResizeDirection::Down => g + 1 == s && (f + 1 < n ==> g == f),
        }
}

proof fn lemma_node_candidate_moves_divider(node: PartitionNode, w: Seq<char>, direction: ResizeDirection)
    ensures
        node_candidate(node, w, direction) matches Some(c) ==> moves_divider(node, w, direction, c),
{
    if let Some(c) = node_candidate(node, w, direction) {
        let p = holds_window(w);
        lemma_first_index(node.branches@, p);
        let f = first_index(node.branches@, p);
        assert(p(node.branches@[f]));
        assert forall|j: int| 0 <= j < f implies !has_text(node.branches@[j].descendant_window_ids@, w) by {
            assert(!p(node.branches@[j]));
        }
        let n = node.branches@.len() as int;
        assert(n <= usize::MAX) by {
            vstd::std_specs::vec::axiom_spec_len(&node.branches);
        }
        let pair = neighbour_pair(n, f, direction)->0;
        assert(0 <= pair.0 < n && 0 <= pair.1 < n);
        assert(c.grow_branch_index as int == pair.0);
        assert(c.shrink_branch_index as int == pair.1);
        assert(has_text(node.branches@[f].descendant_window_ids@, w));
    }
}

proof fn lemma_path_candidate_moves_divider(
    partitions: IdMap<PartitionId, PartitionNode>,
    path: Seq<PartitionId>,
    w: Seq<char>,
    direction: ResizeDirection,
    k: int,
)
    ensures
        path_candidate(partitions, path, w, direction, k) matches Some(c) ==> exists|t: Seq<char>|
            #[trigger] partitions.spec_get(t) matches Some(node) && moves_divider(node, w, direction, c),
    decreases k,
{
    if k > 0 {
        match partitions.spec_get(path[k - 1]@) {
            None => {},
            Some(node) => {
                lemma_node_candidate_moves_divider(node, w, direction);
                match node_candidate(node, w, direction) {
                    Some(c) => {
                        assert(partitions.spec_get(path[k - 1]@) matches Some(node) && moves_divider(node, w, direction, c));
                    },
                    None => {
                        lemma_path_candidate_moves_divider(partitions, path, w, direction, k - 1);
                    },
                }
            },
        }
    }
}

/// A resize moves a divider of one of the tree's partitions the way the
/// direction asks, next to the focused window's branch.
pub proof fn lemma_resize_candidate_moves_divider(tree: PartitionTree, w: Seq<char>, direction: ResizeDirection)
    ensures
        spec_resize_candidate(tree, w, direction) matches Some(c) ==> exists|t: Seq<char>|
            #[trigger] tree.partitions.spec_get(t) matches Some(node) && moves_divider(node, w, direction, c),
{
    if let Some(path) = tree.window_to_partition_path.spec_get(w) {
        lemma_path_candidate_moves_divider(tree.partitions, path@, w, direction, path@.len() as int);
    }
}

} // verus!
