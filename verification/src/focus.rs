//! The focus hierarchy of a workspace: nested scopes, the windows under each
//! scope, and the order in which a scope's branches are navigated.
use vstd::prelude::*;

use crate::id_map::IdMap;
use crate::ids::{TextKey, WindowId, same_key};
use crate::seq_util::{first_index, lemma_first_index};

verus! {

/// Path of a focus scope, such as `$workspace` or `$workspace/main`.
#[derive(Debug)]
pub struct FocusScopePath(pub String);

impl View for FocusScopePath {
    type V = Seq<char>;

    open spec fn view(&self) -> Seq<char> {
        self.0@
    }
}

impl TextKey for FocusScopePath {
    open spec fn key_text(&self) -> Seq<char> {
        self.0@
    }

    fn key_order(&self, other: &Self) -> (r: crate::text::TextOrder) {
        crate::text::compare_text(self.0.as_str(), other.0.as_str())
    }

    fn copy_key(&self) -> (r: Self) {
        FocusScopePath(self.0.clone())
    }
}

impl Clone for FocusScopePath {
    fn clone(&self) -> (r: Self)
        ensures
            r == *self,
    {
        FocusScopePath(self.0.clone())
    }
}

impl PartialEq for FocusScopePath {
    fn eq(&self, other: &Self) -> (r: bool) {
        self.0 == other.0
    }
}

impl vstd::std_specs::cmp::PartialEqSpecImpl for FocusScopePath {
    open spec fn obeys_eq_spec() -> bool {
        true
    }

    open spec fn eq_spec(&self, other: &Self) -> bool {
        self@ == other@
    }
}

impl Eq for FocusScopePath {}

#[derive(Debug, Clone, Copy, PartialEq, Eq, Structural)]
pub enum FocusAxis {
    Horizontal,
    Vertical,
}

/// A branch of a scope: a nested scope or a single window.
#[derive(Debug)]
pub enum FocusBranchKey {
    Scope(FocusScopePath),
    Window(WindowId),
}

/// Text view of a branch: the scope path or the window id, tagged.
pub open spec fn branch_view(b: FocusBranchKey) -> (bool, Seq<char>) {
    match b {
        FocusBranchKey::Scope(s) => (true, s@),
        FocusBranchKey::Window(w) => (false, w@),
    }
}

impl FocusBranchKey {
    pub fn copy_branch(&self) -> (r: FocusBranchKey)
        ensures
            r == *self,
    {
        match self {
            FocusBranchKey::Scope(s) => FocusBranchKey::Scope(s.clone()),
            FocusBranchKey::Window(w) => FocusBranchKey::Window(w.clone()),
        }
    }

    /// Two branch keys name the same branch.
    pub fn same_branch(&self, other: &FocusBranchKey) -> (r: bool)
        ensures
            r == (branch_view(*self) == branch_view(*other)),
    {
        match (self, other) {
            (FocusBranchKey::Scope(a), FocusBranchKey::Scope(b)) => same_key(a, b),
            (FocusBranchKey::Window(a), FocusBranchKey::Window(b)) => same_key(a, b),
            _ => false,
        }
    }
}

/// How a scope's branches are traversed: along `axis`, in `branches` order.
#[derive(Debug)]
pub struct FocusScopeNavigation {
    pub axis: FocusAxis,
    pub branches: Vec<FocusBranchKey>,
}

/// One scope of the tree with the windows it contains.
#[derive(Debug)]
pub struct FocusScope {
    pub key: FocusScopePath,
    pub descendants: Vec<WindowId>,
    pub navigation: Option<FocusScopeNavigation>,
}

/// One window with the scopes that enclose it, outermost first.
#[derive(Debug)]
pub struct FocusWindow {
    pub window_id: WindowId,
    pub scope_path: Vec<FocusScopePath>,
}

/// The focus hierarchy of a workspace. Lookups take the first entry that
/// matches.
#[derive(Debug)]
pub struct FocusTree {
    pub scopes: Vec<FocusScope>,
    pub windows: Vec<FocusWindow>,
}

/// The text of the workspace scope.
pub open spec fn workspace_scope_text() -> Seq<char> {
    seq!['$', 'w', 'o', 'r', 'k', 's', 'p', 'a', 'c', 'e']
}

impl FocusTree {
    pub open spec fn window_is(w: Seq<char>) -> spec_fn(FocusWindow) -> bool {
        |e: FocusWindow| e.window_id@ == w
    }

    pub open spec fn scope_is(s: Seq<char>) -> spec_fn(FocusScope) -> bool {
        |e: FocusScope| e.key@ == s
    }

    pub open spec fn window_entry(self, w: Seq<char>) -> int {
        first_index(self.windows@, Self::window_is(w))
    }

    pub open spec fn scope_entry(self, s: Seq<char>) -> int {
        first_index(self.scopes@, Self::scope_is(s))
    }

    /// Scopes enclosing window `w`, outermost first.
    pub open spec fn spec_scope_path(self, w: Seq<char>) -> Option<Seq<FocusScopePath>> {
        if self.window_entry(w) >= 0 {
            Some(self.windows@[self.window_entry(w)].scope_path@)
        } else {
            None
        }
    }

    /// Windows under scope `s`.
    pub open spec fn spec_descendants(self, s: Seq<char>) -> Option<Seq<WindowId>> {
        if self.scope_entry(s) >= 0 {
            Some(self.scopes@[self.scope_entry(s)].descendants@)
        } else {
            None
        }
    }

    /// Navigation of scope `s`, if it has any.
    pub open spec fn spec_navigation(self, s: Seq<char>) -> Option<FocusScopeNavigation> {
        if self.scope_entry(s) >= 0 {
            self.scopes@[self.scope_entry(s)].navigation
        } else {
            None
        }
    }

    pub open spec fn spec_contains_window(self, w: Seq<char>) -> bool {
        self.window_entry(w) >= 0
    }

    pub open spec fn spec_has_scope(self, s: Seq<char>) -> bool {
        self.scope_entry(s) >= 0
    }

    /// Window ids in tree order.
    pub open spec fn spec_ordered_window_ids(self) -> Seq<WindowId> {
        self.windows@.map_values(|e: FocusWindow| e.window_id)
    }

    /// The scope that encloses every window.
    pub fn workspace_scope() -> (r: FocusScopePath)
        ensures
            r@ == workspace_scope_text(),
    {
        let r = FocusScopePath("$workspace".to_owned());
        proof {
            reveal_strlit("$workspace");
        }
        r
    }

    fn window_position(&self, window_id: &WindowId) -> (r: Option<usize>)
        ensures
            match r {
                Some(i) => i < self.windows@.len() && i as int == self.window_entry(window_id@),
                None => self.window_entry(window_id@) == -1,
            },
    {
        proof {
            lemma_first_index(self.windows@, Self::window_is(window_id@));
        }
        let mut i: usize = 0;
        while i < self.windows.len()
            invariant
                i <= self.windows@.len(),
                forall|j: int| 0 <= j < i ==> #[trigger] self.windows@[j].window_id@ != window_id@,
            decreases self.windows@.len() - i,
        {
            if same_key(&self.windows[i].window_id, window_id) {
                proof {
                    lemma_first_index(self.windows@, Self::window_is(window_id@));
                }
                assert(Self::window_is(window_id@)(self.windows@[i as int]));
                assert(forall|j: int| 0 <= j < i ==> !Self::window_is(window_id@)(#[trigger] self.windows@[j]));
                return Some(i);
            }
            i = i + 1;
        }
        None
    }

    fn scope_position(&self, scope: &FocusScopePath) -> (r: Option<usize>)
        ensures
            match r {
                Some(i) => i < self.scopes@.len() && i as int == self.scope_entry(scope@),
                None => self.scope_entry(scope@) == -1,
            },
    {
        proof {
            lemma_first_index(self.scopes@, Self::scope_is(scope@));
        }
        let mut i: usize = 0;
        while i < self.scopes.len()
            invariant
                i <= self.scopes@.len(),
                forall|j: int| 0 <= j < i ==> #[trigger] self.scopes@[j].key@ != scope@,
            decreases self.scopes@.len() - i,
        {
            if same_key(&self.scopes[i].key, scope) {
                proof {
                    lemma_first_index(self.scopes@, Self::scope_is(scope@));
                }
                assert(Self::scope_is(scope@)(self.scopes@[i as int]));
                assert(forall|j: int| 0 <= j < i ==> !Self::scope_is(scope@)(#[trigger] self.scopes@[j]));
                return Some(i);
            }
            i = i + 1;
        }
        None
    }

    pub fn scope_path(&self, window_id: &WindowId) -> (r: Option<&Vec<FocusScopePath>>)
        ensures
            match r {
                Some(p) => self.spec_scope_path(window_id@) == Some(p@),
                None => self.spec_scope_path(window_id@) is None,
            },
    {
        match self.window_position(window_id) {
            Some(i) => Some(&self.windows[i].scope_path),
            None => None,
        }
    }

    pub fn descendants(&self, scope: &FocusScopePath) -> (r: Option<&Vec<WindowId>>)
        ensures
            match r {
                Some(d) => self.spec_descendants(scope@) == Some(d@),
                None => self.spec_descendants(scope@) is None,
            },
    {
        match self.scope_position(scope) {
            Some(i) => Some(&self.scopes[i].descendants),
            None => None,
        }
    }

    pub fn navigation(&self, scope: &FocusScopePath) -> (r: Option<&FocusScopeNavigation>)
        ensures
            match r {
                Some(n) => self.spec_navigation(scope@) == Some(*n),
                None => self.spec_navigation(scope@) is None,
            },
    {
        match self.scope_position(scope) {
            Some(i) => match &self.scopes[i].navigation {
                Some(n) => Some(n),
                None => None,
            },
            None => None,
        }
    }

    pub fn contains_window(&self, window_id: &WindowId) -> (r: bool)
        ensures
            r == self.spec_contains_window(window_id@),
    {
        self.window_position(window_id).is_some()
    }

    pub fn has_scope(&self, scope: &FocusScopePath) -> (r: bool)
        ensures
            r == self.spec_has_scope(scope@),
    {
        self.scope_position(scope).is_some()
    }

    /// Some scope before position `k` of `scopes` has the text `t`.
    pub open spec fn seen_before(scopes: Seq<FocusScope>, k: int, t: Seq<char>) -> bool {
        exists|i: int| 0 <= i < k && #[trigger] scopes[i].key@ == t
    }

    /// Two scope lists with the same keys, position by position, find the
    /// same first entry for every scope text.
    pub proof fn lemma_same_keys_same_entry(a: Seq<FocusScope>, b: Seq<FocusScope>, t: Seq<char>)
        requires
            a.len() == b.len(),
            forall|j: int| 0 <= j < a.len() ==> (#[trigger] a[j]).key@ == b[j].key@,
        ensures
            first_index(a, Self::scope_is(t)) == first_index(b, Self::scope_is(t)),
    {
        lemma_first_index(a, Self::scope_is(t));
        lemma_first_index(b, Self::scope_is(t));
        let e = first_index(a, Self::scope_is(t));
        if e >= 0 {
            assert(Self::scope_is(t)(b[e]));
            assert forall|j: int| 0 <= j < e implies !Self::scope_is(t)(#[trigger] b[j]) by {
                assert(!Self::scope_is(t)(a[j]));
            }
        } else {
            assert forall|i: int| 0 <= i < b.len() implies !Self::scope_is(t)(#[trigger] b[i]) by {
                assert(!Self::scope_is(t)(a[i]));
            }
        }
    }

    /// Position `j` is the first scope with its text exactly when no scope
    /// before it has that text.
    pub proof fn lemma_first_entry_unseen(scopes: Seq<FocusScope>, j: int)
        requires
            0 <= j < scopes.len(),
        ensures
            (j == first_index(scopes, Self::scope_is(scopes[j].key@))) <==> !Self::seen_before(
                scopes,
                j,
                scopes[j].key@,
            ),
    {
        let t = scopes[j].key@;
        lemma_first_index(scopes, Self::scope_is(t));
        if Self::seen_before(scopes, j, t) {
            let i = choose|i: int| 0 <= i < j && #[trigger] scopes[i].key@ == t;
            assert(Self::scope_is(t)(scopes[i]));
        } else {
            assert(Self::scope_is(t)(scopes[j]));
            assert forall|i: int| 0 <= i < j implies !Self::scope_is(t)(#[trigger] scopes[i]) by {
                if scopes[i].key@ == t {
                    assert(Self::seen_before(scopes, j, t));
                }
            }
        }
    }

    /// Gives every scope the navigation stored under its path; a scope
    /// without one has none. Keys, windows and descendants stay as they are.
    pub fn set_navigation(&mut self, navigation_by_scope: IdMap<FocusScopePath, FocusScopeNavigation>)
        requires
            navigation_by_scope.wf(),
        ensures
            final(self).windows == old(self).windows,
            final(self).scopes@.len() == old(self).scopes@.len(),
            forall|j: int|
                0 <= j < old(self).scopes@.len() ==> {
                    &&& (#[trigger] final(self).scopes@[j]).key == old(self).scopes@[j].key
                    &&& final(self).scopes@[j].descendants == old(self).scopes@[j].descendants
                },
            forall|t: Seq<char>| #[trigger] final(self).scope_entry(t) == old(self).scope_entry(t),
            forall|t: Seq<char>|
                #[trigger] final(self).spec_navigation(t) == (if old(self).spec_has_scope(t) {
                    navigation_by_scope.spec_get(t)
                } else {
                    None
                }),
    {
        let ghost orig = self.scopes@;
        let ghost given = navigation_by_scope;
        let mut remaining: Vec<FocusScope> = Vec::new();
        std::mem::swap(&mut remaining, &mut self.scopes);
        let mut map = navigation_by_scope;
        let mut rebuilt: Vec<FocusScope> = Vec::new();
        while remaining.len() > 0
            invariant
                map.wf(),
                rebuilt@.len() <= orig.len(),
                remaining@ == orig.subrange(rebuilt@.len() as int, orig.len() as int),
                forall|t: Seq<char>|
                    #[trigger] map.spec_get(t) == (if Self::seen_before(orig, rebuilt@.len() as int, t) {
                        None
                    } else {
                        given.spec_get(t)
                    }),
                forall|j: int|
                    0 <= j < rebuilt@.len() ==> {
                        &&& (#[trigger] rebuilt@[j]).key == orig[j].key
                        &&& rebuilt@[j].descendants == orig[j].descendants
                        &&& rebuilt@[j].navigation == (if Self::seen_before(orig, j, orig[j].key@) {
                            None
                        } else {
                            given.spec_get(orig[j].key@)
                        })
                    },
            decreases remaining@.len(),
        {
            let ghost k = rebuilt@.len() as int;
            let scope = remaining.remove(0);
            assert(scope == orig[k]);
            let navigation = map.remove(&scope.key);
            proof {
                assert forall|t: Seq<char>| #[trigger] Self::seen_before(orig, k + 1, t) == (Self::seen_before(
                    orig,
                    k,
                    t,
                ) || orig[k].key@ == t) by {
                    if Self::seen_before(orig, k + 1, t) && !Self::seen_before(orig, k, t) {
                        let i = choose|i: int| 0 <= i < k + 1 && #[trigger] orig[i].key@ == t;
                        assert(i == k);
                    }
                    if orig[k].key@ == t {
                        assert(orig[k].key@ == t);
                    }
                }
            }
            rebuilt.push(FocusScope { key: scope.key, descendants: scope.descendants, navigation });
            assert(remaining@ =~= orig.subrange(rebuilt@.len() as int, orig.len() as int));
        }
        self.scopes = rebuilt;
        proof {
            assert(rebuilt@.len() == orig.len());
            assert forall|t: Seq<char>| #[trigger] self.scope_entry(t) == old(self).scope_entry(t) by {
                Self::lemma_same_keys_same_entry(self.scopes@, orig, t);
            }
            assert forall|t: Seq<char>| #[trigger] self.spec_navigation(t) == (if old(self).spec_has_scope(t) {
                given.spec_get(t)
            } else {
                None
            }) by {
                Self::lemma_same_keys_same_entry(self.scopes@, orig, t);
                lemma_first_index(orig, Self::scope_is(t));
                let e = old(self).scope_entry(t);
                if e >= 0 {
                    assert(orig[e].key@ == t);
                    Self::lemma_first_entry_unseen(orig, e);
                }
            }
        }
    }

    /// Window ids in tree order.
    pub fn ordered_window_ids(&self) -> (r: Vec<WindowId>)
        ensures
            r@ == self.spec_ordered_window_ids(),
    {
        let mut out: Vec<WindowId> = Vec::new();
        let mut i: usize = 0;
        while i < self.windows.len()
            invariant
                i <= self.windows@.len(),
                out@ == self.windows@.take(i as int).map_values(|e: FocusWindow| e.window_id),
            decreases self.windows@.len() - i,
        {
            out.push(self.windows[i].window_id.clone());
            assert(self.windows@.take(i + 1).map_values(|e: FocusWindow| e.window_id)
                =~= self.windows@.take(i as int).map_values(|e: FocusWindow| e.window_id).push(
                self.windows@[i as int].window_id));
            i = i + 1;
        }
        assert(self.windows@.take(self.windows@.len() as int) =~= self.windows@);
        out
    }
}

} // verus!
