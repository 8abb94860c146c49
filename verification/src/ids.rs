//! Identifiers of windows, workspaces and outputs, compared by their text.
use vstd::prelude::*;
use vstd::string::*;

use crate::text::{text_lt, text_order, compare_text, TextOrder};

verus! {

/// A key that is known by its text and that can be copied exactly.
pub trait TextKey: Sized {
    spec fn key_text(&self) -> Seq<char>;

    /// Three-way comparison of the key texts.
    fn key_order(&self, other: &Self) -> (r: TextOrder)
        ensures
            r == text_order(self.key_text(), other.key_text()),
    ;

    fn copy_key(&self) -> (r: Self)
        ensures
            r == *self,
    ;
}

/// Identifier of a managed window.
#[derive(Debug)]
pub struct WindowId(pub String);

/// Identifier of a workspace.
#[derive(Debug)]
pub struct WorkspaceId(pub String);

/// Identifier of an output (a monitor).
#[derive(Debug)]
pub struct OutputId(pub String);

impl View for WindowId {
    type V = Seq<char>;

    open spec fn view(&self) -> Seq<char> {
        self.0@
    }
}

impl View for WorkspaceId {
    type V = Seq<char>;

    open spec fn view(&self) -> Seq<char> {
        self.0@
    }
}

impl View for OutputId {
    type V = Seq<char>;

    open spec fn view(&self) -> Seq<char> {
        self.0@
    }
}

impl TextKey for WindowId {
    open spec fn key_text(&self) -> Seq<char> {
        self.0@
    }

    fn key_order(&self, other: &Self) -> (r: TextOrder) {
        compare_text(self.0.as_str(), other.0.as_str())
    }

    fn copy_key(&self) -> (r: Self) {
        WindowId(self.0.clone())
    }
}

impl TextKey for WorkspaceId {
    open spec fn key_text(&self) -> Seq<char> {
        self.0@
    }

    fn key_order(&self, other: &Self) -> (r: TextOrder) {
        compare_text(self.0.as_str(), other.0.as_str())
    }

    fn copy_key(&self) -> (r: Self) {
        WorkspaceId(self.0.clone())
    }
}

impl TextKey for OutputId {
    open spec fn key_text(&self) -> Seq<char> {
        self.0@
    }

    fn key_order(&self, other: &Self) -> (r: TextOrder) {
        compare_text(self.0.as_str(), other.0.as_str())
    }

    fn copy_key(&self) -> (r: Self) {
        OutputId(self.0.clone())
    }
}

impl Clone for WindowId {
    fn clone(&self) -> (r: Self)
        ensures
            r == *self,
    {
        WindowId(self.0.clone())
    }
}

impl Clone for WorkspaceId {
    fn clone(&self) -> (r: Self)
        ensures
            r == *self,
    {
        WorkspaceId(self.0.clone())
    }
}

impl Clone for OutputId {
    fn clone(&self) -> (r: Self)
        ensures
            r == *self,
    {
        OutputId(self.0.clone())
    }
}

impl PartialEq for WindowId {
    fn eq(&self, other: &Self) -> (r: bool) {
        self.0 == other.0
    }
}

impl vstd::std_specs::cmp::PartialEqSpecImpl for WindowId {
    open spec fn obeys_eq_spec() -> bool {
        true
    }

    open spec fn eq_spec(&self, other: &Self) -> bool {
        self@ == other@
    }
}

impl Eq for WindowId {}

impl PartialEq for WorkspaceId {
    fn eq(&self, other: &Self) -> (r: bool) {
        self.0 == other.0
    }
}

impl vstd::std_specs::cmp::PartialEqSpecImpl for WorkspaceId {
    open spec fn obeys_eq_spec() -> bool {
        true
    }

    open spec fn eq_spec(&self, other: &Self) -> bool {
        self@ == other@
    }
}

impl Eq for WorkspaceId {}

impl PartialEq for OutputId {
    fn eq(&self, other: &Self) -> (r: bool) {
        self.0 == other.0
    }
}

impl vstd::std_specs::cmp::PartialEqSpecImpl for OutputId {
    open spec fn obeys_eq_spec() -> bool {
        true
    }

    open spec fn eq_spec(&self, other: &Self) -> bool {
        self@ == other@
    }
}

impl Eq for OutputId {}

/// The text of an optional identifier.
pub open spec fn opt_text<K: TextKey>(k: Option<K>) -> Option<Seq<char>> {
    match k {
        Some(k) => Some(k.key_text()),
        None => None,
    }
}

/// Two keys name the same thing.
pub fn same_key<K: TextKey>(a: &K, b: &K) -> (r: bool)
    ensures
        r == (a.key_text() == b.key_text()),
{
    match a.key_order(b) {
        TextOrder::Equal => true,
        _ => false,
    }
}

/// Two optional keys name the same thing (or are both absent).
pub fn same_opt_key<K: TextKey>(a: &Option<K>, b: &Option<K>) -> (r: bool)
    ensures
        r == (opt_text(*a) == opt_text(*b)),
{
    match (a, b) {
        (Some(a), Some(b)) => same_key(a, b),
        (None, None) => true,
        _ => false,
    }
}

/// The optional key is present and names `b`.
pub fn opt_key_is<K: TextKey>(a: &Option<K>, b: &K) -> (r: bool)
    ensures
        r == (opt_text(*a) == Some(b.key_text())),
{
    match a {
        Some(a) => same_key(a, b),
        None => false,
    }
}

/// Copies an optional key exactly.
pub fn copy_opt_key<K: TextKey>(a: &Option<K>) -> (r: Option<K>)
    ensures
        r == *a,
{
    match a {
        Some(k) => Some(k.copy_key()),
        None => None,
    }
}

/// `a` sorts strictly before `b`.
pub fn key_lt<K: TextKey>(a: &K, b: &K) -> (r: bool)
    ensures
        r == text_lt(a.key_text(), b.key_text()),
{
    match a.key_order(b) {
        TextOrder::Less => true,
        TextOrder::Equal => {
            proof {
                crate::text::lemma_text_lt_irreflexive(a.key_text());
            }
            false
        },
        TextOrder::Greater => {
            proof {
                crate::text::lemma_text_order_greater(a.key_text(), b.key_text());
            }
            false
        },
    }
}

} // verus!
