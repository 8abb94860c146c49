//! Layout trees: what a layout module authors (`SourceLayoutNode`) and what
//! it resolves to once windows are placed (`ResolvedLayoutNode`).
use vstd::prelude::*;

use crate::id_map::IdMap;
use crate::ids::{TextKey, WindowId};

verus! {

#[derive(Debug, Clone, Copy, PartialEq, Eq)]
pub enum LayoutNodeType {
    Workspace,
    Group,
    Window,
    Slot,
}

#[derive(Debug, Clone, Copy, PartialEq, Eq)]
pub enum RuntimeLayoutNodeType {
    Workspace,
    Group,
    Window,
    Content,
}

#[derive(Debug, Clone, Copy, PartialEq, Eq)]
pub enum RuntimeContentKind {
    Container,
    Text,
}

impl TextKey for String {
    open spec fn key_text(&self) -> Seq<char> {
        self@
    }

    fn key_order(&self, other: &Self) -> (r: crate::text::TextOrder) {
        crate::text::compare_text(self.as_str(), other.as_str())
    }

    fn copy_key(&self) -> (r: Self) {
        self.clone()
    }
}

/// Identity and styling hooks shared by every layout node.
#[derive(Debug)]
pub struct LayoutNodeMeta {
    pub id: Option<String>,
    pub class: Vec<String>,
    pub name: Option<String>,
    pub data: IdMap<String, String>,
}

impl LayoutNodeMeta {
    /// A node with no id, no classes, no name and no data.
    pub open spec fn is_blank(self) -> bool {
        &&& self.id is None
        &&& self.class@.len() == 0
        &&& self.name is None
        &&& self.data.entries().len() == 0
    }

    /// A node known only by its id.
    pub fn with_id(id: &str) -> (r: Self)
        ensures
            r.id is Some,
            r.id.unwrap()@ == id@,
            r.class@.len() == 0,
            r.name is None,
            r.data.entries().len() == 0,
            r.data.wf(),
    {
        LayoutNodeMeta { id: Some(id.to_owned()), class: Vec::new(), name: None, data: IdMap::new() }
    }
}

impl Default for LayoutNodeMeta {
    fn default() -> (r: Self)
        ensures
            r.is_blank(),
            r.data.wf(),
    {
        LayoutNodeMeta { id: None, class: Vec::new(), name: None, data: IdMap::new() }
    }
}

#[derive(Debug, Clone, Copy, PartialEq, Eq)]
pub enum MatchKey {
    AppId,
    Title,
    Class,
    Instance,
    Role,
    Shell,
    WindowType,
}

#[derive(Debug)]
pub struct MatchClause {
    pub key: MatchKey,
    pub value: String,
}

#[derive(Debug)]
pub struct WindowMatch {
    pub clauses: Vec<MatchClause>,
}

#[derive(Debug, Clone, Copy, PartialEq, Eq)]
pub enum RemainingTake {
    Remaining,
}

/// How many windows a slot takes.
#[derive(Debug, Clone, Copy, PartialEq, Eq)]
pub enum SlotTake {
    Count(u32),
    Remaining(RemainingTake),
}

impl Default for SlotTake {
    fn default() -> (r: Self)
        ensures
            r == SlotTake::Remaining(RemainingTake::Remaining),
    {
        SlotTake::Remaining(RemainingTake::Remaining)
    }
}

impl SlotTake {
    pub fn is_remaining(&self) -> (r: bool)
        ensures
            r == (*self == SlotTake::Remaining(RemainingTake::Remaining)),
    {
        match self {
            SlotTake::Remaining(RemainingTake::Remaining) => true,
            SlotTake::Count(_) => false,
        }
    }
}

/// A layout as authored: groups and slots that windows will fill.
#[derive(Debug)]
pub enum SourceLayoutNode {
    Workspace { meta: LayoutNodeMeta, children: Vec<SourceLayoutNode> },
    Group { meta: LayoutNodeMeta, children: Vec<SourceLayoutNode> },
    Window { meta: LayoutNodeMeta, window_match: Option<WindowMatch> },
    Slot { meta: LayoutNodeMeta, window_match: Option<WindowMatch>, take: SlotTake },
}

impl SourceLayoutNode {
    pub open spec fn spec_meta(self) -> LayoutNodeMeta {
        match self {
            SourceLayoutNode::Workspace { meta, .. } => meta,
            SourceLayoutNode::Group { meta, .. } => meta,
            SourceLayoutNode::Window { meta, .. } => meta,
            SourceLayoutNode::Slot { meta, .. } => meta,
        }
    }

    pub open spec fn spec_children(self) -> Seq<SourceLayoutNode> {
        match self {
            SourceLayoutNode::Workspace { children, .. } => children@,
            SourceLayoutNode::Group { children, .. } => children@,
            SourceLayoutNode::Window { .. } => Seq::empty(),
            SourceLayoutNode::Slot { .. } => Seq::empty(),
        }
    }

    pub fn node_type(&self) -> (r: LayoutNodeType)
        ensures
            r == (match *self {
                SourceLayoutNode::Workspace { .. } => LayoutNodeType::Workspace,
                SourceLayoutNode::Group { .. } => LayoutNodeType::Group,
                SourceLayoutNode::Window { .. } => LayoutNodeType::Window,
                SourceLayoutNode::Slot { .. } => LayoutNodeType::Slot,
            }),
    {
        match self {
            SourceLayoutNode::Workspace { .. } => LayoutNodeType::Workspace,
            SourceLayoutNode::Group { .. } => LayoutNodeType::Group,
            SourceLayoutNode::Window { .. } => LayoutNodeType::Window,
            SourceLayoutNode::Slot { .. } => LayoutNodeType::Slot,
        }
    }

    pub fn meta(&self) -> (r: &LayoutNodeMeta)
        ensures
            *r == self.spec_meta(),
    {
        match self {
            SourceLayoutNode::Workspace { meta, .. } => meta,
            SourceLayoutNode::Group { meta, .. } => meta,
            SourceLayoutNode::Window { meta, .. } => meta,
            SourceLayoutNode::Slot { meta, .. } => meta,
        }
    }

    pub fn children(&self) -> (r: &[SourceLayoutNode])
        ensures
            r@ == self.spec_children(),
    {
        match self {
            SourceLayoutNode::Workspace { children, .. } => children.as_slice(),
            SourceLayoutNode::Group { children, .. } => children.as_slice(),
            SourceLayoutNode::Window { .. } => &[],
            SourceLayoutNode::Slot { .. } => &[],
        }
    }
}

/// A layout once windows have been placed into it.
#[derive(Debug)]
pub enum ResolvedLayoutNode {
    Workspace { meta: LayoutNodeMeta, children: Vec<ResolvedLayoutNode> },
    Group { meta: LayoutNodeMeta, children: Vec<ResolvedLayoutNode> },
    Window { meta: LayoutNodeMeta, window_id: Option<WindowId>, children: Vec<ResolvedLayoutNode> },
    Content {
        meta: LayoutNodeMeta,
        kind: RuntimeContentKind,
        text: Option<String>,
        children: Vec<ResolvedLayoutNode>,
    },
}

impl ResolvedLayoutNode {
    pub open spec fn spec_meta(self) -> LayoutNodeMeta {
        match self {
            ResolvedLayoutNode::Workspace { meta, .. } => meta,
            ResolvedLayoutNode::Group { meta, .. } => meta,
            ResolvedLayoutNode::Window { meta, .. } => meta,
            ResolvedLayoutNode::Content { meta, .. } => meta,
        }
    }

    pub open spec fn spec_children(self) -> Seq<ResolvedLayoutNode> {
        match self {
            ResolvedLayoutNode::Workspace { children, .. } => children@,
            ResolvedLayoutNode::Group { children, .. } => children@,
            ResolvedLayoutNode::Window { children, .. } => children@,
            ResolvedLayoutNode::Content { children, .. } => children@,
        }
    }

    pub fn node_type(&self) -> (r: RuntimeLayoutNodeType)
        ensures
            r == (match *self {
                ResolvedLayoutNode::Workspace { .. } => RuntimeLayoutNodeType::Workspace,
                ResolvedLayoutNode::Group { .. } => RuntimeLayoutNodeType::Group,
                ResolvedLayoutNode::Window { .. } => RuntimeLayoutNodeType::Window,
                ResolvedLayoutNode::Content { .. } => RuntimeLayoutNodeType::Content,
            }),
    {
        match self {
            ResolvedLayoutNode::Workspace { .. } => RuntimeLayoutNodeType::Workspace,
            ResolvedLayoutNode::Group { .. } => RuntimeLayoutNodeType::Group,
            ResolvedLayoutNode::Window { .. } => RuntimeLayoutNodeType::Window,
            ResolvedLayoutNode::Content { .. } => RuntimeLayoutNodeType::Content,
        }
    }

    pub fn meta(&self) -> (r: &LayoutNodeMeta)
        ensures
            *r == self.spec_meta(),
    {
        match self {
            ResolvedLayoutNode::Workspace { meta, .. } => meta,
            ResolvedLayoutNode::Group { meta, .. } => meta,
            ResolvedLayoutNode::Window { meta, .. } => meta,
            ResolvedLayoutNode::Content { meta, .. } => meta,
        }
    }

    pub fn children(&self) -> (r: &[ResolvedLayoutNode])
        ensures
            r@ == self.spec_children(),
    {
        match self {
            ResolvedLayoutNode::Workspace { children, .. } => children.as_slice(),
            ResolvedLayoutNode::Group { children, .. } => children.as_slice(),
            ResolvedLayoutNode::Window { children, .. } => children.as_slice(),
            ResolvedLayoutNode::Content { children, .. } => children.as_slice(),
        }
    }
}

} // verus!
