//! Selector symbols that the language server indexes across a project.
use vstd::prelude::*;

verus! {

#[derive(Debug, Clone, Copy, PartialEq, Eq)]
pub enum ProjectSelectorKind {
    Id,
    Class,
}

/// A selector name found in the project, by kind.
#[derive(Debug, Clone, PartialEq, Eq)]
pub struct ProjectSelectorMatch {
    pub kind: ProjectSelectorKind,
    pub name: String,
}

} // verus!
