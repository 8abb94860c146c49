//! What a layout module must export, what a runtime reports about itself,
//! and the file dependencies a cached artifact was built from.
use vstd::prelude::*;

verus! {

/// The export a layout module provides its layout through.
#[derive(Debug, Clone, PartialEq, Eq)]
pub struct LayoutModuleContract {
    pub export_name: String,
}

impl Default for LayoutModuleContract {
    /// Layout modules export their layout as `default`.
    fn default() -> (r: Self)
        ensures
            r.export_name@ == "default"@,
    {
        LayoutModuleContract { export_name: "default".to_owned() }
    }
}

#[derive(Debug, Clone, PartialEq, Eq)]
pub struct RuntimeInfo {
    pub name: String,
}

/// A file a cached artifact depends on, with the hash of the contents it
/// was built from.
#[derive(Debug, Clone, PartialEq, Eq)]
pub struct NativeDependencySnapshot {
    pub path: String,
    pub content_hash: String,
}

} // verus!
