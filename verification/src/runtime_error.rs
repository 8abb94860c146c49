//! Failures of the layout runtime and the outcome of a runtime refresh.
use vstd::prelude::*;

verus! {

/// Failures of the layout runtime.
#[derive(Debug, PartialEq)]
pub enum RuntimeError {
    NotImplemented(String),
    JavaScript { message: String },
    MissingExport { name: String, export: String },
    NonCallableExport { name: String, export: String },
    MissingRuntimeSource { name: String },
    ValueConversion { name: String, message: String },
    Validation { message: String },
    Config { message: String },
    Other { message: String },
}

/// How many runtime files a refresh rebuilt and how many it dropped.
#[derive(Debug, Clone, Copy, PartialEq, Eq, Default)]
pub struct RuntimeRefreshSummary {
    pub refreshed_files: usize,
    pub pruned_files: usize,
}

impl RuntimeRefreshSummary {
    /// Nothing was rebuilt or dropped.
    pub fn is_noop(self) -> (r: bool)
        ensures
            r == (self.refreshed_files == 0 && self.pruned_files == 0),
    {
        self.refreshed_files == 0 && self.pruned_files == 0
    }
}

} // verus!
