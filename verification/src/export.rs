//! Options consumed by the markdown export collaborator, which renders
//! a finished trace model outside the core.
use vstd::prelude::*;

verus! {

/// How an export narrows the model.
#[derive(Debug, Clone)]
pub struct ExportOptions {
    /// Only export actions that carry an error.
    pub errors_only: bool,
}

impl Default for ExportOptions {
    fn default() -> (r: Self)
        ensures
            !r.errors_only,
    {
        ExportOptions { errors_only: false }
    }
}

} // verus!
