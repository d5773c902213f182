use vstd::prelude::*;

verus! {

/// Failure of one pipeline operation (a single insert, load or query).
///
/// A query that merely finds nothing is not a failure: it returns an empty
/// ranked list instead. An operation on an uninitialized store needs no
/// variant either: a store exists only once its constructor has scoped it
/// to a dimensionality, so use-before-initialization cannot be written.
#[derive(Debug, Clone, Copy, PartialEq, Eq, Structural)]
pub enum PipelineError {
    /// The embedding endpoint could not be reached, answered with a
    /// non-success status, or returned a malformed body. No partial
    /// embedding is ever produced in this case.
    Transport,
    /// A vector's length differs from the store's fixed dimensionality.
    /// The operation is aborted; the store is left unchanged.
    Schema { expected: usize, actual: usize },
}

impl PipelineError {
    /// A short human-readable tag for the error kind.
    pub fn kind_name(&self) -> (r: &'static str)
        ensures
            (*self matches PipelineError::Transport) ==> r@ == "embedding unavailable"@,
            (*self matches PipelineError::Schema { .. }) ==> r@ == "dimensionality mismatch"@,
    {
        match self {
            PipelineError::Transport => "embedding unavailable",
            PipelineError::Schema { .. } => "dimensionality mismatch",
        }
    }
}

} // verus!
