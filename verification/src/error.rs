//! Failures reported by the matrix engine.

use vstd::prelude::*;

verus! {

/// Why a matrix operation could not produce a result.
#[derive(Debug, Clone, Copy, PartialEq, Eq, Structural)]
pub enum MatrixError {
    /// The operands' dimensions do not fit the requested operation.
    ShapeMismatch,
    /// A reply to a dispatched request could not be obtained.
    WorkerCommunicationFailure,
}

} // verus!
