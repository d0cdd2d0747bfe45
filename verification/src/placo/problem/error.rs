//! Failures of the QP layer.
use vstd::prelude::*;

verus! {

/// Raised when a QP cannot be solved.
#[derive(Debug)]
pub enum QpError {
    /// The QP is infeasible (conflicting hard constraints) or the solver failed.
    Infeasible(String),
    /// The problem was malformed (empty / inconsistent constraint expressions).
    Malformed(String),
    /// The solution contained NaNs.
    Nan,
}

/// Result alias for QP operations.
pub type QpResult<T> = core::result::Result<T, QpError>;

} // verus!
