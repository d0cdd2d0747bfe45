//! The QP modeling layer: variables, constraint kinds and their row layout, column
//! sparsity, and the QP errors.
use vstd::prelude::*;

pub mod constraint;
pub mod error;
pub mod problem;
pub mod problem_polynom;
pub mod sparsity;
pub mod variable;

pub use constraint::{ConstraintPriority, ConstraintType};
pub use error::{QpError, QpResult};
pub use problem_polynom::ProblemPolynom;
pub use sparsity::{Interval, Sparsity};
pub use variable::Variable;

verus! {

} // verus!
