//! Priorities, task-axis selection and polynomial derivative coefficients.
use vstd::prelude::*;

pub mod axises_mask;
pub mod polynom;
pub mod prioritized;

pub use axises_mask::MaskFrame;
pub use prioritized::Priority;

verus! {

} // verus!
