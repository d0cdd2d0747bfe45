//! Verified core of a QP-based planning and control framework for robots: support
//! sides and priorities, the bookkeeping of the QP modeling layer (variables,
//! constraint layout, column sparsity), footstep grouping into supports, masked
//! degrees of freedom, and the error types shared by the layers above.
use vstd::prelude::*;

mod error;
mod model;
pub mod placo;
mod text;

pub use error::{Error, Result};
pub use model::{check_dimension, index_from_signed, ReferenceFrame};

verus! {

} // verus!
