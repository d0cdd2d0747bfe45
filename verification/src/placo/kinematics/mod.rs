//! Task-space inverse kinematics: task handles and masked degrees of freedom.
use vstd::prelude::*;

pub mod solver;

pub use solver::{ConstraintId, DofMask, FrameTaskHandle, TaskId};

verus! {

} // verus!
