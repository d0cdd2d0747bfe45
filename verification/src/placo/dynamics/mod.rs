//! Task-space inverse dynamics: task and contact handles.
use vstd::prelude::*;

pub mod solver;

pub use solver::{ContactId, FrameTaskHandle, TaskId};

verus! {

} // verus!
