//! Handles of the inverse-dynamics solver.
use vstd::prelude::*;

verus! {

/// Handle to a dynamics task.
pub type TaskId = usize;

/// Handle to a contact.
pub type ContactId = usize;

/// Handles to the position + orientation sub-tasks of a dynamics frame task.
#[derive(Clone, Copy, Debug)]
pub struct FrameTaskHandle {
    /// The position sub-task.
    pub position: TaskId,
    /// The orientation sub-task.
    pub orientation: TaskId,
}

} // verus!
