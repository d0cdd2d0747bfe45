//! Handles to blocks of decision variables.
use vstd::prelude::*;

verus! {

/// A handle to the block `[k_start, k_end)` of a problem's decision variables.
#[derive(Clone, Copy, Debug, PartialEq, Eq, Structural)]
pub struct Variable {
    /// Start offset (inclusive) in the problem's variable vector.
    pub k_start: usize,
    /// End offset (exclusive) in the problem's variable vector.
    pub k_end: usize,
}

impl Variable {
    /// Number of scalar decision variables in this block.
    pub fn size(&self) -> (r: usize)
        requires
            self.k_start <= self.k_end,
        ensures
            r == self.k_end - self.k_start,
    {
        self.k_end - self.k_start
    }
}

} // verus!
