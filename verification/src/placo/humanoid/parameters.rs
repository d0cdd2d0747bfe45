//! Step clipping modes of the footstep planners.
use vstd::prelude::*;

verus! {

/// Step-size clipping mode.
#[derive(Clone, Copy, Debug, PartialEq, Eq, Structural)]
pub enum FootstepClipping {
    /// L2 (ellipsoid) clipping.
    Ellipsoid,
    /// L1 (box) clipping.
    Box,
    /// Conic clipping (default).
    Conic,
}

impl Default for FootstepClipping {
    /// Conic clipping.
    fn default() -> (r: FootstepClipping)
        ensures
            r == FootstepClipping::Conic,
    {
        FootstepClipping::Conic
    }
}

} // verus!
