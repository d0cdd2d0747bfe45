//! Humanoid planning: support sides, footstep clipping modes and the grouping of
//! footsteps into supports.
use vstd::prelude::*;

pub mod footsteps;
pub mod parameters;
pub mod side;

pub use footsteps::{support_layout, SupportLayout};
pub use parameters::FootstepClipping;
pub use side::Side;

verus! {

} // verus!
