//! Planning and control: humanoid support sides and the QP modeling layer.
use vstd::prelude::*;

pub mod dynamics;
pub mod humanoid;
pub mod kinematics;
pub mod problem;
pub mod tools;

verus! {

} // verus!
