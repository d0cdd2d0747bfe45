//! Kinds and priorities of QP constraints.
use vstd::prelude::*;

use crate::text::same_text;

verus! {

/// Whether a constraint is an equality or an inequality.
#[derive(Clone, Copy, Debug, PartialEq, Eq, Structural)]
pub enum ConstraintType {
    /// `A·x + b = 0`.
    Equality,
    /// `A·x + b >= 0`.
    Inequality,
}

impl Default for ConstraintType {
    /// An equality.
    fn default() -> (r: ConstraintType)
        ensures
            r == ConstraintType::Equality,
    {
        ConstraintType::Equality
    }
}

/// Whether a constraint must hold or is merely an objective.
#[derive(Clone, Copy, Debug, PartialEq, Eq, Structural)]
pub enum ConstraintPriority {
    /// Best-effort: folded into the objective (weighted).
    Soft,
    /// Must be enforced (default).
    Hard,
}

impl Default for ConstraintPriority {
    /// Hard.
    fn default() -> (r: ConstraintPriority)
        ensures
            r == ConstraintPriority::Hard,
    {
        ConstraintPriority::Hard
    }
}

/// The constraint priority with the given name (`"hard"` or `"soft"`), if any.
pub open spec fn constraint_priority_named(name: Seq<char>) -> Option<ConstraintPriority> {
    if name == "hard"@ {
        Some(ConstraintPriority::Hard)
    } else if name == "soft"@ {
        Some(ConstraintPriority::Soft)
    } else {
        None
    }
}

/// Parses a constraint priority: `"hard"` or `"soft"`.
pub fn constraint_priority_from_name(name: &str) -> (r: ConstraintPriority)
    requires
        constraint_priority_named(name@) is Some,
    ensures
        constraint_priority_named(name@) == Some(r),
{
    if same_text(name, "hard") {
        ConstraintPriority::Hard
    } else {
        ConstraintPriority::Soft
    }
}

/// `"hard"` names the hard priority and `"soft"` the soft one.
pub proof fn lemma_constraint_priority_names()
    ensures
        constraint_priority_named("hard"@) == Some(ConstraintPriority::Hard),
        constraint_priority_named("soft"@) == Some(ConstraintPriority::Soft),
{
    reveal_strlit("hard");
    reveal_strlit("soft");
    assert("hard"@[0] != "soft"@[0]);
}

} // verus!
