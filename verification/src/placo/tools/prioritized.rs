//! Priority of tasks and constraints.
use vstd::prelude::*;

use crate::text::same_text;

verus! {

/// The priority of a task or constraint.
#[derive(Clone, Copy, Debug, PartialEq, Eq, Structural)]
pub enum Priority {
    /// Enforced exactly, as an equality constraint.
    Hard,
    /// Best-effort, added to the objective with a weight.
    Soft,
    /// Like [`Priority::Hard`], but with a decision-variable scaling factor.
    Scaled,
}

impl Default for Priority {
    /// Soft priority.
    fn default() -> (r: Priority)
        ensures
            r == Priority::Soft,
    {
        Priority::Soft
    }
}

/// The lower-case name of a priority.
pub open spec fn priority_name(p: Priority) -> Seq<char> {
    match p {
        Priority::Hard => "hard"@,
        Priority::Soft => "soft"@,
        Priority::Scaled => "scaled"@,
    }
}

/// The priority with the given name, if any.
pub open spec fn priority_named(name: Seq<char>) -> Option<Priority> {
    if name == "hard"@ {
        Some(Priority::Hard)
    } else if name == "soft"@ {
        Some(Priority::Soft)
    } else if name == "scaled"@ {
        Some(Priority::Scaled)
    } else {
        None
    }
}

impl Priority {
    /// Parses `"hard"`, `"soft"` or `"scaled"`.
    pub fn from_name(name: &str) -> (r: Priority)
        requires
            priority_named(name@) is Some,
        ensures
            priority_named(name@) == Some(r),
    {
        if same_text(name, "hard") {
            Priority::Hard
        } else if same_text(name, "soft") {
            Priority::Soft
        } else {
            Priority::Scaled
        }
    }

    /// The lower-case name of the priority.
    pub fn name(&self) -> (r: &'static str)
        ensures
            r@ == priority_name(*self),
    {
        match self {
            Priority::Hard => "hard",
            Priority::Soft => "soft",
            Priority::Scaled => "scaled",
        }
    }
}

/// A priority's name parses back to that priority.
pub proof fn lemma_priority_name_roundtrip(p: Priority)
    ensures
        priority_named(priority_name(p)) == Some(p),
{
    reveal_strlit("hard");
    reveal_strlit("soft");
    reveal_strlit("scaled");
    assert("hard"@[0] != "soft"@[0]);
    assert("hard"@[0] != "scaled"@[0]);
    assert("soft"@[1] != "scaled"@[1]);
}

/// Each priority is named by its own lower-case word.
pub proof fn lemma_priority_names()
    ensures
        priority_name(Priority::Hard) == "hard"@,
        priority_name(Priority::Soft) == "soft"@,
        priority_name(Priority::Scaled) == "scaled"@,
        priority_named("hard"@) == Some(Priority::Hard),
        priority_named("soft"@) == Some(Priority::Soft),
        priority_named("scaled"@) == Some(Priority::Scaled),
{
    lemma_priority_name_roundtrip(Priority::Hard);
    lemma_priority_name_roundtrip(Priority::Soft);
    lemma_priority_name_roundtrip(Priority::Scaled);
}

} // verus!
