//! Support side of a humanoid.
use vstd::prelude::*;

use crate::text::same_text;

verus! {

/// Which foot is (or feet are) on the ground.
#[derive(Clone, Copy, Debug, PartialEq, Eq, Structural)]
pub enum Side {
    /// Left foot.
    Left,
    /// Right foot.
    Right,
    /// Double support (both feet).
    Both,
}

/// The lower-case name of a side.
pub open spec fn side_name(s: Side) -> Seq<char> {
    match s {
        Side::Left => "left"@,
        Side::Right => "right"@,
        Side::Both => "both"@,
    }
}

/// The side with the given name, if any.
pub open spec fn side_named(name: Seq<char>) -> Option<Side> {
    if name == "left"@ {
        Some(Side::Left)
    } else if name == "right"@ {
        Some(Side::Right)
    } else if name == "both"@ {
        Some(Side::Both)
    } else {
        None
    }
}

impl Side {
    /// The side opposite to `self`: left and right swap, `Both` stays.
    pub open spec fn spec_other(self) -> Side {
        match self {
            Side::Left => Side::Right,
            Side::Right => Side::Left,
            Side::Both => Side::Both,
        }
    }

    /// The opposite of `Left`/`Right` (`Both` maps to itself).
    pub fn other(self) -> (r: Side)
        ensures
            r == self.spec_other(),
    {
        match self {
            Side::Left => Side::Right,
            Side::Right => Side::Left,
            Side::Both => Side::Both,
        }
    }

    /// Parses `"left"`, `"right"` or `"both"`.
    pub fn from_name(name: &str) -> (r: Side)
        requires
            side_named(name@) is Some,
        ensures
            side_named(name@) == Some(r),
    {
        if same_text(name, "left") {
            Side::Left
        } else if same_text(name, "right") {
            Side::Right
        } else {
            proof {
                reveal_strlit("both");
            }
            Side::Both
        }
    }

    /// The lower-case name.
    pub fn name(self) -> (r: &'static str)
        ensures
            r@ == side_name(self),
    {
        match self {
            Side::Left => "left",
            Side::Right => "right",
            Side::Both => "both",
        }
    }
}

/// Taking the opposite side twice gives back the side.
pub proof fn lemma_other_involution(s: Side)
    ensures
        s.spec_other().spec_other() == s,
{
}

/// A side's name parses back to that side.
pub proof fn lemma_name_roundtrip(s: Side)
    ensures
        side_named(side_name(s)) == Some(s),
{
    reveal_strlit("left");
    reveal_strlit("right");
    reveal_strlit("both");
    assert("left"@[0] != "right"@[0]);
    assert("left"@[0] != "both"@[0]);
    assert("right"@[0] != "both"@[0]);
}

/// Left and right are each other's opposite, and double support is its own: a single
/// foot never maps to itself.
pub proof fn lemma_other_swaps_feet(s: Side)
    ensures
        Side::Left.spec_other() == Side::Right,
        Side::Right.spec_other() == Side::Left,
        Side::Both.spec_other() == Side::Both,
        s != Side::Both ==> s.spec_other() != s && s.spec_other() != Side::Both,
{
}

/// Each side is named by its own lower-case word, and the three names differ.
pub proof fn lemma_side_names()
    ensures
        side_name(Side::Left) == "left"@,
        side_name(Side::Right) == "right"@,
        side_name(Side::Both) == "both"@,
        side_named("left"@) == Some(Side::Left),
        side_named("right"@) == Some(Side::Right),
        side_named("both"@) == Some(Side::Both),
{
    lemma_name_roundtrip(Side::Left);
    lemma_name_roundtrip(Side::Right);
    lemma_name_roundtrip(Side::Both);
}

} // verus!
