//! Selection of task axes and of the frame they are expressed in.
use vstd::prelude::*;
use vstd::string::*;

use crate::text::same_text;

verus! {

/// Reference frame in which the axis masking is applied.
#[derive(Clone, Copy, Debug, PartialEq, Eq, Structural)]
pub enum MaskFrame {
    /// Use the (usually world) frame provided by the task.
    Task,
    /// Use the task's local frame.
    Local,
    /// Use a user-provided custom frame.
    Custom,
}

impl Default for MaskFrame {
    /// The task frame.
    fn default() -> (r: MaskFrame)
        ensures
            r == MaskFrame::Task,
    {
        MaskFrame::Task
    }
}

/// The mask frame with the given name (`"task"` or `"world"`, `"local"`, `"custom"`).
pub open spec fn mask_frame_named(name: Seq<char>) -> Option<MaskFrame> {
    if name == "task"@ || name == "world"@ {
        Some(MaskFrame::Task)
    } else if name == "local"@ {
        Some(MaskFrame::Local)
    } else if name == "custom"@ {
        Some(MaskFrame::Custom)
    } else {
        None
    }
}

/// Parses a mask frame name: `"task"` or `"world"`, `"local"`, `"custom"`.
pub fn mask_frame_from_name(name: &str) -> (r: MaskFrame)
    requires
        mask_frame_named(name@) is Some,
    ensures
        mask_frame_named(name@) == Some(r),
{
    if same_text(name, "task") || same_text(name, "world") {
        MaskFrame::Task
    } else if same_text(name, "local") {
        MaskFrame::Local
    } else {
        MaskFrame::Custom
    }
}

/// The row index selected by an axis letter (`x`, `y`, `z`, in either case).
pub open spec fn axis_index(c: char) -> Option<usize> {
    if c == 'x' || c == 'X' {
        Some(0)
    } else if c == 'y' || c == 'Y' {
        Some(1)
    } else if c == 'z' || c == 'Z' {
        Some(2)
    } else {
        None
    }
}

/// Every character of `axes` names an axis.
pub open spec fn valid_axes(axes: Seq<char>) -> bool {
    forall|i: int| 0 <= i < axes.len() ==> #[trigger] axis_index(axes[i]) is Some
}

/// The row indices (`0 = x`, `1 = y`, `2 = z`) kept by a mask such as `"xy"`, in the
/// order the letters appear.
pub fn axis_indices(axises: &str) -> (r: Vec<usize>)
    requires
        valid_axes(axises@),
    ensures
        r@.len() == axises@.len(),
        forall|i: int| 0 <= i < r@.len() ==> Some(#[trigger] r@[i]) == axis_index(axises@[i]),
        forall|i: int|
            0 <= i < r@.len() ==> (#[trigger] r@[i] == 0 <==> (axises@[i] == 'x' || axises@[i]
                == 'X')),
        forall|i: int|
            0 <= i < r@.len() ==> (#[trigger] r@[i] == 1 <==> (axises@[i] == 'y' || axises@[i]
                == 'Y')),
        forall|i: int|
            0 <= i < r@.len() ==> (#[trigger] r@[i] == 2 <==> (axises@[i] == 'z' || axises@[i]
                == 'Z')),
{
    let n = axises.unicode_len();
    let mut indices: Vec<usize> = Vec::new();
    for i in 0..n
        invariant
            n == axises@.len(),
            valid_axes(axises@),
            indices@.len() == i,
            forall|k: int| 0 <= k < i ==> Some(#[trigger] indices@[k]) == axis_index(axises@[k]),
    {
        let c = axises.get_char(i);
        assert(axis_index(axises@[i as int]) is Some);
        if c == 'x' || c == 'X' {
            indices.push(0);
        } else if c == 'y' || c == 'Y' {
            indices.push(1);
        } else {
            indices.push(2);
        }
    }
    indices
}

/// An axis letter selects the same row whatever its case: `x` the first row, `y` the
/// second, `z` the third; no other character names an axis, and every row is one of the
/// three.
pub proof fn lemma_axis_letters(c: char)
    ensures
        axis_index('x') == Some(0usize) && axis_index('X') == Some(0usize),
        axis_index('y') == Some(1usize) && axis_index('Y') == Some(1usize),
        axis_index('z') == Some(2usize) && axis_index('Z') == Some(2usize),
        axis_index(c) is Some <==> (c == 'x' || c == 'X' || c == 'y' || c == 'Y' || c == 'z'
            || c == 'Z'),
        axis_index(c) matches Some(r) ==> r <= 2,
{
}

/// `"task"` and `"world"` both name the task frame; `"local"` and `"custom"` name the
/// local and custom frames.
pub proof fn lemma_mask_frame_names()
    ensures
        mask_frame_named("task"@) == Some(MaskFrame::Task),
        mask_frame_named("world"@) == Some(MaskFrame::Task),
        mask_frame_named("local"@) == Some(MaskFrame::Local),
        mask_frame_named("custom"@) == Some(MaskFrame::Custom),
{
    reveal_strlit("task");
    reveal_strlit("world");
    reveal_strlit("local");
    reveal_strlit("custom");
    assert("local"@[0] != "task"@[0] && "local"@[0] != "world"@[0]);
    assert("custom"@[0] != "task"@[0] && "custom"@[0] != "world"@[0] && "custom"@[0]
        != "local"@[0]);
}

} // verus!
