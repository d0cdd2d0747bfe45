//! Handles of the inverse-kinematics solver and its set of masked degrees of freedom.
use vstd::prelude::*;
use std::collections::BTreeSet;

verus! {

broadcast use vstd::std_specs::btree::group_btree_axioms;

/// Handle to a task added to the solver.
pub type TaskId = usize;

/// Handle to a constraint added to the solver.
pub type ConstraintId = usize;

/// Handles to the position + orientation tasks of a frame task.
#[derive(Clone, Copy, Debug)]
pub struct FrameTaskHandle {
    /// The position sub-task.
    pub position: TaskId,
    /// The orientation sub-task.
    pub orientation: TaskId,
}

/// The velocity degrees of freedom held fixed by the solver: individual DoFs, and
/// optionally the six DoFs of the floating base.
#[derive(Debug)]
pub struct DofMask {
    /// Masked velocity DoF indices (kept in ascending order by the set).
    pub masked_dof: BTreeSet<usize>,
    /// Whether the floating-base DoFs are masked.
    pub masked_fbase: bool,
}

/// The DoF indices `offset .. offset + size`.
pub open spec fn dof_range(offset: usize, size: usize) -> Set<usize> {
    Set::new(|d: usize| offset <= d < offset + size)
}

impl DofMask {
    /// Nothing masked.
    pub fn new() -> (r: DofMask)
        ensures
            r.masked_dof@ == Set::<usize>::empty(),
            !r.masked_fbase,
    {
        DofMask { masked_dof: BTreeSet::new(), masked_fbase: false }
    }

    /// Masks the `size` velocity DoFs of a joint starting at `offset`.
    pub fn mask_dof(&mut self, offset: usize, size: usize)
        requires
            size == 0 || offset + size - 1 <= usize::MAX,
        ensures
            final(self).masked_dof@ == old(self).masked_dof@.union(dof_range(offset, size)),
            final(self).masked_fbase == old(self).masked_fbase,
    {
        let ghost before = self.masked_dof@;
        for i in 0..size
            invariant
                size == 0 || offset + size - 1 <= usize::MAX,
                self.masked_dof@ == before.union(dof_range(offset, i)),
                self.masked_fbase == old(self).masked_fbase,
        {
            self.masked_dof.insert(offset + i);
            proof {
                assert(self.masked_dof@ =~= before.union(dof_range(offset, (i + 1) as usize)));
            }
        }
    }

    /// Unmasks the `size` velocity DoFs of a joint starting at `offset`.
    pub fn unmask_dof(&mut self, offset: usize, size: usize)
        requires
            size == 0 || offset + size - 1 <= usize::MAX,
        ensures
            final(self).masked_dof@ == old(self).masked_dof@.difference(dof_range(offset, size)),
            final(self).masked_fbase == old(self).masked_fbase,
    {
        let ghost before = self.masked_dof@;
        for i in 0..size
            invariant
                size == 0 || offset + size - 1 <= usize::MAX,
                self.masked_dof@ == before.difference(dof_range(offset, i)),
                self.masked_fbase == old(self).masked_fbase,
        {
            self.masked_dof.remove(&(offset + i));
            proof {
                assert(self.masked_dof@ =~= before.difference(
                    dof_range(offset, (i + 1) as usize),
                ));
            }
        }
    }

    /// Masks (or unmasks) the 6 floating-base DoFs.
    pub fn mask_fbase(&mut self, masked: bool)
        ensures
            final(self).masked_fbase == masked,
            final(self).masked_dof@ == old(self).masked_dof@,
    {
        self.masked_fbase = masked;
    }
}

/// Unmasking a joint's DoFs right after masking them leaves the other DoFs as they
/// were and none of the joint's DoFs masked.
pub proof fn lemma_mask_then_unmask(masked: Set<usize>, offset: usize, size: usize)
    ensures
        masked.union(dof_range(offset, size)).difference(dof_range(offset, size))
            == masked.difference(dof_range(offset, size)),
{
    assert(masked.union(dof_range(offset, size)).difference(dof_range(offset, size))
        =~= masked.difference(dof_range(offset, size)));
}

/// The DoFs of a joint at `offset` with `size` DoFs are exactly `offset`, ...,
/// `offset + size - 1`: `size` of them.
pub proof fn lemma_dof_range(offset: usize, size: usize, d: usize)
    requires
        size == 0 || offset + size - 1 <= usize::MAX,
    ensures
        dof_range(offset, size).contains(d) <==> offset <= d && d - offset < size,
        size > 0 ==> dof_range(offset, size).contains(offset),
        size > 0 ==> dof_range(offset, size).contains((offset + size - 1) as usize),
        !dof_range(offset, size).contains((offset + size) as usize) || offset + size > usize::MAX,
{
}

} // verus!
