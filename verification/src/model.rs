//! Reference frames and index/dimension checks of the rigid-body model.
use vstd::prelude::*;

use crate::error::Error;

verus! {

/// Reference frame in which a frame Jacobian is expressed.
#[derive(Clone, Copy, Debug, PartialEq, Eq, Structural)]
pub enum ReferenceFrame {
    /// Expressed in the frame's own local coordinates.
    Local,
    /// Expressed in the world (universe) frame.
    World,
    /// Origin at the frame, axes aligned with the world frame.
    LocalWorldAligned,
}

impl ReferenceFrame {
    /// The code of the frame exchanged with the dynamics backend.
    pub open spec fn spec_code(self) -> u8 {
        match self {
            ReferenceFrame::Local => 0,
            ReferenceFrame::World => 1,
            ReferenceFrame::LocalWorldAligned => 2,
        }
    }

    /// The code of the frame exchanged with the dynamics backend
    /// (`0` local, `1` world, `2` local-world-aligned).
    pub fn code(self) -> (r: u8)
        ensures
            r == self.spec_code(),
    {
        match self {
            ReferenceFrame::Local => 0,
            ReferenceFrame::World => 1,
            ReferenceFrame::LocalWorldAligned => 2,
        }
    }
}

/// An index reported by the dynamics backend, where a negative value means "absent".
pub fn index_from_signed(raw: i64) -> (r: Option<usize>)
    ensures
        raw < 0 ==> r is None,
        raw >= 0 ==> r == Some(raw as usize),
{
    if raw < 0 {
        None
    } else {
        Some(raw as usize)
    }
}

/// Checks that a supplied vector has the length an operation expects.
pub fn check_dimension(what: &'static str, expected: usize, got: usize) -> (r: Result<(), Error>)
    ensures
        got == expected <==> r is Ok,
        got != expected ==> (r matches Err(Error::DimMismatch { what: w, expected: e, got: g })
            && w == what && e == expected && g == got),
{
    if got != expected {
        return Err(Error::DimMismatch { what, expected, got });
    }
    Ok(())
}

/// The three reference frames have the distinct codes `0` (local), `1` (world) and `2`
/// (local-world-aligned).
pub proof fn lemma_reference_frame_codes(f: ReferenceFrame, g: ReferenceFrame)
    ensures
        ReferenceFrame::Local.spec_code() == 0,
        ReferenceFrame::World.spec_code() == 1,
        ReferenceFrame::LocalWorldAligned.spec_code() == 2,
        f.spec_code() == g.spec_code() ==> f == g,
{
}

} // verus!
