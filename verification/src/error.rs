//! Errors returned by model operations.
use vstd::prelude::*;

verus! {

/// Errors returned by model operations.
#[derive(Debug)]
pub enum Error {
    /// The URDF could not be parsed / the model could not be built.
    UrdfLoad(String),
    /// No frame with the requested name exists in the model.
    FrameNotFound(String),
    /// A supplied slice/vector had the wrong length for the operation.
    DimMismatch {
        /// What was being sized (e.g. `"configuration q"`).
        what: &'static str,
        /// Expected length.
        expected: usize,
        /// Actual length supplied.
        got: usize,
    },
    /// An exception raised by the rigid-body dynamics backend.
    Cxx(String),
}

/// Convenience result alias.
pub type Result<T> = core::result::Result<T, Error>;

} // verus!
