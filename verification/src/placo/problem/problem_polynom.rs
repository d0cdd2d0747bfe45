//! A polynomial whose coefficients are QP decision variables.
use vstd::prelude::*;

use super::variable::Variable;

verus! {

/// Wraps a [`Variable`] as the coefficient vector (highest degree first) of a
/// polynomial.
#[derive(Clone, Copy, Debug)]
pub struct ProblemPolynom {
    variable: Variable,
}

impl ProblemPolynom {
    /// The variable holding the coefficients.
    pub closed spec fn coefficients(&self) -> Variable {
        self.variable
    }

    /// Wraps `variable` as polynomial coefficients.
    pub fn new(variable: Variable) -> (r: ProblemPolynom)
        ensures
            r.coefficients() == variable,
    {
        ProblemPolynom { variable }
    }

    /// The variable holding the coefficients (highest degree first).
    pub fn variable(&self) -> (r: Variable)
        ensures
            r == self.coefficients(),
    {
        self.variable
    }
}

} // verus!
