//! The failures a solver reports.

use vstd::prelude::*;

verus! {

/// Why a solve was refused.
#[derive(Clone, Copy, Debug, PartialEq, Eq, Structural)]
pub enum SolveError {
    /// The matrix is not square where it has to be, or a vector's length
    /// does not match the matrix.
    DimensionMismatch,
    /// A pivot's magnitude fell below the threshold during factorization.
    SingularMatrix,
    /// There are more equations than unknowns.
    Overconstrained,
}

impl SolveError {
    /// The text of each failure.
    pub open spec fn text(self) -> Seq<char> {
        match self {
            SolveError::DimensionMismatch => "dimension mismatch"@,
            SolveError::SingularMatrix => "singular matrix"@,
            SolveError::Overconstrained => "overconstrained"@,
        }
    }

    /// A short description, for callers that report failures as text.
    pub fn message(&self) -> (s: &'static str)
        ensures
            s@ == self.text(),
    {
        match self {
            SolveError::DimensionMismatch => "dimension mismatch",
            SolveError::SingularMatrix => "singular matrix",
            SolveError::Overconstrained => "overconstrained",
        }
    }
}

} // verus!
