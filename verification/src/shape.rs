//! Which shapes a solver accepts, and which unknowns a rectangular
//! system leaves free.

use vstd::prelude::*;
use crate::error::SolveError;

verus! {

/// Accepts a square matrix and gives its dimension.
pub open spec fn square_dimension(rows: usize, cols: usize) -> Result<usize, SolveError> {
    if rows == cols {
        Ok(rows)
    } else {
        Err(SolveError::DimensionMismatch)
    }
}

/// Accepts a vector of the expected length.
pub open spec fn matching_length(expected: usize, actual: usize) -> Result<(), SolveError> {
    if expected == actual {
        Ok(())
    } else {
        Err(SolveError::DimensionMismatch)
    }
}

/// Accepts a square matrix with a right-hand side of its dimension.
pub open spec fn square_system(rows: usize, cols: usize, rhs_len: usize) -> Result<
    usize,
    SolveError,
> {
    if rows == cols && rhs_len == rows {
        Ok(rows)
    } else {
        Err(SolveError::DimensionMismatch)
    }
}

/// The dimension of a square matrix; any other shape is refused.
pub fn require_square(rows: usize, cols: usize) -> (r: Result<usize, SolveError>)
    ensures
        r == square_dimension(rows, cols),
{
    if rows == cols {
        Ok(rows)
    } else {
        Err(SolveError::DimensionMismatch)
    }
}

/// Refuses a vector whose length is not the expected one.
pub fn require_length(expected: usize, actual: usize) -> (r: Result<(), SolveError>)
    ensures
        r == matching_length(expected, actual),
{
    if expected == actual {
        Ok(())
    } else {
        Err(SolveError::DimensionMismatch)
    }
}

/// The dimension of a square system; a matrix that is not square, or a
/// right-hand side of another length, is refused.
pub fn require_square_system(rows: usize, cols: usize, rhs_len: usize) -> (r: Result<
    usize,
    SolveError,
>)
    ensures
        r == square_system(rows, cols, rhs_len),
{
    match require_square(rows, cols) {
        Ok(n) => match require_length(n, rhs_len) {
            Ok(()) => Ok(n),
            Err(e) => Err(e),
        },
        Err(e) => Err(e),
    }
}

/// How the unknowns of a system divide. The unknowns
/// `0 .. determined` follow from the equations; the unknowns
/// `determined .. determined + free` are free and get the fixed value
/// one before the back substitution.
#[derive(Clone, Copy, Debug, PartialEq, Eq, Structural)]
pub struct Unknowns {
    /// The number of unknowns that the equations settle.
    pub determined: usize,
    /// The number of unknowns beyond them.
    pub free: usize,
}

/// The shape rule of the triangular solve, for a factorized matrix of
/// `rows` by `cols`, a right-hand side of `rhs_len` entries and a
/// permutation of `order_len` rows.
///
/// A right-hand side or a permutation that does not match the rows is a
/// `DimensionMismatch`. Otherwise more rows than columns are
/// `Overconstrained`. Otherwise every row settles one unknown and the
/// `cols - rows` unknowns that remain are free.
pub open spec fn substitution_shape(
    rows: usize,
    cols: usize,
    rhs_len: usize,
    order_len: usize,
) -> Result<Unknowns, SolveError> {
    if rhs_len != rows || order_len != rows {
        Err(SolveError::DimensionMismatch)
    } else if rows > cols {
        Err(SolveError::Overconstrained)
    } else {
        Ok(Unknowns { determined: rows, free: (cols - rows) as usize })
    }
}

/// Decides whether a triangular solve can go ahead, and with which
/// unknowns free: see [`substitution_shape`].
pub fn plan_substitution(rows: usize, cols: usize, rhs_len: usize, order_len: usize) -> (r: Result<
    Unknowns,
    SolveError,
>)
    ensures
        r == substitution_shape(rows, cols, rhs_len, order_len),
{
    if rhs_len != rows || order_len != rows {
        Err(SolveError::DimensionMismatch)
    } else if rows > cols {
        Err(SolveError::Overconstrained)
    } else {
        Ok(Unknowns { determined: rows, free: cols - rows })
    }
}

/// Where the shapes match, the triangular solve is refused as
/// overconstrained exactly when there are more rows than columns, and
/// otherwise the determined and the free unknowns together are the
/// columns.
pub proof fn lemma_substitution_shape(rows: usize, cols: usize)
    ensures
        rows > cols <==> substitution_shape(rows, cols, rows, rows) == Err::<Unknowns, SolveError>(
            SolveError::Overconstrained,
        ),
        rows <= cols ==> ({
            let u = substitution_shape(rows, cols, rows, rows)->Ok_0;
            &&& substitution_shape(rows, cols, rows, rows) is Ok
            &&& u.determined == rows
            &&& u.determined + u.free == cols
        }),
{
}

} // verus!
