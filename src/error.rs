use vstd::prelude::*;

verus! {

/// Why an operation refused its input. A failed operation leaves every
/// value it was given as it was.
#[derive(Debug, Clone, Copy, PartialEq, Eq, Structural)]
pub enum MathError {
    /// The shapes of the operands do not fit the operation.
    DimensionMismatch,
    /// A row, column or element index is not below the current count.
    IndexOutOfBounds,
    /// A `[lo, hi]` pair is inverted, or reaches past the matrix.
    InvalidRange,
    /// The operation is defined on square matrices only.
    NotSquare,
    /// The rows of a literal table differ in length.
    ShapeError,
}

} // verus!
