use vstd::prelude::*;

verus! {

/// Why an operation of this library refused its input.
#[derive(Debug, Clone, Copy, PartialEq, Eq, Structural)]
pub enum LinalgError {
    /// A vector of a length other than 2 or 3 was handed to a dimension-dispatched operation.
    UnsupportedDimension(usize),
    /// An index outside `0..3` was used to address a component, row or column.
    IndexOutOfRange(usize),
    /// Two vectors that must have the same length do not.
    LengthMismatch(usize, usize),
    /// A table whose rows do not all have the same length.
    Ragged,
    /// Two tables whose shapes do not fit the operation.
    ShapeMismatch,
    /// A table that must be square is not.
    NotSquare,
    /// A table without rows, where the operation needs at least one.
    Empty,
    /// A square table of order below 2, which has no cofactor expansion.
    TooSmall,
}

} // verus!
