use vstd::prelude::*;
use crate::error::LinalgError;

verus! {

/// The lengths that dimension-dispatched vector operations accept.
#[derive(Debug, Clone, Copy, PartialEq, Eq, Structural)]
pub enum Dimension {
    Two,
    Three,
}

impl Dimension {
    /// The number of components of a vector of this dimension.
    pub open spec fn spec_len(self) -> nat {
        match self {
            Dimension::Two => 2,
            Dimension::Three => 3,
        }
    }

    /// Classifies a vector length; any length but 2 or 3 is refused.
    pub fn of_length(n: usize) -> (r: Result<Dimension, LinalgError>)
        ensures
            n == 2 ==> r == Ok::<Dimension, LinalgError>(Dimension::Two),
            n == 3 ==> r == Ok::<Dimension, LinalgError>(Dimension::Three),
            n != 2 && n != 3 ==> r == Err::<Dimension, LinalgError>(LinalgError::UnsupportedDimension(n)),
    {
        if n == 2 {
            Ok(Dimension::Two)
        } else if n == 3 {
            Ok(Dimension::Three)
        } else {
            Err(LinalgError::UnsupportedDimension(n))
        }
    }

    /// The number of components of a vector of this dimension.
    pub fn len(&self) -> (r: usize)
        ensures
            r == self.spec_len(),
    {
        match self {
            Dimension::Two => 2,
            Dimension::Three => 3,
        }
    }
}

/// One of the three Cartesian axes, naming a component of a 3D vector.
#[derive(Debug, Clone, Copy, PartialEq, Eq, Structural)]
pub enum Axis {
    X,
    Y,
    Z,
}

impl Axis {
    /// The position of this axis in `(x, y, z)` order.
    pub open spec fn spec_index(self) -> nat {
        match self {
            Axis::X => 0,
            Axis::Y => 1,
            Axis::Z => 2,
        }
    }

    /// The axis at position `i` of `(x, y, z)`; any `i` past 2 is refused.
    pub fn from_index(i: usize) -> (r: Result<Axis, LinalgError>)
        ensures
            i < 3 ==> (r matches Ok(a) && a.spec_index() == i),
            i >= 3 ==> r == Err::<Axis, LinalgError>(LinalgError::IndexOutOfRange(i)),
    {
        match i {
            0 => Ok(Axis::X),
            1 => Ok(Axis::Y),
            2 => Ok(Axis::Z),
            _ => Err(LinalgError::IndexOutOfRange(i)),
        }
    }

    /// The position of this axis in `(x, y, z)` order.
    pub fn index(&self) -> (r: usize)
        ensures
            r == self.spec_index(),
    {
        match self {
            Axis::X => 0,
            Axis::Y => 1,
            Axis::Z => 2,
        }
    }
}

} // verus!
