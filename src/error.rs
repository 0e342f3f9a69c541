use vstd::prelude::*;

verus! {

/// The ways an operation on the graph can fail.
#[derive(Debug, Clone, Copy, PartialEq, Eq, Structural)]
pub enum AutogradError {
    /// A divisor holds an element that is exactly zero.
    DivisionByZero,
    /// Two arrays cannot be broadcast together, or a reduction names an axis the input lacks.
    ShapeError,
    /// A scalar was compared against an array.
    TypeMismatchError,
}

} // verus!
