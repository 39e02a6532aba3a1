use vstd::prelude::*;

verus! {

/// Failure of circuit construction or of constraint satisfaction.
///
/// `LayoutMismatch` and `PointAtInfinity` are construction-time faults:
/// the configuration or a fixed input is malformed and no constraints can
/// be laid down for it.  `ConstraintUnsatisfied` stands for an emitted
/// algebraic constraint that the supplied witness does not satisfy, and
/// `NotOnCurve` for coordinates that fail the curve equation.
#[derive(Clone, Copy, Debug, PartialEq, Eq, Structural)]
pub enum Error {
    /// The two RNS representations do not share one limb layout.
    LayoutMismatch,
    /// A fixed point or an operation result is the identity, which the
    /// affine encoding has no slot for.
    PointAtInfinity,
    /// An emitted constraint does not hold for the supplied witness.
    ConstraintUnsatisfied,
    /// An affine coordinate pair does not satisfy the curve equation.
    NotOnCurve,
    /// A limbed value is not a well-formed element of the representation.
    InvalidIntegerForm,
    /// An unreduced result would exceed the range the limb layout can carry.
    OverflowExceeded,
}

} // verus!
