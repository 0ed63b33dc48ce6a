//! The errors the library reports.
//!
//! Every error is a caller or input fault detected synchronously; a
//! verification that merely fails returns `false`, never an error.
use vstd::prelude::*;

verus! {

/// Why a commitment, opening or interpolation call rejected its input.
#[derive(Clone, Copy, Debug, PartialEq, Eq, Structural)]
pub enum Error {
    /// A vector or matrix size contract was violated.
    DimensionMismatch,
    /// The polynomial's degree exceeds the bound the CRS was built for.
    DegreeExceeded,
    /// A claimed evaluation does not match the polynomial, detected by a
    /// nonzero division remainder.
    InconsistentEvaluation,
    /// A batch opening was asked for an empty set of query points.
    EmptyQuerySet,
    /// A batch opening was asked for a repeated query point.
    DuplicateQueryPoint,
    /// An interpolation or division ran into coincident points and would
    /// have inverted zero.
    FieldInversionOfZero,
}

} // verus!
