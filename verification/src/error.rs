//! The failures the library reports; all are detected eagerly at
//! construction or parse time, never mid-carve.

use vstd::prelude::*;

verus! {

/// What went wrong while setting up a carve.
#[derive(Clone, Copy, Debug, PartialEq, Eq, Structural)]
pub enum CarveError {
    /// A source dimension exceeds the overflow-safe bound.
    DimensionTooLarge,
    /// A requested target dimension exceeds the corresponding source
    /// dimension; carving only removes, never adds.
    TargetLargerThanSource,
    /// A dimension string does not match the accepted grammar, or one of
    /// its numeric fields does not fit an unsigned 32-bit value.
    InvalidDimensionSpec,
}

impl CarveError {
    /// The text surfaced for this error.
    pub fn message(&self) -> (r: &'static str)
        ensures
            *self is DimensionTooLarge ==> r@ == "image dimension too large"@,
            *self is TargetLargerThanSource ==> r@ == "target dimension larger than source"@,
            *self is InvalidDimensionSpec ==> r@ == "invalid dimensions"@,
    {
        match self {
            CarveError::DimensionTooLarge => "image dimension too large",
            CarveError::TargetLargerThanSource => "target dimension larger than source",
            CarveError::InvalidDimensionSpec => "invalid dimensions",
        }
    }
}

} // verus!
