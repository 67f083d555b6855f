//! The errors of the library.

use vstd::prelude::*;

verus! {

/// Why an operation of the library produced no result.
#[derive(Clone, Copy, Debug, PartialEq, Eq, Structural)]
pub enum Error {
    /// The image holds no pixel to sample or to cluster.
    EmptyImage,
    /// A parameter is outside its domain: a cluster count of zero, a distance
    /// exponent of zero, a centroid without pixels, or an answer that names
    /// no mode or no number.
    InvalidParameter,
    /// Two inputs that must agree in size do not: the centroid set and the
    /// configured cluster count, or the image and its stated dimensions.
    DimensionMismatch,
}

impl Error {
    /// A short description for messages.
    pub fn describe(&self) -> (text: &'static str)
        ensures
            text@ == (match *self {
                Error::EmptyImage => "image contains no pixels"@,
                Error::InvalidParameter => "invalid parameter"@,
                Error::DimensionMismatch => "dimension mismatch"@,
            }),
    {
        match self {
            Error::EmptyImage => "image contains no pixels",
            Error::InvalidParameter => "invalid parameter",
            Error::DimensionMismatch => "dimension mismatch",
        }
    }
}

} // verus!
