use vstd::prelude::*;

verus! {

/// The ways the identicon pipeline can reject its input.
#[derive(Clone, Copy, Debug, PartialEq, Eq, Structural)]
pub enum IdenticonError {
    /// A two-character group of the hash string is not valid base-16.
    InvalidHashFormat,
    /// The requested grid side length or pixel width is zero.
    InvalidDimensions,
    /// The bit sequence is too short for the requested grid side length.
    InsufficientBitData,
}

} // verus!
