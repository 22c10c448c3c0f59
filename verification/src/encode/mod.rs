//! Encoding of data points into a bit stream.

use vstd::prelude::*;

pub mod std_encoder;

verus! {

/// Why a data point was not encoded.
#[derive(Debug, PartialEq, Eq, Structural, Clone, Copy)]
pub enum Error {
    /// The first point of the stream lies before its start, or 2^14 seconds
    /// or more after it.
    FirstDeltaOutOfRange,
}

} // verus!
