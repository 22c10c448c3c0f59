//! Decoding of a bit stream into data points.

use vstd::prelude::*;

pub mod std_decoder;

verus! {

/// Why a decoder delivered no data point.
#[derive(Debug, PartialEq, Eq, Structural, Clone, Copy)]
pub enum Error {
    /// The stream has ended. This is the regular end, not a failure.
    EndOfStream,
    /// The stream is too short to hold its initial timestamp.
    InvalidInitialTimestamp,
    /// The stream announced its end without the bits that mark it.
    InvalidEndOfStream,
    /// The reader failed.
    Stream(crate::stream::Error),
}

} // verus!
