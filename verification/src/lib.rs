//! Streaming compression of time series in the manner of Facebook's Gorilla
//! database: timestamps are stored as variable-length deltas of deltas, values
//! as the XOR against a predicted value.
//!
//! A stream of [`DataPoint`]s goes through a [`StdEncoder`] into bytes and comes
//! back out of a [`StdDecoder`].

use vstd::prelude::*;

pub mod stream;
pub mod predictor;
pub mod format;
pub mod roundtrip;
pub mod encode;
pub mod decode;

pub use self::predictor::Predictor;
pub use self::predictor::{SimplePredictor, FcmPredictor, DfcmPredictor};
pub use self::encode::std_encoder::StdEncoder;
pub use self::decode::std_decoder::StdDecoder;

verus! {

/// A single bit, either `Zero` or `One`.
#[derive(Debug, PartialEq, Eq, Structural, Clone, Copy)]
pub enum Bit {
    Zero,
    One,
}

impl Bit {
    /// Whether the bit is set.
    pub open spec fn is_one(self) -> bool {
        self == Bit::One
    }

    /// The bit as an integer: `Zero` is 0 and `One` is 1.
    pub fn to_u64(self) -> (n: u64)
        ensures
            n == (if self.is_one() { 1u64 } else { 0u64 }),
    {
        match self {
            Bit::Zero => 0,
            Bit::One => 1,
        }
    }
}

/// A point of a time series: a time in seconds and the 64 bits of a value.
#[derive(Debug, PartialEq, Eq, Structural, Clone, Copy)]
pub struct DataPoint {
    pub time: u64,
    pub value: i64,
}

impl DataPoint {
    /// A data point with the given time and value.
    pub fn new(time: u64, value: i64) -> (dp: DataPoint)
        ensures
            dp.time == time,
            dp.value == value,
    {
        DataPoint { time, value }
    }
}

} // verus!
