//! The wire format, as functions from values to bits and from bits to values.
//!
//! ```text
//! header        : 64 bits            initial timestamp (seconds)
//! first record  : "0" | delta[14] | value[64]
//! record        : timestamp code | value frame
//! end of stream : "1111" | 32 zero bits
//! ```
//!
//! A timestamp code is one of `0`, `10`+7, `110`+9, `1110`+12, `1111`+32 bits
//! and carries the delta of deltas. A value frame is `0`, or `10` and the
//! significant bits of the XOR with the prediction, or `11`, six bits for the
//! number of leading zeros, and the significant bits.

use vstd::prelude::*;
use vstd::std_specs::bits::u64_leading_zeros;
use crate::DataPoint;
use crate::predictor::Predictor;
use crate::stream::{bits_of, value_of};
use crate::stream;
use crate::decode::Error;

verus! {

/// The bits that end a stream: the prefix of the widest timestamp code with a
/// payload of 0, which no timestamp has, since a delta of deltas of 0 takes the
/// one-bit code.
pub const END_MARKER: u64 = 0xF_0000_0000;

/// The length of [`END_MARKER`] in bits.
pub const END_MARKER_LEN: u32 = 36;

/// The width of the first delta in bits.
pub const FIRST_DELTA_LEN: u32 = 14;

/// The number of leading zeros that no XOR window has: the window of a stream
/// before the first one is opened.
pub const NO_WINDOW: u32 = 64;

/// What encoder and decoder know after a record, and have to agree on.
pub struct State<M> {
    /// The time of the last point, or the start of the stream.
    pub time: u64,
    /// The last difference between two times.
    pub delta: u64,
    /// The number of leading zeros of the current XOR window.
    pub leading_zeros: u32,
    /// Whether the next point is the first of the stream.
    pub first: bool,
    /// The state of the predictor.
    pub predictor: M,
}

/// The 64 bits of a value.
pub open spec fn value_bits(value: i64) -> u64 {
    value as u64
}

/// The value with the given 64 bits.
pub open spec fn value_from_bits(bits: u64) -> i64 {
    bits as i64
}

/// The delta of deltas: the change from one difference of times to the next,
/// cut to 32 bits.
pub open spec fn dod_of(prev_delta: u64, delta: u64) -> i32 {
    delta.wrapping_sub(prev_delta) as i32
}

/// A delta of deltas as 64 bits in two's complement.
pub open spec fn payload_of(dod: i32) -> u64 {
    dod as u64
}

/// The code of a delta of deltas: a prefix that tells the width of the
/// payload, and the low bits of the delta of deltas in that width.
pub open spec fn dod_code(dod: i32) -> Seq<bool> {
    if dod == 0 {
        seq![false]
    } else if -63 <= dod <= 64 {
        seq![true, false] + bits_of(payload_of(dod), 7)
    } else if -255 <= dod <= 256 {
        seq![true, true, false] + bits_of(payload_of(dod), 9)
    } else if -2047 <= dod <= 2048 {
        seq![true, true, true, false] + bits_of(payload_of(dod), 12)
    } else {
        seq![true, true, true, true] + bits_of(payload_of(dod), 32)
    }
}

/// The prefixes of the timestamp codes are the bits of the numbers 0b10,
/// 0b110, 0b1110 and 0b1111.
pub proof fn lemma_prefixes()
    ensures
        bits_of(0b10, 2) == seq![true, false],
        bits_of(0b110, 3) == seq![true, true, false],
        bits_of(0b1110, 4) == seq![true, true, true, false],
        bits_of(0b1111, 4) == seq![true, true, true, true],
{
    assert({
        &&& (2u64 >> 1u64) & 1 == 1
        &&& (2u64 >> 0u64) & 1 == 0
        &&& (6u64 >> 2u64) & 1 == 1
        &&& (6u64 >> 1u64) & 1 == 1
        &&& (6u64 >> 0u64) & 1 == 0
    }) by (bit_vector);
    assert({
        &&& (14u64 >> 3u64) & 1 == 1
        &&& (14u64 >> 2u64) & 1 == 1
        &&& (14u64 >> 1u64) & 1 == 1
        &&& (14u64 >> 0u64) & 1 == 0
        &&& (15u64 >> 3u64) & 1 == 1
        &&& (15u64 >> 2u64) & 1 == 1
        &&& (15u64 >> 1u64) & 1 == 1
        &&& (15u64 >> 0u64) & 1 == 1
    }) by (bit_vector);
    assert(bits_of(0b10, 2) =~= seq![true, false]);
    assert(bits_of(0b110, 3) =~= seq![true, true, false]);
    assert(bits_of(0b1110, 4) =~= seq![true, true, true, false]);
    assert(bits_of(0b1111, 4) =~= seq![true, true, true, true]);
}


/// The number of leading zero bits of `xor`.
pub open spec fn leading_zeros(xor: u64) -> u32 {
    u64_leading_zeros(xor) as u32
}

/// The frame of a value whose XOR with the prediction is `xor`, in a stream
/// whose current window has `window` leading zeros.
pub open spec fn value_frame(xor: u64, window: u32) -> Seq<bool> {
    let lz = leading_zeros(xor);
    if xor == 0 {
        seq![false]
    } else if lz == window {
        seq![true, false] + bits_of(xor, (64 - lz) as nat)
    } else {
        seq![true, true] + bits_of(lz as u64, 6) + bits_of(xor, (64 - lz) as nat)
    }
}

/// The window after that frame.
pub open spec fn window_after(xor: u64, window: u32) -> u32 {
    if xor == 0 {
        window
    } else {
        leading_zeros(xor)
    }
}

/// Whether `dp` can be encoded in state `s`: the first point of a stream must
/// lie less than 2^14 seconds after its start, and not before it.
pub open spec fn accepts<M>(s: State<M>, dp: DataPoint) -> bool {
    s.first ==> s.time <= dp.time && dp.time - s.time < 0x4000
}

/// The bits of the record that stores `dp` in state `s`.
pub open spec fn record<P: Predictor>(s: State<P::Model>, dp: DataPoint) -> Seq<bool> {
    if s.first {
        seq![false] + bits_of((dp.time - s.time) as u64, 14) + bits_of(value_bits(dp.value), 64)
    } else {
        dod_code(dod_of(s.delta, dp.time.wrapping_sub(s.time))) + value_frame(
            value_bits(dp.value) ^ P::predict_spec(s.predictor),
            s.leading_zeros,
        )
    }
}

/// The state after the record that stores `dp` in state `s`.
pub open spec fn after_record<P: Predictor>(s: State<P::Model>, dp: DataPoint) -> State<
    P::Model,
> {
    State {
        time: dp.time,
        delta: dp.time.wrapping_sub(s.time),
        leading_zeros: if s.first {
            s.leading_zeros
        } else {
            window_after(value_bits(dp.value) ^ P::predict_spec(s.predictor), s.leading_zeros)
        },
        first: false,
        predictor: P::update_spec(s.predictor, value_bits(dp.value)),
    }
}

/// The delta of deltas that a payload of `w` bits stands for, `w` below 64, as
/// a number of 64 bits in two's complement. A payload above 2^(w-1) stands
/// for a negative number; 2^(w-1) itself stands for the highest value of its
/// bucket, so that a bucket of width 7 holds -63 to 64.
pub open spec fn sign_extend(payload: u64, w: u32) -> u64 {
    if payload > (1u64 << ((w - 1) as u32)) {
        payload | (u64::MAX << w)
    } else {
        payload
    }
}

/// The number of one bits in front of a timestamp code, at most four, counted
/// on from `k` ones; `None` where the stream ends before the code's prefix does.
pub open spec fn control_bits(bits: Seq<bool>, k: nat) -> Option<nat>
    decreases 4 - k,
{
    if k >= 4 {
        Some(4)
    } else if bits.len() <= k {
        None
    } else if !bits[k as int] {
        Some(k)
    } else {
        control_bits(bits, k + 1)
    }
}

/// The width of the payload that follows a prefix of one, two or three ones.
pub open spec fn payload_width(control: nat) -> u32 {
    if control == 1 {
        7
    } else if control == 2 {
        9
    } else {
        12
    }
}

/// What a decoder that has run out of bits reports.
pub open spec fn out_of_bits() -> Error {
    Error::Stream(stream::Error::Eof)
}

/// Reads a timestamp code from `bits`, after a point at `time` that came
/// `delta` after its predecessor: the new time, the new delta and the bits that
/// are left, or the end of the stream, or a failure.
pub open spec fn parse_timestamp(time: u64, delta: u64, bits: Seq<bool>) -> Result<
    (u64, u64, Seq<bool>),
    Error,
> {
    match control_bits(bits, 0) {
        None => Err(out_of_bits()),
        Some(c) => {
            if c == 0 {
                Ok((time.wrapping_add(delta), delta, bits.skip(1)))
            } else if c == 4 {
                let rest = bits.skip(4);
                let dod = value_of(rest.take(32));
                let d = delta.wrapping_add(dod);
                if rest.len() < 32 {
                    Err(out_of_bits())
                } else if dod == 0 {
                    Err(Error::EndOfStream)
                } else {
                    Ok((time.wrapping_add(d), d, rest.skip(32)))
                }
            } else {
                let w = payload_width(c);
                let rest = bits.skip(c as int + 1);
                let dod = sign_extend(value_of(rest.take(w as int)), w);
                let d = delta.wrapping_add(dod);
                if rest.len() < w {
                    Err(out_of_bits())
                } else {
                    Ok((time.wrapping_add(d), d, rest.skip(w as int)))
                }
            }
        },
    }
}

/// Reads a value frame from `bits`, given the prediction and the current
/// window: the bits of the value, the window after it and the bits that are
/// left, or a failure.
pub open spec fn parse_value(predicted: u64, window: u32, bits: Seq<bool>) -> Result<
    (u64, u32, Seq<bool>),
    Error,
> {
    if bits.len() < 1 {
        Err(out_of_bits())
    } else if !bits[0] {
        Ok((predicted, window, bits.skip(1)))
    } else if bits.len() < 2 {
        Err(out_of_bits())
    } else if bits[1] && bits.len() < 8 {
        Err(out_of_bits())
    } else {
        let lz = if bits[1] { value_of(bits.skip(2).take(6)) as u32 } else { window };
        let rest = if bits[1] { bits.skip(8) } else { bits.skip(2) };
        let n = (64 - lz) as nat;
        if rest.len() < n {
            Err(out_of_bits())
        } else {
            Ok((predicted ^ value_of(rest.take(n as int)), lz, rest.skip(n as int)))
        }
    }
}

/// Reads the header and the time of the first point from `bits`: the time,
/// the delta and the bits that are left, or the end of the stream, or a
/// failure.
pub open spec fn parse_first_timestamp(bits: Seq<bool>) -> Result<(u64, u64, Seq<bool>), Error> {
    let start = value_of(bits.take(64));
    let rest = bits.skip(64);
    let delta = value_of(rest.skip(1).take(14));
    if bits.len() < 64 {
        Err(Error::InvalidInitialTimestamp)
    } else if rest.len() < 1 {
        Err(out_of_bits())
    } else if rest[0] {
        if rest.len() < 36 {
            Err(out_of_bits())
        } else if value_of(rest.take(36)) == END_MARKER {
            Err(Error::EndOfStream)
        } else {
            Err(Error::InvalidEndOfStream)
        }
    } else if rest.len() < 15 {
        Err(out_of_bits())
    } else {
        Ok((start.wrapping_add(delta), delta, rest.skip(15)))
    }
}

/// How many bits a decoder has taken when reading a timestamp code fails, or
/// ends at the end marker: the whole code where it is there, else its prefix.
pub open spec fn timestamp_failure_taken(bits: Seq<bool>) -> int {
    match control_bits(bits, 0) {
        None => bits.len() as int,
        Some(c) => if c < 4 {
            c as int + 1
        } else if bits.len() < 36 {
            4
        } else {
            36
        },
    }
}

/// How many bits a decoder has taken when reading the header and the time
/// of the first point fails, or ends at the end marker.
pub open spec fn first_timestamp_failure_taken(bits: Seq<bool>) -> int {
    if bits.len() < 64 {
        0
    } else if bits.len() == 64 {
        64
    } else if bits[64] {
        if bits.len() < 100 {
            64
        } else {
            100
        }
    } else {
        65
    }
}

/// How many bits a decoder has taken when reading a value frame fails.
pub open spec fn value_failure_taken(bits: Seq<bool>) -> int {
    if bits.len() < 1 {
        0
    } else if bits.len() < 2 {
        1
    } else if bits[1] && bits.len() >= 8 {
        8
    } else {
        2
    }
}

/// The window of a decoder after reading a value frame has failed: a new
/// window that was read in full stays.
pub open spec fn value_failure_window(window: u32, bits: Seq<bool>) -> u32 {
    if bits.len() >= 8 && bits[0] && bits[1] {
        value_of(bits.skip(2).take(6)) as u32
    } else {
        window
    }
}

/// Reads the 64 bits of the first value.
pub open spec fn parse_first_value(bits: Seq<bool>) -> Result<(u64, Seq<bool>), Error> {
    if bits.len() < 64 {
        Err(out_of_bits())
    } else {
        Ok((value_of(bits.take(64)), bits.skip(64)))
    }
}

/// One step of a decoder.
pub struct Step<M> {
    /// The point that was read.
    pub point: DataPoint,
    /// The state after it.
    pub state: State<M>,
    /// The bits that are left.
    pub rest: Seq<bool>,
}

/// Reads the next record from `bits` in state `s`; in the first state, the
/// header before it. Gives the point with the state after it and the bits that
/// are left, or the end of the stream, or a failure.
pub open spec fn parse<P: Predictor>(s: State<P::Model>, bits: Seq<bool>) -> Result<
    Step<P::Model>,
    Error,
> {
    if s.first {
        match parse_first_timestamp(bits) {
            Err(e) => Err(e),
            Ok((time, delta, rest)) => match parse_first_value(rest) {
                Err(e) => Err(e),
                Ok((v, rest2)) => Ok(
                    Step {
                        point: DataPoint { time, value: value_from_bits(v) },
                        state: State {
                            time,
                            delta,
                            leading_zeros: s.leading_zeros,
                            first: false,
                            predictor: P::update_spec(s.predictor, v),
                        },
                        rest: rest2,
                    },
                ),
            },
        }
    } else {
        match parse_timestamp(s.time, s.delta, bits) {
            Err(e) => Err(e),
            Ok((time, delta, rest)) => match parse_value(
                P::predict_spec(s.predictor),
                s.leading_zeros,
                rest,
            ) {
                Err(e) => Err(e),
                Ok((v, lz, rest2)) => Ok(
                    Step {
                        point: DataPoint { time, value: value_from_bits(v) },
                        state: State {
                            time,
                            delta,
                            leading_zeros: lz,
                            first: false,
                            predictor: P::update_spec(s.predictor, v),
                        },
                        rest: rest2,
                    },
                ),
            },
        }
    }
}

/// What a step that delivers no point leaves behind: the state, and the
/// bits not yet read. What was read in full before the step failed has
/// taken effect: the header, a timestamp, a new window.
pub open spec fn after_failure<P: Predictor>(s: State<P::Model>, bits: Seq<bool>) -> (
    State<P::Model>,
    Seq<bool>,
) {
    if s.first {
        match parse_first_timestamp(bits) {
            Err(e) => (
                State {
                    time: if bits.len() < 64 {
                        s.time
                    } else {
                        value_of(bits.take(64))
                    },
                    ..s
                },
                bits.skip(first_timestamp_failure_taken(bits)),
            ),
            Ok((time, delta, rest)) => (State { time, delta, ..s }, rest),
        }
    } else {
        match parse_timestamp(s.time, s.delta, bits) {
            Err(e) => (s, bits.skip(timestamp_failure_taken(bits))),
            Ok((time, delta, rest)) => (
                State {
                    time,
                    delta,
                    leading_zeros: value_failure_window(s.leading_zeros, rest),
                    ..s
                },
                rest.skip(value_failure_taken(rest)),
            ),
        }
    }
}

} // verus!
