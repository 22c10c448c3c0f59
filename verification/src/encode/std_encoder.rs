//! The encoder: it writes the header when it is made, a record for each data
//! point, and the end marker when it is closed.

use vstd::prelude::*;
use crate::{Bit, DataPoint};
use crate::encode::Error;
use crate::format::{
    accepts, after_record, dod_code, dod_of, lemma_prefixes, record, value_frame, window_after,
    State, FIRST_DELTA_LEN, NO_WINDOW,
};
use crate::predictor::Predictor;
use crate::stream::{bits_of, padding, unpack, zeros, Write};

pub use crate::format::{END_MARKER, END_MARKER_LEN};

verus! {

/// Encodes data points into a bit stream.
#[derive(Debug)]
pub struct StdEncoder<T: Write, P: Predictor> {
    /// The time of the last point, or the start of the stream.
    time: u64,
    /// The last difference between two times.
    delta: u64,
    predictor: P,
    /// The number of leading zeros of the current XOR window.
    leading_zeros: u32,
    /// Whether the next point is the first of the stream.
    first: bool,
    w: T,
}

impl<T: Write, P: Predictor> StdEncoder<T, P> {
    /// The representation invariant.
    pub closed spec fn inv(&self) -> bool {
        &&& self.w.inv()
        &&& self.predictor.inv()
        &&& self.leading_zeros <= 64
    }

    /// What the encoder remembers of the points it has seen.
    pub closed spec fn state(&self) -> State<P::Model> {
        State {
            time: self.time,
            delta: self.delta,
            leading_zeros: self.leading_zeros,
            first: self.first,
            predictor: self.predictor.model(),
        }
    }

    /// The bits written so far.
    pub closed spec fn bits(&self) -> Seq<bool> {
        self.w.bits()
    }

    /// An encoder for a stream that starts at time `start`. The start goes to
    /// `w` at once, as the 64 bits of the header.
    pub fn new(start: u64, w: T, p: P) -> (e: Self)
        requires
            w.inv(),
            p.inv(),
        ensures
            e.inv(),
            e.bits() == w.bits() + bits_of(start, 64),
            e.state() == (State {
                time: start,
                delta: 0,
                leading_zeros: NO_WINDOW,
                first: true,
                predictor: p.model(),
            }),
    {
        let mut e = StdEncoder {
            time: start,
            delta: 0,
            predictor: p,
            leading_zeros: NO_WINDOW,
            first: true,
            w,
        };
        e.w.write_bits(start, 64);
        e
    }

    fn write_first(&mut self, time: u64, value_bits: u64)
        requires
            old(self).inv(),
            old(self).time <= time,
            time - old(self).time < 0x4000,
        ensures
            final(self).inv(),
            final(self).bits() == old(self).bits() + (seq![false] + bits_of(
                (time - old(self).time) as u64,
                14,
            ) + bits_of(value_bits, 64)),
            final(self).state() == (State {
                time,
                delta: (time - old(self).time) as u64,
                leading_zeros: old(self).leading_zeros,
                first: false,
                predictor: P::update_spec(old(self).predictor.model(), value_bits),
            }),
    {
        self.delta = time - self.time;
        self.time = time;
        self.predictor.update(value_bits);
        self.w.write_bit(Bit::Zero);
        self.w.write_bits(self.delta, FIRST_DELTA_LEN);
        self.w.write_bits(value_bits, 64);
        self.first = false;
        assert(self.bits() =~= old(self).bits() + (seq![false] + bits_of(self.delta, 14)
            + bits_of(value_bits, 64)));
    }

    fn write_next_timestamp(&mut self, time: u64)
        requires
            old(self).inv(),
        ensures
            final(self).inv(),
            final(self).bits() == old(self).bits() + dod_code(
                dod_of(old(self).delta, time.wrapping_sub(old(self).time)),
            ),
            final(self).time == time,
            final(self).delta == time.wrapping_sub(old(self).time),
            final(self).leading_zeros == old(self).leading_zeros,
            final(self).first == old(self).first,
            final(self).predictor == old(self).predictor,
    {
        let delta = time.wrapping_sub(self.time);
        let dod: i32 = #[verifier::truncate] (delta.wrapping_sub(self.delta) as i32);
        let payload: u64 = #[verifier::truncate] (dod as u64);
        proof {
            lemma_prefixes();
        }
        if dod == 0 {
            self.w.write_bit(Bit::Zero);
            assert(self.bits() =~= old(self).bits() + seq![false]);
        } else if -63 <= dod && dod <= 64 {
            self.w.write_bits(0b10, 2);
            self.w.write_bits(payload, 7);
            assert(self.bits() =~= old(self).bits() + (bits_of(0b10, 2) + bits_of(payload, 7)));
        } else if -255 <= dod && dod <= 256 {
            self.w.write_bits(0b110, 3);
            self.w.write_bits(payload, 9);
            assert(self.bits() =~= old(self).bits() + (bits_of(0b110, 3) + bits_of(payload, 9)));
        } else if -2047 <= dod && dod <= 2048 {
            self.w.write_bits(0b1110, 4);
            self.w.write_bits(payload, 12);
            assert(self.bits() =~= old(self).bits() + (bits_of(0b1110, 4) + bits_of(
                payload,
                12,
            )));
        } else {
            self.w.write_bits(0b1111, 4);
            self.w.write_bits(payload, 32);
            assert(self.bits() =~= old(self).bits() + (bits_of(0b1111, 4) + bits_of(
                payload,
                32,
            )));
        }
        self.delta = delta;
        self.time = time;
    }

    fn write_next_value(&mut self, value_bits: u64)
        requires
            old(self).inv(),
        ensures
            final(self).inv(),
            final(self).bits() == old(self).bits() + value_frame(
                value_bits ^ P::predict_spec(old(self).predictor.model()),
                old(self).leading_zeros,
            ),
            final(self).leading_zeros == window_after(
                value_bits ^ P::predict_spec(old(self).predictor.model()),
                old(self).leading_zeros,
            ),
            final(self).predictor.model() == P::update_spec(
                old(self).predictor.model(),
                value_bits,
            ),
            final(self).time == old(self).time,
            final(self).delta == old(self).delta,
            final(self).first == old(self).first,
    {
        let predicted = self.predictor.predict_next();
        let xor = value_bits ^ predicted;
        self.predictor.update(value_bits);
        if xor == 0 {
            self.w.write_bit(Bit::Zero);
            assert(self.bits() =~= old(self).bits() + seq![false]);
        } else {
            self.w.write_bit(Bit::One);
            let lz: u32 = xor.leading_zeros();
            proof {
                vstd::std_specs::bits::axiom_u64_leading_zeros(xor);
            }
            if lz == self.leading_zeros {
                self.w.write_bit(Bit::Zero);
                self.w.write_bits(xor, 64 - lz);
                assert(self.bits() =~= old(self).bits() + (seq![true, false] + bits_of(
                    xor,
                    (64 - lz) as nat,
                )));
            } else {
                self.w.write_bit(Bit::One);
                self.w.write_bits(lz as u64, 6);
                self.w.write_bits(xor, 64 - lz);
                self.leading_zeros = lz;
                assert(self.bits() =~= old(self).bits() + (seq![true, true] + bits_of(
                    lz as u64,
                    6,
                ) + bits_of(xor, (64 - lz) as nat)));
            }
        }
    }

    /// Appends the record of `dp` to the stream. The first point of a stream
    /// is refused, and nothing written, unless it lies less than 2^14 seconds
    /// after the start; later points are always taken.
    pub fn encode(&mut self, dp: DataPoint) -> (r: Result<(), Error>)
        requires
            old(self).inv(),
        ensures
            final(self).inv(),
            r.is_ok() == accepts(old(self).state(), dp),
            r.is_ok() ==> ({
                &&& final(self).bits() == old(self).bits() + record::<P>(old(self).state(), dp)
                &&& final(self).state() == after_record::<P>(old(self).state(), dp)
            }),
            r.is_err() ==> ({
                &&& r == Err::<(), Error>(Error::FirstDeltaOutOfRange)
                &&& final(self).bits() == old(self).bits()
                &&& final(self).state() == old(self).state()
            }),
    {
        let value_bits: u64 = #[verifier::truncate] (dp.value as u64);
        if self.first {
            if dp.time < self.time || dp.time - self.time >= 0x4000 {
                return Err(Error::FirstDeltaOutOfRange);
            }
            self.write_first(dp.time, value_bits);
        } else {
            self.write_next_timestamp(dp.time);
            self.write_next_value(value_bits);
            assert(self.bits() =~= old(self).bits() + record::<P>(old(self).state(), dp));
        }
        Ok(())
    }

    /// Ends the stream with the end marker and hands out its bytes.
    pub fn close(self) -> (bytes: Vec<u8>)
        requires
            self.inv(),
        ensures
            unpack(bytes@) == self.bits() + bits_of(END_MARKER, 36) + zeros(
                padding(self.bits().len() + 36),
            ),
    {
        let mut w = self.w;
        w.write_bits(END_MARKER, END_MARKER_LEN);
        w.close()
    }
}

} // verus!
