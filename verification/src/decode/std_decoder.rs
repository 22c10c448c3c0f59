//! The decoder: it reads the header with the first record, then a record at
//! each step, until it meets the end marker.

use vstd::prelude::*;
use crate::{Bit, DataPoint};
use crate::decode::Error;
use crate::format::{
    after_failure, control_bits, first_timestamp_failure_taken, parse, parse_first_timestamp, parse_first_value,
    parse_timestamp, parse_value, timestamp_failure_taken, value_failure_taken,
    value_failure_window, State, END_MARKER, END_MARKER_LEN, FIRST_DELTA_LEN, NO_WINDOW,
};
use crate::predictor::Predictor;
use crate::stream::{lemma_value_of_bound, value_of, Read};

verus! {

/// Decodes a bit stream into data points.
#[derive(Debug)]
pub struct StdDecoder<T: Read, P: Predictor> {
    /// The time of the last point, or the start of the stream.
    time: u64,
    /// The last difference between two times.
    delta: u64,
    predictor: P,
    /// The number of leading zeros of the current XOR window.
    leading_zeros: u32,
    /// Whether the next point is the first of the stream.
    first: bool,
    /// Whether the stream has ended, regularly or not.
    done: bool,
    r: T,
}

impl<T: Read, P: Predictor> StdDecoder<T, P> {
    /// The representation invariant.
    pub closed spec fn inv(&self) -> bool {
        &&& self.r.inv()
        &&& self.predictor.inv()
        &&& self.leading_zeros <= 64
    }

    /// What the decoder remembers of the points it has delivered.
    pub closed spec fn state(&self) -> State<P::Model> {
        State {
            time: self.time,
            delta: self.delta,
            leading_zeros: self.leading_zeros,
            first: self.first,
            predictor: self.predictor.model(),
        }
    }

    /// Whether the stream has ended, regularly or not.
    pub closed spec fn is_done(&self) -> bool {
        self.done
    }

    /// The bits not yet read.
    pub closed spec fn remaining(&self) -> Seq<bool> {
        self.r.remaining()
    }

    /// Whether the fields other than the reader hold what they hold in `other`.
    spec fn same_but_reader(&self, other: &Self) -> bool {
        &&& self.time == other.time
        &&& self.delta == other.delta
        &&& self.predictor == other.predictor
        &&& self.leading_zeros == other.leading_zeros
        &&& self.first == other.first
        &&& self.done == other.done
    }

    /// A decoder at the start of the stream that `r` delivers.
    pub fn new(r: T, p: P) -> (d: Self)
        requires
            r.inv(),
            p.inv(),
        ensures
            d.inv(),
            !d.is_done(),
            d.remaining() == r.remaining(),
            d.state() == (State {
                time: 0,
                delta: 0,
                leading_zeros: NO_WINDOW,
                first: true,
                predictor: p.model(),
            }),
    {
        StdDecoder {
            time: 0,
            delta: 0,
            predictor: p,
            leading_zeros: NO_WINDOW,
            first: true,
            done: false,
            r,
        }
    }

    fn read_initial_timestamp(&mut self) -> (r: Result<u64, Error>)
        requires
            old(self).inv(),
        ensures
            final(self).inv(),
            final(self).delta == old(self).delta,
            final(self).predictor == old(self).predictor,
            final(self).leading_zeros == old(self).leading_zeros,
            final(self).first == old(self).first,
            final(self).is_done() == old(self).is_done(),
            (match r {
                Ok(time) => {
                    &&& old(self).remaining().len() >= 64
                    &&& time == value_of(old(self).remaining().take(64))
                    &&& final(self).time == time
                    &&& final(self).remaining() == old(self).remaining().skip(64)
                },
                Err(e) => {
                    &&& old(self).remaining().len() < 64
                    &&& e == Error::InvalidInitialTimestamp
                    &&& final(self).time == old(self).time
                    &&& final(self).remaining() == old(self).remaining()
                },
            }),
    {
        match self.r.read_bits(64) {
            Ok(time) => {
                self.time = time;
                Ok(time)
            },
            Err(_) => Err(Error::InvalidInitialTimestamp),
        }
    }

    fn read_first_timestamp(&mut self) -> (r: Result<u64, Error>)
        requires
            old(self).inv(),
        ensures
            final(self).inv(),
            final(self).predictor == old(self).predictor,
            final(self).leading_zeros == old(self).leading_zeros,
            final(self).first == old(self).first,
            final(self).is_done() == old(self).is_done(),
            (match parse_first_timestamp(old(self).remaining()) {
                Ok((time, delta, rest)) => {
                    &&& r == Ok::<u64, Error>(time)
                    &&& final(self).time == time
                    &&& final(self).delta == delta
                    &&& final(self).remaining() == rest
                },
                Err(e) => {
                    &&& r == Err::<u64, Error>(e)
                    &&& final(self).delta == old(self).delta
                    &&& final(self).time == (if old(self).remaining().len() < 64 {
                        old(self).time
                    } else {
                        value_of(old(self).remaining().take(64))
                    })
                    &&& final(self).remaining() == old(self).remaining().skip(
                        first_timestamp_failure_taken(old(self).remaining()),
                    )
                },
            }),
    {
        let ghost bits = self.remaining();
        assert(bits.skip(0) =~= bits);
        let start = self.read_initial_timestamp()?;
        let ghost rest = self.remaining();
        let control_bit = match self.r.peek_bits(1) {
            Ok(bit) => bit,
            Err(e) => {
                return Err(Error::Stream(e));
            },
        };
        proof {
            assert(rest.take(1).drop_last() =~= Seq::<bool>::empty());
            reveal_with_fuel(value_of, 2);
            assert(value_of(rest.take(1)) == (0u64 << 1) | (if rest[0] { 1u64 } else { 0u64 }));
            assert(((0u64 << 1) | 1u64) == 1u64) by (bit_vector);
            assert(((0u64 << 1) | 0u64) == 0u64) by (bit_vector);
            assert((control_bit == 1) == rest[0]);
        }
        if control_bit == 1 {
            return match self.r.read_bits(END_MARKER_LEN) {
                Ok(marker) => {
                    if marker == END_MARKER {
                        Err(Error::EndOfStream)
                    } else {
                        Err(Error::InvalidEndOfStream)
                    }
                },
                Err(e) => Err(Error::Stream(e)),
            };
        }
        match self.r.read_bit() {
            Ok(_) => {},
            Err(e) => {
                return Err(Error::Stream(e));
            },
        }
        match self.r.read_bits(FIRST_DELTA_LEN) {
            Ok(delta) => {
                self.delta = delta;
                self.time = start.wrapping_add(delta);
                assert(self.remaining() =~= rest.skip(15));
                Ok(self.time)
            },
            Err(e) => Err(Error::Stream(e)),
        }
    }

    fn read_next_timestamp(&mut self) -> (r: Result<u64, Error>)
        requires
            old(self).inv(),
        ensures
            final(self).inv(),
            final(self).predictor == old(self).predictor,
            final(self).leading_zeros == old(self).leading_zeros,
            final(self).first == old(self).first,
            final(self).is_done() == old(self).is_done(),
            (match parse_timestamp(old(self).time, old(self).delta, old(self).remaining()) {
                Ok((time, delta, rest)) => {
                    &&& r == Ok::<u64, Error>(time)
                    &&& final(self).time == time
                    &&& final(self).delta == delta
                    &&& final(self).remaining() == rest
                },
                Err(e) => {
                    &&& r == Err::<u64, Error>(e)
                    &&& final(self).time == old(self).time
                    &&& final(self).delta == old(self).delta
                    &&& final(self).remaining() == old(self).remaining().skip(
                        timestamp_failure_taken(old(self).remaining()),
                    )
                },
            }),
    {
        let ghost bits = self.remaining();
        let mut control: u32 = 0;
        let mut more = true;
        assert(self.remaining() =~= bits.skip(0));
        while more && control < 4
            invariant
                self.inv(),
                self.same_but_reader(old(self)),
                control <= 4,
                bits == old(self).remaining(),
                more ==> control_bits(bits, control as nat) == control_bits(bits, 0),
                more ==> self.remaining() == bits.skip(control as int),
                more ==> control <= bits.len(),
                !more ==> control_bits(bits, 0) == Some(control as nat) && control < 4
                    && control < bits.len(),
                !more ==> self.remaining() == bits.skip(control + 1),
            decreases 4 - control + (if more { 1int } else { 0int }),
        {
            match self.r.read_bit() {
                Ok(bit) => {
                    match bit {
                        Bit::One => {
                            assert(self.remaining() =~= bits.skip(control + 1));
                            control = control + 1;
                        },
                        Bit::Zero => {
                            assert(self.remaining() =~= bits.skip(control + 1));
                            more = false;
                        },
                    }
                },
                Err(e) => {
                    return Err(Error::Stream(e));
                },
            }
        }
        assert(control_bits(bits, 0) == Some(control as nat));
        if control == 0 {
            self.time = self.time.wrapping_add(self.delta);
            return Ok(self.time);
        }
        if control == 4 {
            return match self.r.read_bits(32) {
                Ok(dod) => {
                    if dod == 0 {
                        Err(Error::EndOfStream)
                    } else {
                        self.delta = self.delta.wrapping_add(dod);
                        self.time = self.time.wrapping_add(self.delta);
                        Ok(self.time)
                    }
                },
                Err(e) => Err(Error::Stream(e)),
            };
        }
        let size: u32 = if control == 1 {
            7
        } else if control == 2 {
            9
        } else {
            12
        };
        match self.r.read_bits(size) {
            Ok(payload) => {
                let dod = if payload > (1u64 << (size - 1)) {
                    payload | (u64::MAX << size)
                } else {
                    payload
                };
                self.delta = self.delta.wrapping_add(dod);
                self.time = self.time.wrapping_add(self.delta);
                Ok(self.time)
            },
            Err(e) => Err(Error::Stream(e)),
        }
    }

    fn read_first_value(&mut self) -> (r: Result<u64, Error>)
        requires
            old(self).inv(),
        ensures
            final(self).inv(),
            final(self).time == old(self).time,
            final(self).delta == old(self).delta,
            final(self).leading_zeros == old(self).leading_zeros,
            final(self).first == old(self).first,
            final(self).is_done() == old(self).is_done(),
            (match parse_first_value(old(self).remaining()) {
                Ok((v, rest)) => {
                    &&& r == Ok::<u64, Error>(v)
                    &&& final(self).remaining() == rest
                    &&& final(self).predictor.model() == P::update_spec(
                        old(self).predictor.model(),
                        v,
                    )
                },
                Err(e) => {
                    &&& r == Err::<u64, Error>(e)
                    &&& final(self).predictor == old(self).predictor
                    &&& final(self).remaining() == old(self).remaining()
                },
            }),
    {
        match self.r.read_bits(64) {
            Ok(bits) => {
                self.predictor.update(bits);
                Ok(bits)
            },
            Err(e) => Err(Error::Stream(e)),
        }
    }

    fn read_next_value(&mut self) -> (r: Result<u64, Error>)
        requires
            old(self).inv(),
        ensures
            final(self).inv(),
            final(self).time == old(self).time,
            final(self).delta == old(self).delta,
            final(self).first == old(self).first,
            final(self).is_done() == old(self).is_done(),
            (match parse_value(
                P::predict_spec(old(self).predictor.model()),
                old(self).leading_zeros,
                old(self).remaining(),
            ) {
                Ok((v, lz, rest)) => {
                    &&& r == Ok::<u64, Error>(v)
                    &&& final(self).remaining() == rest
                    &&& final(self).leading_zeros == lz
                    &&& final(self).predictor.model() == P::update_spec(
                        old(self).predictor.model(),
                        v,
                    )
                },
                Err(e) => {
                    &&& r == Err::<u64, Error>(e)
                    &&& final(self).predictor == old(self).predictor
                    &&& final(self).leading_zeros == value_failure_window(
                        old(self).leading_zeros,
                        old(self).remaining(),
                    )
                    &&& final(self).remaining() == old(self).remaining().skip(
                        value_failure_taken(old(self).remaining()),
                    )
                },
            }),
    {
        let ghost bits = self.remaining();
        assert(bits.skip(0) =~= bits);
        let control_bit = match self.r.read_bit() {
            Ok(bit) => bit,
            Err(e) => {
                return Err(Error::Stream(e));
            },
        };
        let predicted = self.predictor.predict_next();
        match control_bit {
            Bit::Zero => {
                self.predictor.update(predicted);
                return Ok(predicted);
            },
            Bit::One => {},
        }
        let zeros_bit = match self.r.read_bit() {
            Ok(bit) => bit,
            Err(e) => {
                return Err(Error::Stream(e));
            },
        };
        assert(self.remaining() =~= bits.skip(2));
        match zeros_bit {
            Bit::One => {
                match self.r.read_bits(6) {
                    Ok(n) => {
                        proof {
                            lemma_value_of_bound(bits.skip(2).take(6));
                            assert((1u64 << 6u64) == 64u64) by (bit_vector);
                            assert(self.remaining() =~= bits.skip(8));
                        }
                        self.leading_zeros = n as u32;
                    },
                    Err(e) => {
                        return Err(Error::Stream(e));
                    },
                }
            },
            Bit::Zero => {},
        }
        let size: u32 = 64 - self.leading_zeros;
        match self.r.read_bits(size) {
            Ok(m) => {
                let value_bits = predicted ^ m;
                self.predictor.update(value_bits);
                Ok(value_bits)
            },
            Err(e) => Err(Error::Stream(e)),
        }
    }

    /// Delivers the next data point of the stream. Whatever ends the stream,
    /// its end marker or a failure, is reported once; after that every call
    /// reports the end of the stream and reads nothing.
    pub fn next(&mut self) -> (r: Result<DataPoint, Error>)
        requires
            old(self).inv(),
        ensures
            final(self).inv(),
            old(self).is_done() ==> ({
                &&& r == Err::<DataPoint, Error>(Error::EndOfStream)
                &&& final(self).is_done()
                &&& final(self).state() == old(self).state()
                &&& final(self).remaining() == old(self).remaining()
            }),
            !old(self).is_done() ==> (match parse::<P>(old(self).state(), old(self).remaining()) {
                Ok(step) => {
                    &&& r == Ok::<DataPoint, Error>(step.point)
                    &&& final(self).state() == step.state
                    &&& final(self).remaining() == step.rest
                    &&& !final(self).is_done()
                },
                Err(e) => {
                    &&& r == Err::<DataPoint, Error>(e)
                    &&& final(self).is_done()
                    &&& final(self).state() == after_failure::<P>(
                        old(self).state(),
                        old(self).remaining(),
                    ).0
                    &&& final(self).remaining() == after_failure::<P>(
                        old(self).state(),
                        old(self).remaining(),
                    ).1
                },
            }),
    {
        if self.done {
            return Err(Error::EndOfStream);
        }
        let time;
        let value_bits;
        if self.first {
            time = match self.read_first_timestamp() {
                Ok(t) => t,
                Err(e) => {
                    self.done = true;
                    return Err(e);
                },
            };
            value_bits = match self.read_first_value() {
                Ok(v) => v,
                Err(e) => {
                    self.done = true;
                    return Err(e);
                },
            };
            self.first = false;
        } else {
            time = match self.read_next_timestamp() {
                Ok(t) => t,
                Err(e) => {
                    self.done = true;
                    return Err(e);
                },
            };
            value_bits = match self.read_next_value() {
                Ok(v) => v,
                Err(e) => {
                    self.done = true;
                    return Err(e);
                },
            };
        }
        let value: i64 = #[verifier::truncate] (value_bits as i64);
        Ok(DataPoint::new(time, value))
    }
}

} // verus!
