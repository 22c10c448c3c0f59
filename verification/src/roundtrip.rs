//! What the decoder makes of what the encoder wrote: each record read back
//! gives the point that was stored and leaves the decoder in the state the
//! encoder was in, and a whole stream read back gives its points in order and
//! then its end.

use vstd::prelude::*;
use crate::DataPoint;
use crate::decode::Error;
use crate::format::{
    accepts, after_record, control_bits, dod_code, dod_of, leading_zeros, lemma_prefixes, parse,
    parse_timestamp, parse_value, payload_of, record, sign_extend, value_bits, value_frame, value_from_bits,
    window_after, State, Step, END_MARKER, NO_WINDOW,
};
use crate::predictor::Predictor;
use crate::stream::{
    bits_of, lemma_read_back, lemma_value_of_bits_of, low_bits, padding, unpack, value_of, zeros,
};

verus! {

/// Whether a timestamp code brings the step from `delta` to `new_delta` back
/// as it was: the delta of deltas is at least -2047 and fits 32 bits. A lower
/// one is written with 32 bits, which are read as a number that is not
/// negative.
pub open spec fn faithful_step(delta: u64, new_delta: u64) -> bool {
    -2047 <= new_delta - delta <= 0x7FFF_FFFF
}

/// The payload of a delta of deltas `x`, given modulo 2^64, read back from
/// the bucket it is written to.
proof fn lemma_payload(x: u64)
    requires
        x <= 0x7FFF_FFFF || x >= 0xFFFF_FFFF_FFFF_F801,
    ensures
        payload_of(x as i32) == x,
        (x as i32 == 0) == (x == 0),
        -63 <= (x as i32) <= 64 ==> sign_extend(low_bits(x, 7), 7) == x,
        -255 <= (x as i32) <= 256 ==> sign_extend(low_bits(x, 9), 9) == x,
        -2047 <= (x as i32) <= 2048 ==> sign_extend(low_bits(x, 12), 12) == x,
        !(-2047 <= (x as i32) <= 2048) ==> low_bits(x, 32) == x && x != 0,
{
    let d = x as i32;
    let l7 = low_bits(x, 7);
    let l9 = low_bits(x, 9);
    let l12 = low_bits(x, 12);
    assert((d as u64) == x && (d == 0) == (x == 0)) by (bit_vector)
        requires
            d == x as i32,
            x <= 0x7FFF_FFFF || x >= 0xFFFF_FFFF_FFFF_F801,
    ;
    assert(-63 <= d <= 64 ==> (if l7 > (1u64 << 6u32) {
        l7 | (0xFFFF_FFFF_FFFF_FFFFu64 << 7u32)
    } else {
        l7
    }) == x) by (bit_vector)
        requires
            d == x as i32,
            l7 == x & (((1u64 << 7u64) - 1) as u64),
            x <= 0x7FFF_FFFF || x >= 0xFFFF_FFFF_FFFF_F801,
    ;
    assert(-255 <= d <= 256 ==> (if l9 > (1u64 << 8u32) {
        l9 | (0xFFFF_FFFF_FFFF_FFFFu64 << 9u32)
    } else {
        l9
    }) == x) by (bit_vector)
        requires
            d == x as i32,
            l9 == x & (((1u64 << 9u64) - 1) as u64),
            x <= 0x7FFF_FFFF || x >= 0xFFFF_FFFF_FFFF_F801,
    ;
    assert(-2047 <= d <= 2048 ==> (if l12 > (1u64 << 11u32) {
        l12 | (0xFFFF_FFFF_FFFF_FFFFu64 << 12u32)
    } else {
        l12
    }) == x) by (bit_vector)
        requires
            d == x as i32,
            l12 == x & (((1u64 << 12u64) - 1) as u64),
            x <= 0x7FFF_FFFF || x >= 0xFFFF_FFFF_FFFF_F801,
    ;
    assert(!(-2047 <= d <= 2048) ==> x & (((1u64 << 32u64) - 1) as u64) == x && x != 0)
        by (bit_vector)
        requires
            d == x as i32,
            x <= 0x7FFF_FFFF || x >= 0xFFFF_FFFF_FFFF_F801,
    ;
}

/// A timestamp code read back gives the time and the delta that it was
/// written for, and leaves what followed it.
pub proof fn lemma_timestamp_round_trip(time: u64, delta: u64, new_delta: u64, rest: Seq<bool>)
    requires
        faithful_step(delta, new_delta),
    ensures
        parse_timestamp(time, delta, dod_code(dod_of(delta, new_delta)) + rest) == Ok::<
            (u64, u64, Seq<bool>),
            Error,
        >((time.wrapping_add(new_delta), new_delta, rest)),
{
    let x = new_delta.wrapping_sub(delta);
    let dod = dod_of(delta, new_delta);
    let p = payload_of(dod);
    let bits = dod_code(dod) + rest;
    lemma_payload(x);
    lemma_prefixes();
    reveal_with_fuel(control_bits, 5);
    assert(delta.wrapping_add(x) == new_delta);
    if dod == 0 {
        assert(bits.skip(1) =~= rest);
    } else if -63 <= dod <= 64 {
        assert(bits.skip(2) =~= bits_of(p, 7) + rest);
        lemma_read_back(p, 7, rest);
    } else if -255 <= dod <= 256 {
        assert(bits.skip(3) =~= bits_of(p, 9) + rest);
        lemma_read_back(p, 9, rest);
    } else if -2047 <= dod <= 2048 {
        assert(bits.skip(4) =~= bits_of(p, 12) + rest);
        lemma_read_back(p, 12, rest);
    } else {
        assert(bits.skip(4) =~= bits_of(p, 32) + rest);
        lemma_read_back(p, 32, rest);
    }
}

proof fn lemma_window(xor: u64)
    requires
        xor != 0,
    ensures
        leading_zeros(xor) <= 63,
        low_bits(xor, (64 - leading_zeros(xor)) as nat) == xor,
        low_bits(leading_zeros(xor) as u64, 6) == leading_zeros(xor),
{
    vstd::std_specs::bits::axiom_u64_leading_zeros(xor);
    let lz = leading_zeros(xor) as u64;
    let n = (64 - lz) as u64;
    let hi = xor >> n;
    assert(lz & (((1u64 << 6u64) - 1) as u64) == lz) by (bit_vector)
        requires
            lz <= 63,
    ;
    if lz > 0 {
        assert(xor & (((1u64 << n) - 1) as u64) == xor) by (bit_vector)
            requires
                hi == xor >> n,
                hi == 0,
                n < 64,
        ;
    }
}

/// A value frame read back gives the value that it was written for, with the
/// window that the encoder went on with, and leaves what followed it.
pub proof fn lemma_value_round_trip(value: u64, predicted: u64, window: u32, rest: Seq<bool>)
    ensures
        parse_value(predicted, window, value_frame(value ^ predicted, window) + rest) == Ok::<
            (u64, u32, Seq<bool>),
            Error,
        >((value, window_after(value ^ predicted, window), rest)),
{
    let xor = value ^ predicted;
    let bits = value_frame(xor, window) + rest;
    assert(predicted ^ xor == value && (xor == 0 ==> predicted == value)) by (bit_vector)
        requires
            xor == value ^ predicted,
    ;
    if xor == 0 {
        assert(bits.skip(1) =~= rest);
    } else {
        lemma_window(xor);
        let lz = leading_zeros(xor);
        let n = (64 - lz) as nat;
        if lz == window {
            assert(bits.skip(2) =~= bits_of(xor, n) + rest);
            lemma_read_back(xor, n, rest);
        } else {
            assert(bits.skip(2).take(6) =~= bits_of(lz as u64, 6));
            assert(bits.skip(8) =~= bits_of(xor, n) + rest);
            lemma_value_of_bits_of(lz as u64, 6);
            lemma_read_back(xor, n, rest);
        }
    }
}

/// Whether the record that stores `dp` in state `s` brings `dp` back: any
/// first point that the encoder accepts does; a later one does where the step
/// from the last delta to the new one is faithful and time has not gone back.
pub open spec fn faithful<M>(s: State<M>, dp: DataPoint) -> bool {
    if s.first {
        accepts(s, dp)
    } else {
        s.time <= dp.time && faithful_step(s.delta, (dp.time - s.time) as u64)
    }
}

/// A point that comes as long after its predecessor as that came after its
/// own takes one zero bit for its time, whatever its value, and leaves the
/// delta as it was.
pub proof fn lemma_steady_time<P: Predictor>(s: State<P::Model>, dp: DataPoint)
    requires
        !s.first,
        s.time <= dp.time,
        dp.time - s.time == s.delta,
    ensures
        dod_code(dod_of(s.delta, dp.time.wrapping_sub(s.time))) == seq![false],
        record::<P>(s, dp) == seq![false] + value_frame(
            value_bits(dp.value) ^ P::predict_spec(s.predictor),
            s.leading_zeros,
        ),
        after_record::<P>(s, dp).time == dp.time,
        after_record::<P>(s, dp).delta == s.delta,
{
    let x = dp.time.wrapping_sub(s.time).wrapping_sub(s.delta);
    assert(x == 0);
    assert(x as i32 == 0) by (bit_vector)
        requires
            x == 0,
    ;
}

proof fn lemma_value_bits(value: i64)
    ensures
        value_from_bits(value_bits(value)) == value,
{
    assert(((value as u64) as i64) == value) by (bit_vector);
}

/// A record after the first, read back in the state it was written in, gives
/// the point that it stores, leaves the decoder in the state that the encoder
/// reached, and leaves what followed it.
pub proof fn lemma_record_round_trip<P: Predictor>(
    s: State<P::Model>,
    dp: DataPoint,
    rest: Seq<bool>,
)
    requires
        !s.first,
        faithful(s, dp),
    ensures
        parse::<P>(s, record::<P>(s, dp) + rest) == Ok::<Step<P::Model>, Error>(
            Step { point: dp, state: after_record::<P>(s, dp), rest },
        ),
{
    let new_delta = dp.time.wrapping_sub(s.time);
    let predicted = P::predict_spec(s.predictor);
    let frame = value_frame(value_bits(dp.value) ^ predicted, s.leading_zeros);
    let code = dod_code(dod_of(s.delta, new_delta));
    assert(record::<P>(s, dp) + rest =~= code + (frame + rest));
    lemma_timestamp_round_trip(s.time, s.delta, new_delta, frame + rest);
    lemma_value_round_trip(value_bits(dp.value), predicted, s.leading_zeros, rest);
    lemma_value_bits(dp.value);
    assert(s.time.wrapping_add(new_delta) == dp.time);
}

/// The header and the first record, read back by a decoder that starts with
/// the predictor and the window of the encoder, give the first point, leave
/// the decoder in the state that the encoder reached, and leave what
/// followed.
pub proof fn lemma_first_record_round_trip<P: Predictor>(
    s: State<P::Model>,
    d: State<P::Model>,
    dp: DataPoint,
    rest: Seq<bool>,
)
    requires
        s.first,
        d.first,
        d.predictor == s.predictor,
        d.leading_zeros == s.leading_zeros,
        faithful(s, dp),
    ensures
        parse::<P>(d, bits_of(s.time, 64) + (record::<P>(s, dp) + rest)) == Ok::<
            Step<P::Model>,
            Error,
        >(Step { point: dp, state: after_record::<P>(s, dp), rest }),
{
    let delta = (dp.time - s.time) as u64;
    let v = value_bits(dp.value);
    let tail = seq![false] + (bits_of(delta, 14) + (bits_of(v, 64) + rest));
    let bits = bits_of(s.time, 64) + (record::<P>(s, dp) + rest);
    assert(record::<P>(s, dp) + rest =~= tail);
    lemma_read_back(s.time, 64, tail);
    assert(tail.skip(1) =~= bits_of(delta, 14) + (bits_of(v, 64) + rest));
    lemma_read_back(delta, 14, bits_of(v, 64) + rest);
    assert(tail.skip(15) =~= bits_of(v, 64) + rest);
    lemma_read_back(v, 64, rest);
    assert(delta & (((1u64 << 14u64) - 1) as u64) == delta) by (bit_vector)
        requires
            delta < 0x4000,
    ;
    lemma_value_bits(dp.value);
    assert(s.time.wrapping_add(delta) == dp.time);
    assert(dp.time.wrapping_sub(s.time) == delta);
}

proof fn lemma_end_marker_bits()
    ensures
        bits_of(END_MARKER, 36) == bits_of(0b1111, 4) + bits_of(0, 32),
        low_bits(END_MARKER, 36) == END_MARKER,
{
    let a = bits_of(END_MARKER, 36);
    let b = bits_of(0b1111, 4) + bits_of(0, 32);
    assert forall|i: int| 0 <= i < 36 implies a[i] == b[i] by {
        let k = (35 - i) as u64;
        let j = if k >= 32 { (k - 32) as u64 } else { 0 };
        assert({
            &&& ((0xF_0000_0000u64 >> k) & 1 == 1) == (k >= 32)
            &&& (15u64 >> j) & 1 == 1
            &&& (0u64 >> k) & 1 == 0
        }) by (bit_vector)
            requires
                k < 36,
                j < 4,
        ;
    }
    assert(a =~= b);
    assert(0xF_0000_0000u64 & (((1u64 << 36u64) - 1) as u64) == 0xF_0000_0000u64)
        by (bit_vector);
}

/// The end marker, read where a record could stand, ends the stream.
pub proof fn lemma_end_marker_ends<P: Predictor>(s: State<P::Model>, rest: Seq<bool>)
    requires
        !s.first,
    ensures
        parse::<P>(s, bits_of(END_MARKER, 36) + rest) == Err::<Step<P::Model>, Error>(
            Error::EndOfStream,
        ),
{
    let bits = bits_of(END_MARKER, 36) + rest;
    lemma_end_marker_bits();
    lemma_prefixes();
    reveal_with_fuel(control_bits, 5);
    assert(bits.skip(4) =~= bits_of(0, 32) + rest);
    lemma_read_back(0, 32, rest);
    assert(0u64 & (((1u64 << 32u64) - 1) as u64) == 0) by (bit_vector);
}

/// A stream that holds no point: its header and the end marker, read by a
/// decoder in its first state, end the stream, whatever follows the marker.
pub proof fn lemma_empty_stream<P: Predictor>(
    start: u64,
    d: State<P::Model>,
    rest: Seq<bool>,
)
    requires
        d.first,
    ensures
        parse::<P>(d, bits_of(start, 64) + (bits_of(END_MARKER, 36) + rest)) == Err::<
            Step<P::Model>,
            Error,
        >(Error::EndOfStream),
{
    let tail = bits_of(END_MARKER, 36) + rest;
    lemma_read_back(start, 64, tail);
    lemma_end_marker_bits();
    lemma_prefixes();
    lemma_read_back(END_MARKER, 36, rest);
    assert(tail[0] == bits_of(0b1111, 4)[0]);
}

/// A stream that holds no point takes 13 bytes: 64 bits for the header, 36
/// for the end marker, and 4 that fill the last byte.
pub proof fn lemma_empty_stream_size(start: u64, bytes: Seq<u8>)
    requires
        unpack(bytes) == bits_of(start, 64) + bits_of(END_MARKER, 36) + zeros(padding(100)),
    ensures
        bytes.len() == 13,
{
    assert(unpack(bytes).len() == 8 * bytes.len());
}

/// The records of `points`, written one after the other from state `s`.
pub open spec fn records<P: Predictor>(s: State<P::Model>, points: Seq<DataPoint>) -> Seq<bool>
    decreases points.len(),
{
    if points.len() == 0 {
        Seq::empty()
    } else {
        record::<P>(s, points[0]) + records::<P>(after_record::<P>(s, points[0]), points.skip(1))
    }
}

/// Whether each of `points` is faithful in the state that the points before
/// it lead to from `s`.
pub open spec fn all_faithful<P: Predictor>(s: State<P::Model>, points: Seq<DataPoint>) -> bool
    decreases points.len(),
{
    points.len() == 0 || (faithful(s, points[0]) && all_faithful::<P>(
        after_record::<P>(s, points[0]),
        points.skip(1),
    ))
}

/// Whether a decoder in state `s` that reads `bits` delivers `points`, one
/// with each step, and then the end of the stream.
pub open spec fn decodes_to<P: Predictor>(
    s: State<P::Model>,
    bits: Seq<bool>,
    points: Seq<DataPoint>,
) -> bool
    decreases points.len(),
{
    match parse::<P>(s, bits) {
        Ok(step) => points.len() > 0 && step.point == points[0] && decodes_to::<P>(
            step.state,
            step.rest,
            points.skip(1),
        ),
        Err(e) => points.len() == 0 && e == Error::EndOfStream,
    }
}

/// The state of an encoder that was made for a stream starting at `start`.
pub open spec fn encoder_start<M>(start: u64, predictor: M) -> State<M> {
    State { time: start, delta: 0, leading_zeros: NO_WINDOW, first: true, predictor }
}

/// The state of a decoder that has read nothing.
pub open spec fn decoder_start<M>(predictor: M) -> State<M> {
    State { time: 0, delta: 0, leading_zeros: NO_WINDOW, first: true, predictor }
}

/// Records after the first, followed by the end marker and read back in the
/// state they were written from, give their points in order and then the end
/// of the stream, whatever follows the marker.
pub proof fn lemma_records_round_trip<P: Predictor>(
    s: State<P::Model>,
    points: Seq<DataPoint>,
    rest: Seq<bool>,
)
    requires
        !s.first,
        all_faithful::<P>(s, points),
    ensures
        decodes_to::<P>(s, records::<P>(s, points) + (bits_of(END_MARKER, 36) + rest), points),
    decreases points.len(),
{
    let end = bits_of(END_MARKER, 36) + rest;
    if points.len() == 0 {
        assert(records::<P>(s, points) + end =~= end);
        lemma_end_marker_ends::<P>(s, rest);
    } else {
        let next = after_record::<P>(s, points[0]);
        let tail = records::<P>(next, points.skip(1)) + end;
        assert(records::<P>(s, points) + end =~= record::<P>(s, points[0]) + tail);
        lemma_record_round_trip::<P>(s, points[0], tail);
        lemma_records_round_trip::<P>(next, points.skip(1), rest);
    }
}

/// A whole stream read back: the header for `start`, the records of `points`
/// and the end marker, read by a decoder whose predictor starts in the state
/// in which the encoder's started, give `points` in order and then the end of
/// the stream, whatever follows the marker. This holds for every kind of
/// predictor, and for all points that are faithful in their place.
pub proof fn lemma_stream_round_trip<P: Predictor>(
    start: u64,
    predictor: P::Model,
    points: Seq<DataPoint>,
    rest: Seq<bool>,
)
    requires
        all_faithful::<P>(encoder_start(start, predictor), points),
    ensures
        decodes_to::<P>(
            decoder_start(predictor),
            bits_of(start, 64) + (records::<P>(encoder_start(start, predictor), points) + (bits_of(
                END_MARKER,
                36,
            ) + rest)),
            points,
        ),
{
    let s = encoder_start(start, predictor);
    let d = decoder_start(predictor);
    let end = bits_of(END_MARKER, 36) + rest;
    if points.len() == 0 {
        assert(records::<P>(s, points) + end =~= end);
        lemma_empty_stream::<P>(start, d, rest);
    } else {
        let next = after_record::<P>(s, points[0]);
        let tail = records::<P>(next, points.skip(1)) + end;
        assert(records::<P>(s, points) + end =~= record::<P>(s, points[0]) + tail);
        lemma_first_record_round_trip::<P>(s, d, points[0], tail);
        lemma_records_round_trip::<P>(next, points.skip(1), rest);
    }
}

/// No record begins with the end marker, in whatever state it is written and
/// whatever follows it: the first record begins with a zero bit, and a
/// timestamp code with the marker's prefix carries a payload that is not 0.
pub proof fn lemma_record_is_no_end_marker<P: Predictor>(
    s: State<P::Model>,
    dp: DataPoint,
    rest: Seq<bool>,
)
    ensures
        !bits_of(END_MARKER, 36).is_prefix_of(record::<P>(s, dp) + rest),
{
    let marker = bits_of(END_MARKER, 36);
    let bits = record::<P>(s, dp) + rest;
    lemma_end_marker_bits();
    lemma_prefixes();
    if marker.is_prefix_of(bits) {
        assert(forall|i: int| 0 <= i < 36 ==> bits[i] == marker[i]);
        assert(marker[0] && marker[1] && marker[2] && marker[3]);
        if s.first {
            assert(!bits[0]);
        } else {
            let dod = dod_of(s.delta, dp.time.wrapping_sub(s.time));
            let p = payload_of(dod);
            if dod == 0 {
                assert(!bits[0]);
            } else if -63 <= dod <= 64 {
                assert(!bits[1]);
            } else if -255 <= dod <= 256 {
                assert(!bits[2]);
            } else if -2047 <= dod <= 2048 {
                assert(!bits[3]);
            } else {
                assert forall|i: int| 0 <= i < 32 implies bits_of(p, 32)[i] == bits_of(0, 32)[i] by {
                    assert(bits[i + 4] == bits_of(p, 32)[i]);
                    assert(marker[i + 4] == bits_of(0, 32)[i]);
                }
                assert(bits_of(p, 32) =~= bits_of(0, 32));
                lemma_value_of_bits_of(p, 32);
                lemma_value_of_bits_of(0, 32);
                assert(dod == 0) by (bit_vector)
                    requires
                        p == dod as u64,
                        p & (((1u64 << 32u64) - 1) as u64) == 0u64 & (((1u64 << 32u64) - 1) as u64),
                ;
            }
        }
    }
}

/// Sign extension undoes the cut to the payload's width: a delta of deltas
/// in the bucket of width 7, 9 or 12, written with that width and read back,
/// is what it was, from the bucket's lowest value to its highest.
pub proof fn lemma_sign_extension(dod: i32, w: u32)
    requires
        w == 7 && -63 <= dod <= 64 || w == 9 && -255 <= dod <= 256 || w == 12 && -2047 <= dod
            <= 2048,
    ensures
        sign_extend(value_of(bits_of(payload_of(dod), w as nat)), w) == payload_of(dod),
{
    let x = payload_of(dod);
    assert((x <= 0x7FFF_FFFF || x >= 0xFFFF_FFFF_FFFF_F801) && x as i32 == dod) by (bit_vector)
        requires
            x == dod as u64,
            -2047 <= dod <= 2048,
    ;
    lemma_payload(x);
    lemma_value_of_bits_of(x, w as nat);
}

} // verus!
