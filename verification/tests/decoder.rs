use tsz::decode::Error;
use tsz::stream::BufferedReader;
use tsz::{DataPoint, SimplePredictor, StdDecoder};

#[test]
fn create_new_decoder() {
    let bytes = vec![0, 0, 0, 0, 88, 89, 157, 151, 240, 0, 0, 0, 0];
    let r = BufferedReader::new(bytes);
    let p = SimplePredictor::new();
    let mut decoder = StdDecoder::new(r, p);

    assert_eq!(decoder.next().err().unwrap(), Error::EndOfStream);
}

#[test]
fn decode_single_point_of_raw_bits() {
    let bytes = vec![
        0, 0, 0, 0, 88, 89, 157, 151, 0, 20, 0, 0, 0, 0, 0, 0, 0, 249, 224, 0, 0, 0, 0,
    ];
    let mut decoder = StdDecoder::new(BufferedReader::new(bytes), SimplePredictor::new());

    assert_eq!(decoder.next().unwrap(), DataPoint::new(1482268055 + 10, 124));
    assert_eq!(decoder.next().err().unwrap(), Error::EndOfStream);
}

#[test]
fn decode_datapoint() {
    let bytes = vec![0, 0, 0, 0, 88, 89, 157, 151, 0, 20, 127, 231, 174, 20, 122, 225, 71,
                     175, 224, 0, 0, 0, 0];
    let r = BufferedReader::new(bytes);
    let p = SimplePredictor::new();
    let mut decoder = StdDecoder::new(r, p);

    // the 64 bits of the value are those of the float 1.24
    let expected_datapoint = DataPoint::new(1482268055 + 10, 1.24f64.to_bits() as i64);

    assert_eq!(decoder.next().unwrap(), expected_datapoint);
    assert_eq!(decoder.next().err().unwrap(), Error::EndOfStream);
}

#[test]
fn decode_multiple_datapoints() {
    let bytes = vec![
        0, 0, 0, 0, 88, 89, 157, 151, 0, 20, 0, 0, 0, 0, 0, 0, 0, 248, 248, 186, 129, 125, 86,
        192, 255, 255, 255, 255, 255, 255, 253, 246, 190, 95, 255, 255, 255, 255, 255, 250, 174,
        190, 0, 0, 0, 0,
    ];
    let mut decoder = StdDecoder::new(BufferedReader::new(bytes), SimplePredictor::new());

    assert_eq!(decoder.next().unwrap(), DataPoint::new(1482268055 + 10, 124));
    assert_eq!(decoder.next().unwrap(), DataPoint::new(1482268055 + 20, 198));
    assert_eq!(decoder.next().unwrap(), DataPoint::new(1482268055 + 32, 237));
    assert_eq!(decoder.next().unwrap(), DataPoint::new(1482268055 + 44, -741));
    assert_eq!(decoder.next().unwrap(), DataPoint::new(1482268055 + 52, 10350));
    assert_eq!(decoder.next().err().unwrap(), Error::EndOfStream);
}

#[test]
fn end_of_stream_is_repeated() {
    let bytes = vec![0, 0, 0, 0, 88, 89, 157, 151, 240, 0, 0, 0, 0, 255, 255, 255];
    let mut decoder = StdDecoder::new(BufferedReader::new(bytes), SimplePredictor::new());
    for _ in 0..5 {
        assert_eq!(decoder.next(), Err(Error::EndOfStream));
    }
}

#[test]
fn short_header_is_an_invalid_initial_timestamp() {
    let bytes = vec![0, 0, 0, 0, 88, 89, 157];
    let mut decoder = StdDecoder::new(BufferedReader::new(bytes), SimplePredictor::new());
    assert_eq!(decoder.next(), Err(Error::InvalidInitialTimestamp));
    assert_eq!(decoder.next(), Err(Error::EndOfStream));

    let mut decoder = StdDecoder::new(BufferedReader::new(Vec::new()), SimplePredictor::new());
    assert_eq!(decoder.next(), Err(Error::InvalidInitialTimestamp));
}

#[test]
fn wrong_marker_after_the_header_is_an_invalid_end() {
    let bytes = vec![0, 0, 0, 0, 88, 89, 157, 151, 240, 0, 0, 0, 16];
    let mut decoder = StdDecoder::new(BufferedReader::new(bytes), SimplePredictor::new());
    assert_eq!(decoder.next(), Err(Error::InvalidEndOfStream));
    assert_eq!(decoder.next(), Err(Error::EndOfStream));

    let bytes = vec![0, 0, 0, 0, 88, 89, 157, 151, 128, 0, 0, 0, 0];
    let mut decoder = StdDecoder::new(BufferedReader::new(bytes), SimplePredictor::new());
    assert_eq!(decoder.next(), Err(Error::InvalidEndOfStream));
}

#[test]
fn truncated_stream_is_a_stream_error() {
    let eof = Error::Stream(tsz::stream::Error::Eof);
    // the header alone
    let bytes = vec![0, 0, 0, 0, 88, 89, 157, 151];
    let mut decoder = StdDecoder::new(BufferedReader::new(bytes), SimplePredictor::new());
    assert_eq!(decoder.next(), Err(eof));
    assert_eq!(decoder.next(), Err(Error::EndOfStream));
    // the start of an end marker
    let bytes = vec![0, 0, 0, 0, 88, 89, 157, 151, 240, 0, 0, 0];
    let mut decoder = StdDecoder::new(BufferedReader::new(bytes), SimplePredictor::new());
    assert_eq!(decoder.next(), Err(eof));
    // a first record cut short in its value
    let bytes = vec![0, 0, 0, 0, 88, 89, 157, 151, 0, 20, 0, 0, 0];
    let mut decoder = StdDecoder::new(BufferedReader::new(bytes), SimplePredictor::new());
    assert_eq!(decoder.next(), Err(eof));
    // a stream without its end marker
    let bytes = vec![0, 0, 0, 0, 88, 89, 157, 151, 0, 20, 0, 0, 0, 0, 0, 0, 0, 249];
    let mut decoder = StdDecoder::new(BufferedReader::new(bytes), SimplePredictor::new());
    assert_eq!(decoder.next(), Ok(DataPoint::new(1482268055 + 10, 124)));
    assert_eq!(decoder.next(), Err(eof));
    assert_eq!(decoder.next(), Err(Error::EndOfStream));
}

#[test]
fn payload_above_half_its_range_is_negative() {
    // deltas 10 and 5 through the seven-bit code 111_1011
    let bytes = vec![
        0, 0, 0, 0, 88, 89, 157, 151, 0, 20, 0, 0, 0, 0, 0, 0, 0, 3, 123, 120, 0, 0, 0, 0,
    ];
    let mut decoder = StdDecoder::new(BufferedReader::new(bytes), SimplePredictor::new());
    assert_eq!(decoder.next(), Ok(DataPoint::new(1482268055 + 10, 1)));
    assert_eq!(decoder.next(), Ok(DataPoint::new(1482268055 + 15, 1)));
    assert_eq!(decoder.next(), Err(Error::EndOfStream));

    // the seven-bit payload 100_0001 stands for -63: deltas 100 and 37
    let bytes = vec![
        0, 0, 0, 0, 88, 89, 157, 151, 0, 200, 0, 0, 0, 0, 0, 0, 0, 3, 65, 120, 0, 0, 0, 0,
    ];
    let mut decoder = StdDecoder::new(BufferedReader::new(bytes), SimplePredictor::new());
    assert_eq!(decoder.next(), Ok(DataPoint::new(1482268055 + 100, 1)));
    assert_eq!(decoder.next(), Ok(DataPoint::new(1482268055 + 137, 1)));
    assert_eq!(decoder.next(), Err(Error::EndOfStream));
}

#[test]
fn payload_of_half_its_range_is_the_top_of_the_bucket() {
    // the seven-bit payload 100_0000 stands for 64: deltas 100 and 164
    let bytes = vec![
        0, 0, 0, 0, 88, 89, 157, 151, 0, 200, 0, 0, 0, 0, 0, 0, 0, 3, 64, 120, 0, 0, 0, 0,
    ];
    let mut decoder = StdDecoder::new(BufferedReader::new(bytes), SimplePredictor::new());
    assert_eq!(decoder.next(), Ok(DataPoint::new(1482268055 + 100, 1)));
    assert_eq!(decoder.next(), Ok(DataPoint::new(1482268055 + 264, 1)));
    assert_eq!(decoder.next(), Err(Error::EndOfStream));

    // deltas 10 and 74
    let bytes = vec![
        0, 0, 0, 0, 88, 89, 157, 151, 0, 20, 0, 0, 0, 0, 0, 0, 0, 3, 64, 120, 0, 0, 0, 0,
    ];
    let mut decoder = StdDecoder::new(BufferedReader::new(bytes), SimplePredictor::new());
    assert_eq!(decoder.next(), Ok(DataPoint::new(1482268055 + 10, 1)));
    assert_eq!(decoder.next(), Ok(DataPoint::new(1482268055 + 84, 1)));
    assert_eq!(decoder.next(), Err(Error::EndOfStream));
}

#[test]
fn wide_payload_is_not_the_end_of_the_stream() {
    let bytes = vec![
        0, 0, 0, 0, 88, 89, 157, 151, 0, 20, 0, 0, 0, 0, 0, 0, 0, 3, 224, 0, 2, 111, 223, 223,
        128, 0, 0, 0, 0,
    ];
    let mut decoder = StdDecoder::new(BufferedReader::new(bytes), SimplePredictor::new());
    assert_eq!(decoder.next(), Ok(DataPoint::new(1482268055 + 10, 1)));
    assert_eq!(decoder.next(), Ok(DataPoint::new(1482268055 + 5010, 2)));
    assert_eq!(decoder.next(), Err(Error::EndOfStream));
}

#[test]
fn kept_window_is_read_with_its_width() {
    let bytes = vec![
        0, 0, 0, 0, 88, 89, 157, 151, 0, 20, 0, 0, 0, 0, 0, 0, 0, 2, 254, 149, 224, 0, 0, 0, 0,
    ];
    let mut decoder = StdDecoder::new(BufferedReader::new(bytes), SimplePredictor::new());
    assert_eq!(decoder.next(), Ok(DataPoint::new(1482268055 + 10, 1)));
    assert_eq!(decoder.next(), Ok(DataPoint::new(1482268055 + 20, 3)));
    assert_eq!(decoder.next(), Ok(DataPoint::new(1482268055 + 30, 1)));
    assert_eq!(decoder.next(), Err(Error::EndOfStream));
}

#[test]
fn window_kept_before_any_was_opened_has_no_bits() {
    // after the first record: "0" for the time, "10" for a value in the
    // current window, which is still the empty one
    let bytes = vec![
        0, 0, 0, 0, 88, 89, 157, 151, 0, 20, 0, 0, 0, 0, 0, 0, 0, 10, 188, 0, 0, 0, 0,
    ];
    let mut decoder = StdDecoder::new(BufferedReader::new(bytes), SimplePredictor::new());
    assert_eq!(decoder.next(), Ok(DataPoint::new(1482268055 + 10, 5)));
    assert_eq!(decoder.next(), Ok(DataPoint::new(1482268055 + 20, 5)));
    assert_eq!(decoder.next(), Err(Error::EndOfStream));
}
