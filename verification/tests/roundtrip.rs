use std::vec::Vec;

use tsz::decode::Error;
use tsz::stream::{BufferedReader, BufferedWriter};
use tsz::{DataPoint, DfcmPredictor, FcmPredictor, SimplePredictor, StdDecoder, StdEncoder};

const DATA: &'static str = "1482892270,176
1482892280,778
1482892288,795
1482892292,553
1482892310,441
1482892323,530
1482892334,530
1482892341,292
1482892350,073
1482892360,-133
1482892370,-178
1482892390,-1245
1482892401,-3476
1482892490,789
1482892500,33567
1482892800,1290812
";

fn data() -> Vec<DataPoint> {
    let mut points = Vec::new();
    for line in DATA.lines() {
        let substrings: Vec<&str> = line.split(",").collect();
        let t = substrings[0].parse::<u64>().unwrap();
        let v = substrings[1].parse::<i64>().unwrap();
        points.push(DataPoint::new(t, v));
    }
    points
}

#[test]
fn integration_test() {
    let w = BufferedWriter::new();
    let p = SimplePredictor::new();
    let mut encoder = StdEncoder::new(1482892260, w, p);

    let mut original_datapoints = Vec::new();

    for line in DATA.lines() {
        let substrings: Vec<&str> = line.split(",").collect();
        let t = substrings[0].parse::<u64>().unwrap();
        let v = substrings[1].parse::<i64>().unwrap();
        let dp = DataPoint::new(t, v);
        original_datapoints.push(dp);
    }

    for dp in &original_datapoints {
        encoder.encode(*dp).unwrap();
    }

    let bytes = encoder.close();
    let r = BufferedReader::new(bytes);
    let p = SimplePredictor::new();
    let mut decoder = StdDecoder::new(r, p);

    let mut new_datapoints = Vec::new();

    let mut done = false;
    loop {
        if done {
            break;
        }

        match decoder.next() {
            Ok(dp) => new_datapoints.push(dp),
            Err(err) => {
                if err == Error::EndOfStream {
                    done = true;
                } else {
                    panic!("Received an error from decoder: {:?}", err);
                }
            }
        };
    }

    assert_eq!(original_datapoints, new_datapoints);
}

#[test]
fn round_trip_with_fcm_predictor() {
    let points = data();
    let mut encoder = StdEncoder::new(1482892260, BufferedWriter::new(), FcmPredictor::new(16));
    for dp in &points {
        encoder.encode(*dp).unwrap();
    }
    let bytes = encoder.close();
    let mut decoder = StdDecoder::new(BufferedReader::new(bytes), FcmPredictor::new(16));
    for dp in &points {
        assert_eq!(decoder.next(), Ok(*dp));
    }
    assert_eq!(decoder.next(), Err(Error::EndOfStream));
    assert_eq!(decoder.next(), Err(Error::EndOfStream));
}

#[test]
fn round_trip_with_dfcm_predictor() {
    let points = data();
    let mut encoder = StdEncoder::new(1482892260, BufferedWriter::new(), DfcmPredictor::new(1));
    for dp in &points {
        encoder.encode(*dp).unwrap();
    }
    let bytes = encoder.close();
    let mut decoder = StdDecoder::new(BufferedReader::new(bytes), DfcmPredictor::new(1));
    for dp in &points {
        assert_eq!(decoder.next(), Ok(*dp));
    }
    assert_eq!(decoder.next(), Err(Error::EndOfStream));
}

#[test]
fn round_trip_of_repeating_float_bits() {
    let values = [1.24f64, 1.98, 1.24, 1.98, 1.24, 1.98, 2.37, -7.41, 103.50, 103.50];
    let mut points = Vec::new();
    let mut t: u64 = 1482268055;
    for (i, v) in values.iter().enumerate() {
        t += 10 + (i as u64 % 3);
        points.push(DataPoint::new(t, v.to_bits() as i64));
    }
    let mut encoder = StdEncoder::new(1482268055, BufferedWriter::new(), FcmPredictor::new(64));
    for dp in &points {
        encoder.encode(*dp).unwrap();
    }
    let bytes = encoder.close();
    let mut decoder = StdDecoder::new(BufferedReader::new(bytes), FcmPredictor::new(64));
    for dp in &points {
        assert_eq!(decoder.next(), Ok(*dp));
    }
    assert_eq!(decoder.next(), Err(Error::EndOfStream));
}

#[test]
fn round_trip_at_both_ends_of_each_bucket() {
    // deltas of deltas -63, -255, -2047, 63, 255, 2047, 64, 256, 2048 and
    // 100000
    let start: u64 = 1000;
    let deltas: [u64; 11] = [
        5000, 4937, 4682, 2635, 2698, 2953, 5000, 5064, 5320, 7368, 107368,
    ];
    let mut points = Vec::new();
    let mut t = start;
    for (i, d) in deltas.iter().enumerate() {
        t += d;
        points.push(DataPoint::new(t, i as i64 - 3));
    }
    let mut encoder = StdEncoder::new(start, BufferedWriter::new(), SimplePredictor::new());
    for dp in &points {
        encoder.encode(*dp).unwrap();
    }
    let bytes = encoder.close();
    let mut decoder = StdDecoder::new(BufferedReader::new(bytes), SimplePredictor::new());
    for dp in &points {
        assert_eq!(decoder.next(), Ok(*dp));
    }
    assert_eq!(decoder.next(), Err(Error::EndOfStream));
}

#[test]
fn round_trip_of_extreme_values() {
    let points = [
        DataPoint::new(0, i64::MIN),
        DataPoint::new(1, i64::MAX),
        DataPoint::new(2, -1),
        DataPoint::new(3, 0),
        DataPoint::new(4, 0),
        DataPoint::new(5, 1),
    ];
    let mut encoder = StdEncoder::new(0, BufferedWriter::new(), DfcmPredictor::new(4));
    for dp in &points {
        encoder.encode(*dp).unwrap();
    }
    let bytes = encoder.close();
    let mut decoder = StdDecoder::new(BufferedReader::new(bytes), DfcmPredictor::new(4));
    for dp in &points {
        assert_eq!(decoder.next(), Ok(*dp));
    }
    assert_eq!(decoder.next(), Err(Error::EndOfStream));
}

#[test]
fn round_trip_of_a_delta_of_deltas_of_sixty_four() {
    let points = [DataPoint::new(1010, 1), DataPoint::new(1084, 1)];
    let mut encoder = StdEncoder::new(1000, BufferedWriter::new(), SimplePredictor::new());
    for dp in &points {
        encoder.encode(*dp).unwrap();
    }
    let bytes = encoder.close();
    let mut decoder = StdDecoder::new(BufferedReader::new(bytes), SimplePredictor::new());
    assert_eq!(decoder.next(), Ok(DataPoint::new(1010, 1)));
    assert_eq!(decoder.next(), Ok(DataPoint::new(1084, 1)));
    assert_eq!(decoder.next(), Err(Error::EndOfStream));
}
