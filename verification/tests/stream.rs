use tsz::stream::{BufferedReader, BufferedWriter, Error, Read, Write};
use tsz::Bit;

#[test]
fn bit_to_u64() {
    assert_eq!(Bit::Zero.to_u64(), 0);
    assert_eq!(Bit::One.to_u64(), 1);
}

#[test]
fn empty_writer_closes_to_no_bytes() {
    let w = BufferedWriter::new();
    assert_eq!(w.close(), Vec::<u8>::new());
}

#[test]
fn write_bits_most_significant_first() {
    let mut w = BufferedWriter::new();
    w.write_bit(Bit::One);
    w.write_bit(Bit::Zero);
    w.write_bits(0b101, 3);
    // only the low four bits of the value count
    w.write_bits(0xFFF6, 4);
    assert_eq!(w.close(), vec![0b1010_1011, 0b0000_0000]);
}

#[test]
fn write_whole_bytes() {
    let mut w = BufferedWriter::new();
    w.write_bits(0x0123_4567_89AB_CDEF, 64);
    w.write_bits(0xAB, 8);
    w.write_bits(7, 0);
    assert_eq!(
        w.close(),
        vec![0x01, 0x23, 0x45, 0x67, 0x89, 0xAB, 0xCD, 0xEF, 0xAB]
    );
}

#[test]
fn widths_over_sixty_four_count_as_sixty_four() {
    let mut w = BufferedWriter::new();
    w.write_bits(1, 100);
    assert_eq!(w.close(), vec![0, 0, 0, 0, 0, 0, 0, 1]);
}

#[test]
fn read_bits_most_significant_first() {
    let mut r = BufferedReader::new(vec![0b1010_1011, 0b0110_0000, 0xFF]);
    assert_eq!(r.read_bit(), Ok(Bit::One));
    assert_eq!(r.read_bit(), Ok(Bit::Zero));
    assert_eq!(r.read_bits(3), Ok(0b101));
    assert_eq!(r.peek_bits(5), Ok(0b01101));
    assert_eq!(r.peek_bits(5), Ok(0b01101));
    assert_eq!(r.read_bits(0), Ok(0));
    assert_eq!(r.read_bits(7), Ok(0b011_0110));
    assert_eq!(r.read_bits(12), Ok(0xFF));
    assert_eq!(r.read_bit(), Err(Error::Eof));
}

#[test]
fn reading_past_the_end_consumes_nothing() {
    let mut r = BufferedReader::new(vec![0xA5, 0x5A]);
    assert_eq!(r.read_bits(4), Ok(0xA));
    assert_eq!(r.read_bits(13), Err(Error::Eof));
    assert_eq!(r.peek_bits(13), Err(Error::Eof));
    assert_eq!(r.read_bits(12), Ok(0x55A));
    assert_eq!(r.read_bits(1), Err(Error::Eof));
    assert_eq!(r.read_bits(0), Ok(0));
}

#[test]
fn read_sixty_four_bits_across_bytes() {
    let mut r = BufferedReader::new(vec![0x80, 0x91, 0xA2, 0xB3, 0xC4, 0xD5, 0xE6, 0xF7, 0x88]);
    assert_eq!(r.read_bit(), Ok(Bit::One));
    assert_eq!(r.read_bits(64), Ok(0x0123_4567_89AB_CDEF));
    assert_eq!(r.read_bits(7), Ok(8));
}
