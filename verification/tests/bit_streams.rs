//! The bit-level writer and reader.

use brs::bit_reader::BitReader;
use brs::bit_writer::BitWriter;
use brs::{Error, IoError};

fn written(build: impl FnOnce(&mut BitWriter)) -> Vec<u8> {
    let mut writer = BitWriter::new(Vec::new());
    build(&mut writer);
    writer.finish()
}

#[test]
fn bits_fill_bytes_from_the_lowest_bit() {
    let bytes = written(|w| {
        w.write_bit(true);
        w.write_bit(false);
        w.write_bit(true);
    });
    assert_eq!(bytes, vec![0b0000_0101]);
}

#[test]
fn nine_bits_take_two_bytes() {
    let bytes = written(|w| {
        for _ in 0..9 {
            w.write_bit(true);
        }
    });
    assert_eq!(bytes, vec![0xff, 0x01]);
}

#[test]
fn write_bit_hands_the_bit_back() {
    let mut writer = BitWriter::new(Vec::new());
    assert!(writer.write_bit(true));
    assert!(!writer.write_bit(false));
}

#[test]
fn a_new_writer_goes_on_after_its_buffer() {
    let mut writer = BitWriter::new(vec![7, 9]);
    writer.write_bit(true);
    assert_eq!(writer.finish(), vec![7, 9, 1]);
}

#[test]
fn byte_align_pads_with_clear_bits() {
    let mut writer = BitWriter::new(Vec::new());
    assert!(writer.byte_aligned());
    writer.write_bit(true);
    assert!(!writer.byte_aligned());
    writer.byte_align();
    assert!(writer.byte_aligned());
    writer.write_bit(true);
    assert_eq!(writer.finish(), vec![1, 1]);
}

#[test]
fn byte_align_does_nothing_between_bytes() {
    let mut writer = BitWriter::new(Vec::new());
    writer.byte_align();
    writer.write_byte(0xab);
    writer.byte_align();
    assert_eq!(writer.finish(), vec![0xab]);
}

#[test]
fn bounded_int_of_three_takes_one_or_two_bits() {
    // Below a bound of three, 0 and 2 are the bit strings 00 and 01. A set
    // first bit can only be 1, as a second bit would make it 3 at least, so
    // 1 is the one bit 1.
    assert_eq!(written(|w| w.write_int(0, 3).unwrap()), vec![0b00]);
    assert_eq!(written(|w| w.write_int(1, 3).unwrap()), vec![0b01]);
    assert_eq!(written(|w| w.write_int(2, 3).unwrap()), vec![0b10]);
    let one = written(|w| {
        w.write_int(1, 3).unwrap();
        w.write_bit(true);
    });
    assert_eq!(one, vec![0b11]);
    let two = written(|w| {
        w.write_int(2, 3).unwrap();
        w.write_bit(true);
    });
    assert_eq!(two, vec![0b110]);
    let mut writer = BitWriter::new(Vec::new());
    writer.write_int(0, 3).unwrap();
    writer.write_int(1, 3).unwrap();
    writer.write_int(2, 3).unwrap();
    // 00 1 01, lowest bit first
    assert_eq!(writer.finish(), vec![0b0001_0100]);
    let mut reader = BitReader::new(vec![0b0001_0100]);
    assert_eq!(reader.read_int(3), Ok(0));
    assert_eq!(reader.read_int(3), Ok(1));
    assert_eq!(reader.read_int(3), Ok(2));
    assert_eq!(reader.position(), (0, 5));
}

#[test]
fn bounded_int_of_four_takes_two_bits() {
    let bytes = written(|w| {
        for v in 0..4 {
            w.write_int(v, 4).unwrap();
        }
    });
    // 00 10 01 11, lowest bit first
    assert_eq!(bytes, vec![0b1110_0100]);
    let mut reader = BitReader::new(bytes);
    for v in 0..4 {
        assert_eq!(reader.read_int(4), Ok(v));
    }
}

#[test]
fn bounded_int_of_24_takes_four_or_five_bits() {
    // Values from 8 to 15 have their fourth bit set, and then no fifth bit
    // could stay below 24.
    let short = written(|w| {
        w.write_int(9, 24).unwrap();
        w.write_bit(true);
    });
    assert_eq!(short, vec![0b0001_1001]);
    let long = written(|w| {
        w.write_int(16, 24).unwrap();
        w.write_bit(true);
    });
    assert_eq!(long, vec![0b0011_0000]);
}

#[test]
fn bounded_int_comes_back() {
    for max in [2u32, 3, 5, 24, 255, 256, 1000, u32::MAX] {
        for value in [0u32, 1, 2, 4, 23, 254, 999, u32::MAX - 1] {
            if value >= max {
                continue;
            }
            let bytes = written(|w| w.write_int(value, max).unwrap());
            let mut reader = BitReader::new(bytes);
            assert_eq!(reader.read_int(max), Ok(value), "{} below {}", value, max);
        }
    }
}

#[test]
fn bounded_int_refuses_a_value_at_its_bound() {
    let mut writer = BitWriter::new(Vec::new());
    assert_eq!(writer.write_int(3, 3), Err(Error::InvalidInput));
    assert_eq!(writer.write_int(7, 2), Err(Error::InvalidInput));
    assert_eq!(writer.finish(), Vec::<u8>::new());
}

#[test]
fn read_int_below_two_reads_nothing() {
    let mut reader = BitReader::new(vec![0xff]);
    assert_eq!(reader.read_int(0), Ok(0));
    assert_eq!(reader.read_int(1), Ok(0));
    assert_eq!(reader.read_bit(), Ok(true));
}

#[test]
fn packed_int_takes_a_byte_for_every_seven_bits() {
    let cases: [(u32, usize); 9] = [
        (0, 1),
        (1, 1),
        (127, 1),
        (128, 2),
        (16_383, 2),
        (16_384, 3),
        (2_097_152, 4),
        (268_435_456, 5),
        (u32::MAX, 5),
    ];
    for (value, len) in cases {
        let bytes = written(|w| w.write_int_packed(value));
        assert_eq!(bytes.len(), len, "{}", value);
        let mut reader = BitReader::new(bytes);
        assert_eq!(reader.read_int_packed(), Ok(value));
    }
}

#[test]
fn packed_int_puts_the_flag_below_the_payload() {
    assert_eq!(written(|w| w.write_int_packed(0)), vec![0]);
    assert_eq!(written(|w| w.write_int_packed(1)), vec![0b0000_0010]);
    assert_eq!(written(|w| w.write_int_packed(3)), vec![0b0000_0110]);
    // 300 = 0b10_0101100: the low seven bits behind a set flag, then 2.
    assert_eq!(written(|w| w.write_int_packed(300)), vec![0b0101_1001, 0b0000_0100]);
}

#[test]
fn packed_int_drops_what_does_not_fit_in_32_bits() {
    // Five groups with every payload bit set spell 35 bits.
    let mut reader = BitReader::new(vec![0xff, 0xff, 0xff, 0xff, 0xfe]);
    assert_eq!(reader.read_int_packed(), Ok(u32::MAX));
    // A set flag on the fifth group is not followed up.
    let mut reader = BitReader::new(vec![0xff, 0xff, 0xff, 0xff, 0xff, 0x01]);
    assert_eq!(reader.read_int_packed(), Ok(u32::MAX));
    assert_eq!(reader.read_bit(), Ok(true));
}

#[test]
fn packed_position_has_its_sign_in_the_lowest_bit() {
    // 1 is twice one plus one, -1 is twice one, and 0 is 0.
    let vector = written(|w| w.write_int_vector_packed((1, -1, 0)).unwrap());
    let varints = written(|w| w.write_positive_int_vector_packed((3, 2, 0)));
    assert_eq!(vector, varints);
    assert_eq!(vector, vec![0b0000_0110, 0b0000_0100, 0]);
    let mut reader = BitReader::new(vector);
    assert_eq!(reader.read_int_vector_packed(), Ok((1, -1, 0)));
}

#[test]
fn signed_vector_comes_back() {
    let cases = [
        (0, 0, 0),
        (1, 2, 3),
        (-1, -2, -3),
        (i32::MAX, -i32::MAX, 1_000_000),
        (-64, 63, 64),
    ];
    for v in cases {
        let bytes = written(|w| w.write_int_vector_packed(v).unwrap());
        let mut reader = BitReader::new(bytes);
        assert_eq!(reader.read_int_vector_packed(), Ok(v));
    }
}

#[test]
fn a_positive_zero_reads_as_zero() {
    // The code 1 is a zero with the sign of a positive number.
    let bytes = written(|w| w.write_positive_int_vector_packed((1, 1, 1)));
    let mut reader = BitReader::new(bytes);
    assert_eq!(reader.read_int_vector_packed(), Ok((0, 0, 0)));
}

#[test]
fn signed_vector_refuses_the_lowest_number() {
    let mut writer = BitWriter::new(Vec::new());
    assert_eq!(writer.write_int_vector_packed((0, i32::MIN, 0)), Err(Error::InvalidInput));
    assert_eq!(writer.write_int_vector_packed((i32::MIN, 0, 0)), Err(Error::InvalidInput));
    assert_eq!(writer.write_int_vector_packed((0, 0, i32::MIN)), Err(Error::InvalidInput));
    assert_eq!(writer.finish(), Vec::<u8>::new());
}

#[test]
fn unsigned_vector_comes_back() {
    let v = (0, 200, u32::MAX);
    let bytes = written(|w| w.write_positive_int_vector_packed(v));
    let mut reader = BitReader::new(bytes);
    assert_eq!(reader.read_positive_int_vector_packed(), Ok(v));
}

#[test]
fn write_bits_takes_the_first_bits_of_its_source() {
    let src = [0b1010_1010u8, 0b0000_0111];
    for write in [0usize, 1, 2] {
        let bytes = written(|w| match write {
            0 => w.write_bits(&src, 11),
            1 => w.write_bits_naive(11, &src),
            _ => w.write_bits_basic(11, &src),
        });
        assert_eq!(bytes, vec![0b1010_1010, 0b0000_0111]);
    }
    let bytes = written(|w| w.write_bits(&src, 9));
    assert_eq!(bytes, vec![0b1010_1010, 0b0000_0001]);
}

#[test]
fn write_bits_works_across_bytes() {
    let src = [0xffu8, 0x00, 0xa5];
    for write in [0usize, 1, 2] {
        let bytes = written(|w| {
            w.write_bit(false);
            w.write_bit(true);
            w.write_bit(true);
            match write {
                0 => w.write_bits(&src, 24),
                1 => w.write_bits_naive(24, &src),
                _ => w.write_bits_basic(24, &src),
            }
        });
        let mut reader = BitReader::new(bytes);
        assert_eq!(reader.read_value(3), Ok(0b110));
        assert_eq!(reader.read_value(8), Ok(0xff));
        assert_eq!(reader.read_value(8), Ok(0x00));
        assert_eq!(reader.read_value(8), Ok(0xa5));
    }
}

#[test]
fn write_byte_works_at_any_offset() {
    for offset in 0..8 {
        let bytes = written(|w| {
            for _ in 0..offset {
                w.write_bit(true);
            }
            w.write_byte(0b1001_0110);
            w.write_byte(0xff);
        });
        let mut reader = BitReader::new(bytes);
        reader.skip(offset).unwrap();
        assert_eq!(reader.read_value(8), Ok(0b1001_0110));
        assert_eq!(reader.read_value(8), Ok(0xff));
    }
}

#[test]
fn write_byte_partial_takes_the_low_bits() {
    for offset in 0..8 {
        for bits in 0..8usize {
            let bytes = written(|w| {
                for _ in 0..offset {
                    w.write_bit(false);
                }
                w.write_byte_partial(bits, 0b1111_0101);
                w.write_bit(true);
            });
            let mut reader = BitReader::new(bytes);
            reader.skip(offset).unwrap();
            let mask = (1u64 << bits) - 1;
            assert_eq!(reader.read_value(bits as u8), Ok(0b1111_0101 & mask));
            assert_eq!(reader.read_bit(), Ok(true));
        }
    }
}

#[test]
fn write_value_takes_the_low_bits() {
    let bytes = written(|w| w.write_value(0xffff_ffff_1234_5678, 32));
    assert_eq!(bytes, vec![0x78, 0x56, 0x34, 0x12]);
    let bytes = written(|w| w.write_value(0b1011, 3));
    assert_eq!(bytes, vec![0b011]);
}

#[test]
fn write_appends_whole_bytes() {
    let bytes = written(|w| {
        w.write_bit(true);
        w.write(&[0xff, 0x00]);
    });
    assert_eq!(bytes, vec![0xff, 0x01, 0x00]);
}

#[test]
fn reading_a_bit_past_the_end_fails() {
    let mut reader = BitReader::new(vec![0x01]);
    for expected in [true, false, false, false, false, false, false, false] {
        assert_eq!(reader.read_bit(), Ok(expected));
    }
    assert_eq!(reader.read_bit(), Err(Error::Io(IoError::UnexpectedEof)));
    assert_eq!(reader.read_bit(), Err(Error::Io(IoError::UnexpectedEof)));
}

#[test]
fn a_read_that_fails_leaves_the_reader_where_it_was() {
    let mut reader = BitReader::new(vec![0x03, 0x03]);
    assert_eq!(reader.read_bit(), Ok(true));
    // A second group is announced, and its last bit is missing.
    assert_eq!(reader.read_int_packed(), Err(Error::Io(IoError::UnexpectedEof)));
    assert_eq!(reader.position(), (0, 1));
    assert_eq!(reader.read_value(7), Ok(1));
    assert_eq!(reader.read_int(u32::MAX), Err(Error::Io(IoError::UnexpectedEof)));
    assert_eq!(reader.position(), (1, 0));
    assert_eq!(reader.read_int_vector_packed(), Err(Error::Io(IoError::UnexpectedEof)));
    assert_eq!(reader.read_positive_int_vector_packed(), Err(Error::Io(IoError::UnexpectedEof)));
    assert_eq!(reader.read_value(9), Err(Error::Io(IoError::UnexpectedEof)));
    assert_eq!(reader.skip(9), Err(Error::Io(IoError::UnexpectedEof)));
    assert_eq!(reader.position(), (1, 0));
    assert_eq!(reader.read_value(8), Ok(3));
}

#[test]
fn skip_moves_by_bits() {
    let mut reader = BitReader::new(vec![0x00, 0x04, 0xff]);
    assert_eq!(reader.skip(10), Ok(()));
    assert_eq!(reader.read_bit(), Ok(true));
    assert_eq!(reader.skip(13), Ok(()));
    assert_eq!(reader.skip(1), Err(Error::Io(IoError::UnexpectedEof)));
    assert_eq!(reader.skip(0), Ok(()));
}

#[test]
fn eat_byte_align_moves_to_the_next_byte() {
    let mut reader = BitReader::new(vec![0xff, 0x02]);
    reader.eat_byte_align();
    assert_eq!(reader.position(), (0, 0));
    reader.read_bit().unwrap();
    reader.eat_byte_align();
    assert_eq!(reader.position(), (1, 0));
    assert_eq!(reader.read_value(8), Ok(2));
    reader.eat_byte_align();
    assert_eq!(reader.position(), (2, 0));
}

#[test]
fn read_bits_packs_bits_into_bytes() {
    let mut reader = BitReader::new(vec![0b1010_1010, 0b0101_0101, 0xff]);
    reader.skip(1).unwrap();
    let mut dst = vec![0xeeu8; 3];
    assert_eq!(reader.read_bits(&mut dst, 11), Ok(()));
    // The stream from its second bit on: 1010101 1010101 0 ...
    assert_eq!(dst, vec![0b1101_0101, 0b0000_0010, 0xee]);
    assert_eq!(reader.position(), (1, 4));
    let mut dst = vec![0u8; 2];
    assert_eq!(reader.read_bits(&mut dst, 13), Err(Error::Io(IoError::UnexpectedEof)));
    assert_eq!(dst, vec![0, 0]);
    assert_eq!(reader.position(), (1, 4));
}

#[test]
fn read_fills_its_buffer() {
    let mut reader = BitReader::new(vec![1, 2, 3]);
    let mut dst = vec![0u8; 2];
    assert_eq!(reader.read(&mut dst), Ok(2));
    assert_eq!(dst, vec![1, 2]);
    assert_eq!(reader.read(&mut dst), Err(Error::Io(IoError::UnexpectedEof)));
    let mut one = vec![0u8; 1];
    assert_eq!(reader.read(&mut one), Ok(1));
    assert_eq!(one, vec![3]);
    let mut none: Vec<u8> = Vec::new();
    assert_eq!(reader.read(&mut none), Ok(0));
}

#[test]
fn read_works_off_a_byte_boundary() {
    let mut reader = BitReader::new(vec![0xf0, 0x0f, 0x01]);
    reader.skip(4).unwrap();
    let mut dst = vec![0u8; 2];
    assert_eq!(reader.read(&mut dst), Ok(2));
    assert_eq!(dst, vec![0xff, 0x10]);
}

#[test]
fn a_reader_hands_its_buffer_back() {
    let mut reader = BitReader::new(vec![4, 5]);
    reader.read_bit().unwrap();
    assert_eq!(reader.into_inner(), vec![4, 5]);
}
