//! Compressed sections.

use brs::section::{put_section, read_section, skip_compressed, write_section};
use brs::{Error, IoError};

fn section(len: i32, packed_len: i32, payload: &[u8]) -> Vec<u8> {
    let mut bytes = Vec::new();
    bytes.extend_from_slice(&len.to_le_bytes());
    bytes.extend_from_slice(&packed_len.to_le_bytes());
    bytes.extend_from_slice(payload);
    bytes
}

#[test]
fn a_short_payload_is_stored_raw() {
    // Four bytes do not get shorter when deflated.
    let mut out = Vec::new();
    assert_eq!(write_section(&mut out, &[1, 2, 3, 4]), Ok(()));
    assert_eq!(out, vec![4, 0, 0, 0, 0, 0, 0, 0, 1, 2, 3, 4]);
    assert_eq!(read_section(&out, 0), Ok((vec![1, 2, 3, 4], 12)));
}

#[test]
fn a_raw_section_is_read_as_it_is() {
    let bytes = section(4, 0, &[9, 8, 7, 6]);
    assert_eq!(read_section(&bytes, 0), Ok((vec![9, 8, 7, 6], 12)));
    assert_eq!(skip_compressed(&bytes, 0), Ok(12));
}

#[test]
fn a_long_payload_is_deflated() {
    let data = vec![7u8; 1000];
    let mut out = vec![0xaa];
    assert_eq!(write_section(&mut out, &data), Ok(()));
    assert_eq!(out[0], 0xaa);
    assert_eq!(&out[1..5], &1000i32.to_le_bytes());
    let packed_len = i32::from_le_bytes([out[5], out[6], out[7], out[8]]);
    assert!(0 < packed_len && packed_len < 1000);
    assert_eq!(out.len(), 9 + packed_len as usize);
    // A zlib stream starts with its method and window in one byte.
    assert_eq!(out[9] & 0x0f, 8);
    assert_eq!(read_section(&out, 1), Ok((data, out.len())));
    assert_eq!(skip_compressed(&out, 1), Ok(out.len()));
}

#[test]
fn data_of_many_kinds_comes_back() {
    let mut mixed = Vec::new();
    for i in 0..5000u32 {
        mixed.push((i.wrapping_mul(2_654_435_761) >> 24) as u8);
        mixed.push((i % 7) as u8);
    }
    for data in [vec![0u8], vec![0u8; 9], b"hello hello hello hello hello".to_vec(), mixed] {
        let mut out = Vec::new();
        assert_eq!(write_section(&mut out, &data), Ok(()));
        assert_eq!(read_section(&out, 0), Ok((data, out.len())));
    }
}

#[test]
fn put_section_takes_the_shorter_of_stream_and_data() {
    let mut out = Vec::new();
    assert_eq!(put_section(&mut out, &[1, 2, 3, 4, 5], &[9, 9]), Ok(()));
    assert_eq!(out, vec![5, 0, 0, 0, 2, 0, 0, 0, 9, 9]);
    let mut out = Vec::new();
    assert_eq!(put_section(&mut out, &[1, 2, 3], &[9, 9, 9]), Ok(()));
    assert_eq!(out, vec![3, 0, 0, 0, 0, 0, 0, 0, 1, 2, 3]);
    let mut out = Vec::new();
    assert_eq!(put_section(&mut out, &[1, 2, 3], &[9, 9, 9, 9]), Ok(()));
    assert_eq!(out, vec![3, 0, 0, 0, 0, 0, 0, 0, 1, 2, 3]);
    // A stream of no bytes cannot be told from data that is stored raw.
    let mut out = Vec::new();
    assert_eq!(put_section(&mut out, &[1, 2, 3], &[]), Ok(()));
    assert_eq!(out, vec![3, 0, 0, 0, 0, 0, 0, 0, 1, 2, 3]);
}

#[test]
fn empty_data_cannot_be_framed() {
    let mut out = vec![1];
    assert_eq!(write_section(&mut out, &[]), Err(Error::InvalidInput));
    assert_eq!(put_section(&mut out, &[], &[1]), Err(Error::InvalidInput));
    assert_eq!(out, vec![1]);
}

#[test]
fn lengths_that_contradict_each_other_are_refused() {
    let cases = [(0, 0), (-1, 0), (4, -1), (4, 4), (4, 5), (i32::MIN, i32::MIN), (1, 1)];
    for (len, packed_len) in cases {
        let bytes = section(len, packed_len, &[0; 8]);
        assert_eq!(read_section(&bytes, 0), Err(Error::InvalidCompressedSection));
        assert_eq!(skip_compressed(&bytes, 0), Err(Error::InvalidCompressedSection));
    }
}

#[test]
fn a_section_that_is_cut_short_is_an_error() {
    let whole = section(4, 0, &[1, 2, 3, 4]);
    for len in 0..whole.len() {
        assert_eq!(read_section(&whole[..len], 0), Err(Error::Io(IoError::UnexpectedEof)));
        assert_eq!(skip_compressed(&whole[..len], 0), Err(Error::Io(IoError::UnexpectedEof)));
    }
    assert_eq!(read_section(&whole, 5), Err(Error::Io(IoError::UnexpectedEof)));
    assert_eq!(read_section(&whole, 12), Err(Error::Io(IoError::UnexpectedEof)));
    assert_eq!(read_section(&whole, 100), Err(Error::Io(IoError::UnexpectedEof)));
}

#[test]
fn a_stream_that_is_no_zlib_is_an_error() {
    let bytes = section(100, 4, &[1, 2, 3, 4]);
    assert_eq!(read_section(&bytes, 0), Err(Error::Io(IoError::InvalidData)));
    // Passing over it does not look into it.
    assert_eq!(skip_compressed(&bytes, 0), Ok(12));
}

#[test]
fn a_stream_that_holds_too_little_is_an_error() {
    let data = vec![3u8; 500];
    let mut out = Vec::new();
    write_section(&mut out, &data).unwrap();
    // Announce more data than the stream holds.
    out[0..4].copy_from_slice(&600i32.to_le_bytes());
    assert_eq!(read_section(&out, 0), Err(Error::Io(IoError::InvalidData)));
    out[0..4].copy_from_slice(&501i32.to_le_bytes());
    assert_eq!(read_section(&out, 0), Err(Error::Io(IoError::InvalidData)));
    // Passing over it does not look into it.
    assert_eq!(skip_compressed(&out, 0), Ok(out.len()));
}

#[test]
fn a_stream_that_holds_too_much_is_an_error() {
    let data = vec![3u8; 500];
    let mut out = Vec::new();
    write_section(&mut out, &data).unwrap();
    assert_eq!(read_section(&out, 0), Ok((data, out.len())));
    // Announce less data than the stream holds.
    out[0..4].copy_from_slice(&499i32.to_le_bytes());
    assert_eq!(read_section(&out, 0), Err(Error::Io(IoError::InvalidData)));
    out[0..4].copy_from_slice(&400i32.to_le_bytes());
    assert_eq!(read_section(&out, 0), Err(Error::Io(IoError::InvalidData)));
}

#[test]
fn a_stream_that_is_cut_short_is_an_error() {
    let mut mixed = Vec::new();
    for i in 0..2000u32 {
        mixed.push((i.wrapping_mul(2_654_435_761) >> 24) as u8);
    }
    let mut out = Vec::new();
    write_section(&mut out, &mixed).unwrap();
    let packed_len = i32::from_le_bytes([out[4], out[5], out[6], out[7]]);
    assert!(packed_len > 20);
    // Drop the last ten bytes of the stream, and announce what is left.
    out.truncate(out.len() - 10);
    out[4..8].copy_from_slice(&(packed_len - 10).to_le_bytes());
    assert_eq!(read_section(&out, 0), Err(Error::Io(IoError::InvalidData)));
}

#[test]
fn a_long_run_of_empty_blocks_is_read() {
    let data = vec![7u8; 600_000];
    let mut out = Vec::new();
    write_section(&mut out, &data).unwrap();
    // Behind the two bytes that open the stream, put a hundred thousand
    // stored blocks that hold nothing.
    let mut stream = out[8..10].to_vec();
    for _ in 0..100_000 {
        stream.extend_from_slice(&[0x00, 0x00, 0x00, 0xff, 0xff]);
    }
    stream.extend_from_slice(&out[10..]);
    assert!(stream.len() < data.len());
    let bytes = section(600_000, stream.len() as i32, &stream);
    assert_eq!(read_section(&bytes, 0), Ok((data, bytes.len())));
}

#[test]
fn a_stream_with_a_wrong_checksum_is_an_error() {
    let data = vec![7u8; 1000];
    let mut out = Vec::new();
    write_section(&mut out, &data).unwrap();
    let last = out.len() - 1;
    out[last] ^= 0xff;
    assert_eq!(read_section(&out, 0), Err(Error::Io(IoError::InvalidData)));
}

#[test]
fn bytes_behind_the_end_of_a_stream_are_passed_over() {
    let data = vec![7u8; 1000];
    let mut out = Vec::new();
    write_section(&mut out, &data).unwrap();
    let packed_len = i32::from_le_bytes([out[4], out[5], out[6], out[7]]);
    out.extend_from_slice(&[1, 2, 3]);
    out[4..8].copy_from_slice(&(packed_len + 3).to_le_bytes());
    assert_eq!(read_section(&out, 0), Ok((data, out.len())));
}
