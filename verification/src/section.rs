//! Compressed sections.
//!
//! A section is two signed 32-bit lengths and a payload. The first length is
//! that of the data, the second that of the payload if the payload is the
//! data deflated with zlib, and zero if the payload is the data itself.
//!
//! A deflated payload has to hold exactly as many bytes as the first length
//! announces. To tell, a reader asks the stream for one byte more than that,
//! and refuses the section if the byte comes.
//!
//! Streams are made and read by outside code. What it makes is named here,
//! [`zlib_deflate`] and [`zlib_inflate`], and not spelt out: a name is the
//! stream, or nothing where the outside code fails. Nothing is taken for
//! granted of how the two go together: a writer reads each stream that it
//! has made, and stores the data itself where the data does not come back.

use crate::error::{Error, IoError};
use crate::wire::{
    le_bytes, lemma_le_bytes_len, lemma_lies_at_in_place, lemma_lies_at_split, lemma_parse_int,
    lies_at, parse_bytes, parse_int, read_i32, same_bytes, twos, write_i32,
};
use vstd::arithmetic::power2::lemma2_to64;
use vstd::prelude::*;

verus! {

/// The zlib stream that libflate's encoder makes of `data` at its default
/// options, or nothing where the encoder fails.
pub uninterp spec fn zlib_deflate(data: Seq<u8>) -> Option<Seq<u8>>;

/// What flate2's decoder makes of the zlib stream `packed`, as far as the
/// first `limit` bytes of it, or nothing where the decoder fails.
pub uninterp spec fn zlib_inflate(packed: Seq<u8>, limit: nat) -> Option<Seq<u8>>;

/// Whether the stream `packed` holds `data` and nothing behind it: whether
/// one byte more than `data` is asked of it, and `data` comes out.
pub open spec fn holds(packed: Seq<u8>, data: Seq<u8>) -> bool {
    zlib_inflate(packed, data.len() + 1) == Some(data)
}

/// Runs `data` through `libflate::zlib::Encoder` into a vector, and hands
/// on what the encoder gives, a stream or its failure. What it gives
/// depends on `data` alone. Nothing is said of what the stream holds.
#[verifier::external_body]
fn deflate(data: &[u8]) -> (packed: Option<Vec<u8>>)
    ensures
        match packed {
            Some(bytes) => zlib_deflate(data@) == Some(bytes@),
            None => zlib_deflate(data@) is None,
        },
{
    let mut encoder = libflate::zlib::Encoder::new(Vec::new()).ok()?;
    std::io::Write::write_all(&mut encoder, data).ok()?;
    encoder.finish().into_result().ok()
}

/// Reads `flate2::bufread::ZlibDecoder` over `packed` to its end, but no
/// further than `limit` bytes. What comes out depends on `packed` and
/// `limit` alone, and is no longer than `limit`.
#[verifier::external_body]
fn inflate(packed: &[u8], limit: usize) -> (data: Option<Vec<u8>>)
    ensures
        match data {
            Some(bytes) => zlib_inflate(packed@, limit as nat) == Some(bytes@) && bytes@.len()
                <= limit,
            None => zlib_inflate(packed@, limit as nat) is None,
        },
{
    let decoder = flate2::bufread::ZlibDecoder::new(packed);
    let mut data = Vec::new();
    std::io::Read::read_to_end(&mut std::io::Read::take(decoder, limit as u64), &mut data).ok()?;
    Some(data)
}

/// Whether a payload can be framed as a section: it is not empty, and its
/// length fits.
pub open spec fn frameable(data: Seq<u8>) -> bool {
    0 < data.len() < i32::MAX
}

/// The section that holds `data`, given the zlib stream `packed` that was
/// made of it: the stream if it is shorter than the data, else the data.
pub open spec fn framed(data: Seq<u8>, packed: Seq<u8>) -> Seq<u8> {
    if 0 < packed.len() < data.len() {
        le_bytes(twos(data.len() as int, 32), 4) + le_bytes(twos(packed.len() as int, 32), 4)
            + packed
    } else {
        le_bytes(twos(data.len() as int, 32), 4) + le_bytes(twos(0, 32), 4) + data
    }
}

/// The stream that a section of `data` is made of, given the stream
/// `packed` that was made of the data: `packed` itself if it is shorter
/// than the data and holds the data, and else none.
pub open spec fn proven(data: Seq<u8>, packed: Seq<u8>) -> Seq<u8> {
    if 0 < packed.len() < data.len() && holds(packed, data) {
        packed
    } else {
        Seq::empty()
    }
}

/// The section that holds `data`, where a stream is made of it: the
/// stream if it is shorter than the data and gives the data back, and else
/// the data.
pub open spec fn section_bytes(data: Seq<u8>) -> Option<Seq<u8>> {
    match zlib_deflate(data) {
        Some(packed) => Some(framed(data, proven(data, packed))),
        None => None,
    }
}

/// The two lengths of the section at `pos`, and where its payload starts.
pub open spec fn parse_section_header(input: Seq<u8>, pos: int) -> Result<(int, int, int), Error> {
    match parse_int(input, pos, 4) {
        Err(e) => Err(e),
        Ok((len, second)) => match parse_int(input, second, 4) {
            Err(e) => Err(e),
            Ok((packed_len, start)) => if len <= 0 || packed_len < 0 || packed_len >= len {
                Err(Error::InvalidCompressedSection)
            } else {
                Ok((len, packed_len, start))
            },
        },
    }
}

/// What a stream of a section whose first length is `len` holds: what
/// comes out of it, if that is exactly `len` bytes. A stream that holds
/// fewer or more is as bad as one that is no stream.
pub open spec fn inflated(packed: Seq<u8>, len: nat) -> Result<Seq<u8>, Error> {
    match zlib_inflate(packed, len + 1) {
        Some(data) => if data.len() == len {
            Ok(data)
        } else {
            Err(Error::Io(IoError::InvalidData))
        },
        None => Err(Error::Io(IoError::InvalidData)),
    }
}

/// The data of the section that the input holds at `pos`: as many bytes as
/// the first length announces, which are the payload itself where the
/// second length is zero, and else what the payload holds as a stream.
pub open spec fn parse_section(input: Seq<u8>, pos: int) -> Result<(Seq<u8>, int), Error> {
    match parse_section_header(input, pos) {
        Err(e) => Err(e),
        Ok((len, packed_len, start)) => if packed_len == 0 {
            parse_bytes(input, start, len as nat)
        } else {
            match parse_bytes(input, start, packed_len as nat) {
                Err(e) => Err(e),
                Ok((packed, next)) => match inflated(packed, len as nat) {
                    Ok(data) => Ok((data, next)),
                    Err(e) => Err(e),
                },
            }
        },
    }
}

/// Where the section that the input holds at `pos` ends.
pub open spec fn parse_section_end(input: Seq<u8>, pos: int) -> Result<int, Error> {
    match parse_section_header(input, pos) {
        Err(e) => Err(e),
        Ok((len, packed_len, start)) => match parse_bytes(
            input,
            start,
            if packed_len == 0 {
                len as nat
            } else {
                packed_len as nat
            },
        ) {
            Err(e) => Err(e),
            Ok((_, next)) => Ok(next),
        },
    }
}

/// The data of a section is as long as the first length of the section
/// announces, and the section ends where passing over it ends.
pub proof fn lemma_section_length(input: Seq<u8>, pos: int)
    ensures
        parse_section(input, pos) matches Ok((data, next)) ==> parse_section_header(input, pos)
            matches Ok((len, packed_len, _)) && data.len() == len && 0 <= packed_len < len
            && parse_section_end(input, pos) == Ok::<int, Error>(next),
{
}

/// A section whose stream is no shorter than its data holds the data
/// itself, behind its length and a zero.
pub proof fn lemma_section_raw(data: Seq<u8>)
    requires
        zlib_deflate(data) matches Some(packed) && packed.len() >= data.len(),
    ensures
        section_bytes(data) == Some(
            le_bytes(twos(data.len() as int, 32), 4) + le_bytes(0, 4) + data,
        ),
{
    lemma2_to64();
}

/// Data is read back as it was from the section that was made of it and of
/// a stream that gives it back.
pub proof fn lemma_parse_framed(input: Seq<u8>, pos: int, data: Seq<u8>, packed: Seq<u8>)
    requires
        frameable(data),
        0 < packed.len() < data.len() ==> holds(packed, data),
        lies_at(input, pos, framed(data, packed)),
    ensures
        parse_section(input, pos) == Ok::<(Seq<u8>, int), Error>(
            (data, pos + framed(data, packed).len()),
        ),
        parse_section_end(input, pos) == Ok::<int, Error>(pos + framed(data, packed).len()),
{
    lemma2_to64();
    let first = le_bytes(twos(data.len() as int, 32), 4);
    lemma_le_bytes_len(twos(data.len() as int, 32), 4);
    if 0 < packed.len() < data.len() {
        let second = le_bytes(twos(packed.len() as int, 32), 4);
        lemma_le_bytes_len(twos(packed.len() as int, 32), 4);
        lemma_lies_at_split(input, pos, first + second, packed);
        lemma_lies_at_split(input, pos, first, second);
        lemma_parse_int(input, pos, data.len() as int, 4);
        lemma_parse_int(input, pos + 4, packed.len() as int, 4);
    } else {
        let second = le_bytes(twos(0, 32), 4);
        lemma_le_bytes_len(twos(0, 32), 4);
        lemma_lies_at_split(input, pos, first + second, data);
        lemma_lies_at_split(input, pos, first, second);
        lemma_parse_int(input, pos, data.len() as int, 4);
        lemma_parse_int(input, pos + 4, 0, 4);
    }
}

/// Data is read back as it was from the section that holds it.
pub proof fn lemma_parse_section(input: Seq<u8>, pos: int, data: Seq<u8>)
    requires
        frameable(data),
        section_bytes(data) is Some,
        lies_at(input, pos, section_bytes(data)->Some_0),
    ensures
        parse_section(input, pos) == Ok::<(Seq<u8>, int), Error>(
            (data, pos + section_bytes(data)->Some_0.len()),
        ),
        parse_section_end(input, pos) == Ok::<int, Error>(
            pos + section_bytes(data)->Some_0.len(),
        ),
{
    lemma_parse_framed(input, pos, data, proven(data, zlib_deflate(data)->Some_0));
}

/// Reads the two lengths of a section.
fn read_section_header(input: &[u8], pos: usize) -> (result: Result<(usize, usize, usize), Error>)
    ensures
        match result {
            Ok((len, packed_len, start)) => parse_section_header(input@, pos as int) == Ok::<
                (int, int, int),
                Error,
            >((len as int, packed_len as int, start as int)) && len <= i32::MAX
                && start <= input@.len(),
            Err(e) => parse_section_header(input@, pos as int) == Err::<(int, int, int), Error>(e),
        },
{
    let (len, second) = match read_i32(input, pos) {
        Ok(found) => found,
        Err(e) => {
            return Err(e);
        },
    };
    let (packed_len, start) = match read_i32(input, second) {
        Ok(found) => found,
        Err(e) => {
            return Err(e);
        },
    };
    if len <= 0 || packed_len < 0 || packed_len >= len {
        return Err(Error::InvalidCompressedSection);
    }
    Ok((len as usize, packed_len as usize, start))
}

/// Reads a section and hands out its data.
pub fn read_section(input: &[u8], pos: usize) -> (result: Result<(Vec<u8>, usize), Error>)
    ensures
        match result {
            Ok((data, next)) => {
                &&& parse_section(input@, pos as int) == Ok::<(Seq<u8>, int), Error>(
                    (data@, next as int),
                )
                &&& parse_section_header(input@, pos as int) matches Ok((len, _, _))
                    && data@.len() == len
                &&& next <= input@.len()
                &&& data@.len() <= i32::MAX
            },
            Err(e) => parse_section(input@, pos as int) == Err::<(Seq<u8>, int), Error>(e),
        },
{
    let (len, packed_len, start) = match read_section_header(input, pos) {
        Ok(found) => found,
        Err(e) => {
            return Err(e);
        },
    };
    let count: usize = if packed_len == 0 {
        len
    } else {
        packed_len
    };
    if count > input.len() - start {
        return Err(Error::Io(IoError::UnexpectedEof));
    }
    let payload = vstd::slice::slice_subrange(input, start, start + count);
    if packed_len == 0 {
        Ok((vstd::slice::slice_to_vec(payload), start + count))
    } else {
        match inflate(payload, len + 1) {
            Some(data) => if data.len() == len {
                Ok((data, start + count))
            } else {
                Err(Error::Io(IoError::InvalidData))
            },
            None => Err(Error::Io(IoError::InvalidData)),
        }
    }
}

/// Passes over a section without looking into its payload, and says where
/// it ends.
pub fn skip_compressed(input: &[u8], pos: usize) -> (result: Result<usize, Error>)
    ensures
        match result {
            Ok(next) => parse_section_end(input@, pos as int) == Ok::<int, Error>(next as int)
                && next <= input@.len(),
            Err(e) => parse_section_end(input@, pos as int) == Err::<int, Error>(e),
        },
{
    let (len, packed_len, start) = match read_section_header(input, pos) {
        Ok(found) => found,
        Err(e) => {
            return Err(e);
        },
    };
    let count: usize = if packed_len == 0 {
        len
    } else {
        packed_len
    };
    if count > input.len() - start {
        return Err(Error::Io(IoError::UnexpectedEof));
    }
    Ok(start + count)
}

/// Appends the section that holds `data`, given the zlib stream `packed`
/// that was made of it. Data that is empty or too long for its length to be
/// written is refused, and nothing is appended.
pub fn put_section(out: &mut Vec<u8>, data: &[u8], packed: &[u8]) -> (result: Result<(), Error>)
    ensures
        !frameable(data@) ==> result == Err::<(), Error>(Error::InvalidInput) && final(out)@
            == old(out)@,
        frameable(data@) ==> result is Ok && final(out)@ == old(out)@ + framed(data@, packed@),
{
    let ghost before = out@;
    let len: usize = data.len();
    if len == 0 || len >= 0x7fff_ffff {
        return Err(Error::InvalidInput);
    }
    write_i32(out, len as i32);
    let payload: &[u8] = if 0 < packed.len() && packed.len() < len {
        write_i32(out, packed.len() as i32);
        packed
    } else {
        write_i32(out, 0);
        data
    };
    let ghost head = out@;
    let mut index: usize = 0;
    assert(out@ =~= head + payload@.subrange(0, 0));
    while index < payload.len()
        invariant
            index <= payload@.len(),
            out@ == head + payload@.subrange(0, index as int),
        decreases payload@.len() - index,
    {
        out.push(payload[index]);
        index = index + 1;
        assert(out@ =~= head + payload@.subrange(0, index as int));
    }
    assert(payload@.subrange(0, payload@.len() as int) =~= payload@);
    assert(out@ =~= before + framed(data@, packed@));
    Ok(())
}

/// Tries a stream that was made of `data`: hands it back if it is shorter
/// than the data and the data is read from it, and else hands back none.
fn prove(data: &[u8], packed: Vec<u8>) -> (kept: Vec<u8>)
    requires
        data@.len() < usize::MAX,
    ensures
        kept@ == proven(data@, packed@),
{
    if packed.len() == 0 || packed.len() >= data.len() {
        return Vec::new();
    }
    match inflate(packed.as_slice(), data.len() + 1) {
        Some(back) => if same_bytes(back.as_slice(), data) {
            packed
        } else {
            Vec::new()
        },
        None => Vec::new(),
    }
}

/// Appends the section that holds `data`: its stream if that is shorter
/// and gives the data back, and else the data itself. Data that is empty
/// or too long is refused. Any other data is written wherever a stream is
/// made of it, and the section then reads back as `data`. Nothing is
/// appended where nothing is written.
pub fn write_section(out: &mut Vec<u8>, data: &[u8]) -> (result: Result<(), Error>)
    ensures
        !frameable(data@) ==> result == Err::<(), Error>(Error::InvalidInput) && final(out)@
            == old(out)@,
        frameable(data@) ==> match section_bytes(data@) {
            Some(bytes) => {
                &&& result is Ok
                &&& final(out)@ == old(out)@ + bytes
                &&& parse_section(final(out)@, old(out)@.len() as int) == Ok::<
                    (Seq<u8>, int),
                    Error,
                >((data@, final(out)@.len() as int))
            },
            None => result == Err::<(), Error>(Error::Io(IoError::InvalidData)) && final(out)@
                == old(out)@,
        },
{
    let ghost before = out@;
    if data.len() == 0 || data.len() >= 0x7fff_ffff {
        return Err(Error::InvalidInput);
    }
    match deflate(data) {
        Some(packed) => {
            let kept = prove(data, packed);
            let result = put_section(out, data, kept.as_slice());
            proof {
                let bytes = section_bytes(data@)->Some_0;
                lemma_lies_at_in_place(before, bytes, Seq::<u8>::empty());
                assert(before + bytes + Seq::<u8>::empty() =~= out@);
                lemma_parse_section(out@, before.len() as int, data@);
            }
            result
        },
        None => Err(Error::Io(IoError::InvalidData)),
    }
}

} // verus!
