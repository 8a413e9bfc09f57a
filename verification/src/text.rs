//! Strings as they lie in a file.
//!
//! A string is a signed 32-bit length and a payload that ends in a null
//! terminator, which the length counts. A length that is not negative
//! announces that many bytes of UTF-8, and is written for strings of ASCII.
//! A negative length announces 16-bit units, least significant byte first.
//! It counts the units, the terminator among them, and not the bytes that
//! they take: a string of three such characters has the length -4, and
//! eight bytes follow it.

use crate::error::{Error, IoError};
use crate::wire::{
    le_bytes, le_value, lemma_le_bytes_len, lemma_lies_at_split, lemma_parse_int, lies_at,
    parse_bytes, parse_int, read_i32, read_u16, twos, write_i32, write_u16,
};
use vstd::arithmetic::power2::lemma2_to64;
use vstd::prelude::*;
use vstd::utf8::{
    decode_utf8, encode_utf8, encode_utf8_decode_utf8, encode_utf8_valid_utf8, is_ascii_chars,
    is_ascii_chars_encode_utf8, valid_utf8,
};

verus! {

/// Whether `unit` is one half of a surrogate pair.
pub open spec fn is_surrogate(unit: u16) -> bool {
    0xD800 <= unit <= 0xDFFF
}

/// The characters that `units` encode in UTF-16, if they are well formed: a
/// unit that is no surrogate stands for itself, and a high surrogate and the
/// low one behind it stand for one character beyond the first 65536.
pub open spec fn decode_utf16(units: Seq<u16>) -> Option<Seq<char>>
    decreases units.len(),
{
    if units.len() == 0 {
        Some(Seq::empty())
    } else if !is_surrogate(units[0]) {
        match decode_utf16(units.skip(1)) {
            Some(rest) => Some(seq![units[0] as char] + rest),
            None => None,
        }
    } else if units[0] <= 0xDBFF && units.len() >= 2 && 0xDC00 <= units[1] <= 0xDFFF {
        let scalar = 0x1_0000 + (units[0] - 0xD800) * 0x400 + (units[1] - 0xDC00);
        match decode_utf16(units.skip(2)) {
            Some(rest) => Some(seq![scalar as char] + rest),
            None => None,
        }
    } else {
        None
    }
}

/// `String::from_utf8` of std: a string of the characters that `bytes`
/// encode, if and only if `bytes` are valid UTF-8.
#[verifier::external_body]
fn string_from_utf8(bytes: Vec<u8>) -> (text: Option<String>)
    ensures
        text is Some <==> valid_utf8(bytes@),
        text matches Some(s) ==> s@ == decode_utf8(bytes@),
{
    String::from_utf8(bytes).ok()
}

/// `String::from_utf16` of std: a string of the characters that `units`
/// encode, if and only if `units` are well-formed UTF-16.
#[verifier::external_body]
fn string_from_utf16(units: &Vec<u16>) -> (text: Option<String>)
    ensures
        text is Some <==> decode_utf16(units@) is Some,
        text matches Some(s) ==> decode_utf16(units@) == Some(s@),
{
    String::from_utf16(units).ok()
}

/// `String::pop` of std: takes the last character off the string and hands
/// it out, or hands out nothing where the string is empty.
#[verifier::external_body]
fn string_pop(text: &mut String) -> (last: Option<char>)
    ensures
        old(text)@.len() == 0 ==> last is None && final(text)@ == old(text)@,
        old(text)@.len() > 0 ==> last == Some(old(text)@.last()) && final(text)@ == old(text)@
            .drop_last(),
{
    text.pop()
}

/// `String::push` of std: puts one character at the end of the string.
#[verifier::external_body]
pub(crate) fn string_push(text: &mut String, c: char)
    ensures
        final(text)@ == old(text)@.push(c),
{
    text.push(c)
}

/// The characters of a string without the last one, which is its terminator.
pub open spec fn without_terminator(chars: Seq<char>) -> Seq<char> {
    if chars.len() == 0 {
        chars
    } else {
        chars.drop_last()
    }
}

/// Whether every character lies among the first 65536, so that one 16-bit
/// unit holds it.
pub open spec fn is_bmp(chars: Seq<char>) -> bool {
    forall|i: int| 0 <= i < chars.len() ==> (#[trigger] chars[i]) as u32 <= 0xFFFF
}

/// The 16-bit units of characters that each fit in one.
pub open spec fn ucs2_units(chars: Seq<char>) -> Seq<u16> {
    Seq::new(chars.len(), |i: int| chars[i] as u32 as u16)
}

/// The bytes of a run of 16-bit units, each least significant byte first.
pub open spec fn units_bytes(units: Seq<u16>) -> Seq<u8> {
    Seq::new(
        2 * units.len(),
        |i: int|
            if i % 2 == 0 {
                (units[i / 2] % 256) as u8
            } else {
                (units[i / 2] / 256) as u8
            },
    )
}

/// The 16-bit units that a run of bytes spells, each least significant byte
/// first. A last byte without a partner is left out.
pub open spec fn bytes_units(bytes: Seq<u8>) -> Seq<u16> {
    Seq::new((bytes.len() / 2) as nat, |i: int| (bytes[2 * i] + 256 * bytes[2 * i + 1]) as u16)
}

/// The payload of a string and the length that announces it: the string and
/// its terminator in UTF-8 if the string is ASCII, in 16-bit units if not.
/// A string with a character that no single unit holds cannot be written,
/// nor one whose length does not fit.
pub open spec fn string_bytes(s: Seq<char>) -> Result<Seq<u8>, Error> {
    if is_ascii_chars(s) {
        if s.len() + 1 > i32::MAX {
            Err(Error::InvalidInput)
        } else {
            Ok(le_bytes(twos((s.len() + 1) as int, 32), 4) + encode_utf8(s.push('\0')))
        }
    } else if !is_bmp(s) {
        Err(Error::InvalidString)
    } else if s.len() + 1 > 0x8000_0000 {
        Err(Error::InvalidInput)
    } else {
        Ok(le_bytes(twos(-(s.len() + 1), 32), 4) + units_bytes(ucs2_units(s.push('\0'))))
    }
}

/// The string that the input holds at `pos`. A length that is not
/// negative counts the bytes that follow, a negative one the 16-bit units,
/// each of which takes two bytes.
pub open spec fn parse_string(input: Seq<u8>, pos: int) -> Result<(Seq<char>, int), Error> {
    match parse_int(input, pos, 4) {
        Err(e) => Err(e),
        Ok((len, start)) => if len >= 0 {
            match parse_bytes(input, start, len as nat) {
                Err(e) => Err(e),
                Ok((raw, next)) => if valid_utf8(raw) {
                    Ok((without_terminator(decode_utf8(raw)), next))
                } else {
                    Err(Error::InvalidString)
                },
            }
        } else {
            match parse_bytes(input, start, (2 * (-len)) as nat) {
                Err(e) => Err(e),
                Ok((raw, next)) => match decode_utf16(bytes_units(raw)) {
                    Some(chars) => Ok((without_terminator(chars), next)),
                    None => Err(Error::InvalidString),
                },
            }
        },
    }
}

/// Characters that each fit in a unit come back from their units.
pub proof fn lemma_decode_ucs2(chars: Seq<char>)
    requires
        is_bmp(chars),
    ensures
        decode_utf16(ucs2_units(chars)) == Some(chars),
    decreases chars.len(),
{
    let units = ucs2_units(chars);
    if chars.len() > 0 {
        let rest = chars.skip(1);
        assert(is_bmp(rest)) by {
            assert forall|i: int| 0 <= i < rest.len() implies (#[trigger] rest[i]) as u32
                <= 0xFFFF by {
                assert(rest[i] == chars[i + 1]);
            }
        }
        lemma_decode_ucs2(rest);
        assert(units.skip(1) =~= ucs2_units(rest));
        let c = chars[0];
        vstd::utf8::char_is_scalar(c);
        vstd::utf8::char_u32_cast(c, c as u32);
        assert(c as u32 <= 0xFFFF);
        assert(units[0] == c as u32 as u16);
        assert(units[0] as u32 == c as u32);
        assert(!is_surrogate(units[0]));
        assert(units[0] as char == c);
        assert(seq![c] + rest =~= chars);
    } else {
        assert(chars =~= Seq::<char>::empty());
    }
}

/// Units come back from their bytes.
pub proof fn lemma_bytes_units(units: Seq<u16>)
    ensures
        units_bytes(units).len() == 2 * units.len(),
        bytes_units(units_bytes(units)) == units,
{
    let bytes = units_bytes(units);
    assert forall|i: int| 0 <= i < units.len() implies bytes_units(bytes)[i] == units[i] by {
        assert((2 * i) / 2 == i && (2 * i) % 2 == 0);
        assert((2 * i + 1) / 2 == i && (2 * i + 1) % 2 == 1);
    }
    assert(bytes_units(bytes) =~= units);
}

/// A string that can be written is read back from its bytes as it was.
pub proof fn lemma_parse_string(input: Seq<u8>, pos: int, s: Seq<char>)
    requires
        string_bytes(s) is Ok,
        lies_at(input, pos, string_bytes(s)->Ok_0),
    ensures
        parse_string(input, pos) == Ok::<(Seq<char>, int), Error>(
            (s, pos + string_bytes(s)->Ok_0.len()),
        ),
{
    lemma2_to64();
    let whole = s.push('\0');
    assert(without_terminator(whole) =~= s);
    if is_ascii_chars(s) {
        let prefix = le_bytes(twos((s.len() + 1) as int, 32), 4);
        let payload = encode_utf8(whole);
        lemma_le_bytes_len(twos((s.len() + 1) as int, 32), 4);
        lemma_lies_at_split(input, pos, prefix, payload);
        lemma_parse_int(input, pos, (s.len() + 1) as int, 4);
        assert(is_ascii_chars(whole));
        is_ascii_chars_encode_utf8(whole);
        encode_utf8_valid_utf8(whole);
        encode_utf8_decode_utf8(whole);
    } else {
        let len = -(s.len() + 1);
        let prefix = le_bytes(twos(len, 32), 4);
        let units = ucs2_units(whole);
        let payload = units_bytes(units);
        lemma_le_bytes_len(twos(len, 32), 4);
        lemma_lies_at_split(input, pos, prefix, payload);
        lemma_parse_int(input, pos, len, 4);
        lemma_bytes_units(units);
        assert(is_bmp(whole));
        lemma_decode_ucs2(whole);
    }
}

/// Reads a string: its length, its payload, and off with the terminator.
pub fn read_string(input: &[u8], pos: usize) -> (result: Result<(String, usize), Error>)
    ensures
        match result {
            Ok((text, next)) => parse_string(input@, pos as int) == Ok::<(Seq<char>, int), Error>(
                (text@, next as int),
            ),
            Err(e) => parse_string(input@, pos as int) == Err::<(Seq<char>, int), Error>(e),
        },
{
    let (len, start) = match read_i32(input, pos) {
        Ok(found) => found,
        Err(e) => {
            return Err(e);
        },
    };
    if len >= 0 {
        let count: usize = len as usize;
        if count > input.len() - start {
            return Err(Error::Io(IoError::UnexpectedEof));
        }
        let raw = vstd::slice::slice_to_vec(
            vstd::slice::slice_subrange(input, start, start + count),
        );
        match string_from_utf8(raw) {
            Some(text) => {
                let mut text = text;
                string_pop(&mut text);
                Ok((text, start + count))
            },
            None => Err(Error::InvalidString),
        }
    } else {
        let announced: u64 = (-(len as i64)) as u64;
        if announced > ((input.len() - start) / 2) as u64 {
            return Err(Error::Io(IoError::UnexpectedEof));
        }
        let count: usize = announced as usize;
        let ghost size = 2 * count;
        let ghost raw = input@.subrange(start as int, start + size);
        let mut units: Vec<u16> = Vec::new();
        let mut index: usize = 0;
        while index < count
            invariant
                index <= count,
                size == 2 * count,
                start + size <= input@.len() <= usize::MAX,
                raw == input@.subrange(start as int, start + size),
                units@.len() == index,
                forall|i: int| 0 <= i < index ==> units@[i] == bytes_units(raw)[i],
            decreases count - index,
        {
            proof {
                reveal_with_fuel(le_value, 3);
                let pair = input@.subrange(start + 2 * index, start + 2 * index + 2);
                assert(pair[0] == raw[2 * index]);
                assert(pair[1] == raw[2 * index + 1]);
                assert(pair.skip(1)[0] == pair[1]);
                assert(pair.skip(1).skip(1).len() == 0);
            }
            match read_u16(input, start + 2 * index) {
                Ok((unit, _)) => {
                    units.push(unit);
                },
                Err(e) => {
                    return Err(e);
                },
            }
            index = index + 1;
        }
        assert(units@ =~= bytes_units(raw));
        match string_from_utf16(&units) {
            Some(text) => {
                let mut text = text;
                string_pop(&mut text);
                Ok((text, start + 2 * count))
            },
            None => Err(Error::InvalidString),
        }
    }
}

/// Appends a string: as ASCII if it is ASCII, and else in 16-bit units.
/// Nothing is appended where the string cannot be written.
pub fn write_string(out: &mut Vec<u8>, text: &str) -> (result: Result<(), Error>)
    ensures
        match string_bytes(text@) {
            Ok(bytes) => result is Ok && final(out)@ == old(out)@ + bytes,
            Err(e) => result == Err::<(), Error>(e) && final(out)@ == old(out)@,
        },
{
    broadcast use vstd::string::group_string_axioms;

    let ghost before = out@;
    let ghost whole = text@.push('\0');
    if text.is_ascii() {
        let bytes = text.as_bytes();
        let len: usize = bytes.len();
        proof {
            is_ascii_chars_encode_utf8(text@);
            assert(is_ascii_chars(whole));
            is_ascii_chars_encode_utf8(whole);
            assert(encode_utf8(whole) =~= encode_utf8(text@).push(0u8)) by {
                assert forall|i: int| 0 <= i < text@.len() implies encode_utf8(whole)[i]
                    == encode_utf8(text@)[i] by {
                    assert(whole[i] == text@[i]);
                }
                assert(whole[text@.len() as int] == '\0');
            }
        }
        if len >= 0x7fff_ffff {
            return Err(Error::InvalidInput);
        }
        write_i32(out, (len + 1) as i32);
        let mut index: usize = 0;
        let ghost prefix = le_bytes(twos((len + 1) as int, 32), 4);
        assert(out@ =~= before + prefix + bytes@.subrange(0, 0));
        while index < len
            invariant
                index <= len == bytes@.len(),
                out@ == before + prefix + bytes@.subrange(0, index as int),
            decreases len - index,
        {
            out.push(bytes[index]);
            index = index + 1;
            assert(out@ =~= before + prefix + bytes@.subrange(0, index as int));
        }
        out.push(0);
        assert(out@ =~= before + (prefix + encode_utf8(whole)));
        Ok(())
    } else {
        let mut units: Vec<u16> = Vec::new();
        for c in it: text.chars()
            invariant
                it.seq() == text@,
                units@.len() == it.index(),
                forall|i: int| 0 <= i < units@.len() ==> (#[trigger] text@[i]) as u32 <= 0xFFFF,
                forall|i: int| 0 <= i < units@.len() ==> units@[i] == text@[i] as u32 as u16,
                out@ == before,
        {
            let code: u32 = c as u32;
            if code > 0xFFFF {
                assert(!is_bmp(text@));
                return Err(Error::InvalidString);
            }
            units.push(code as u16);
        }
        assert(is_bmp(text@));
        let count: usize = units.len();
        if count >= 0x8000_0000 {
            return Err(Error::InvalidInput);
        }
        let announced: i32 = if count == 0x7fff_ffff {
            i32::MIN
        } else {
            -((count + 1) as i32)
        };
        write_i32(out, announced);
        let ghost prefix = le_bytes(twos(-(count + 1), 32), 4);
        let ghost all = ucs2_units(whole);
        assert(units@.push(0u16) =~= all);
        let mut index: usize = 0;
        assert(out@ =~= before + prefix + units_bytes(all).subrange(0, 0));
        while index < count
            invariant
                index <= count == units@.len(),
                all == units@.push(0u16),
                out@ == before + prefix + units_bytes(all).subrange(0, 2 * index),
            decreases count - index,
        {
            let unit: u16 = units[index];
            proof {
                reveal_with_fuel(le_bytes, 3);
                assert((2 * index) / 2 == index && (2 * index) % 2 == 0);
                assert((2 * index + 1) / 2 == index && (2 * index + 1) % 2 == 1);
                assert(le_bytes(unit as nat, 2) =~= seq![(unit % 256) as u8, (unit / 256) as u8]);
                assert(units_bytes(all).subrange(0, 2 * index) + le_bytes(unit as nat, 2)
                    =~= units_bytes(all).subrange(0, 2 * (index + 1)));
            }
            write_u16(out, unit);
            index = index + 1;
            assert(out@ =~= before + prefix + units_bytes(all).subrange(0, 2 * index));
        }
        proof {
            reveal_with_fuel(le_bytes, 3);
            assert(le_bytes(0, 2) =~= seq![0u8, 0u8]);
            assert((2 * count) / 2 == count && (2 * count) % 2 == 0);
            assert((2 * count + 1) / 2 == count && (2 * count + 1) % 2 == 1);
            assert(units_bytes(all).subrange(0, 2 * count) + le_bytes(0, 2) =~= units_bytes(all));
        }
        write_u16(out, 0);
        assert(out@ =~= before + (prefix + units_bytes(all)));
        Ok(())
    }
}

} // verus!
