//! Numbers as they lie in a file: little-endian, signed ones in two's
//! complement.
//!
//! A parser here takes the whole input and a position in it, and gives the
//! value it found together with the position after it.

use crate::bit_reader::eof;
use crate::error::{Error, IoError};
use vstd::arithmetic::power2::{lemma2_to64, lemma2_to64_rest, lemma_pow2_adds, pow2};
use vstd::prelude::*;

verus! {

/// The `n` bytes of `v`, least significant first.
pub open spec fn le_bytes(v: nat, n: nat) -> Seq<u8>
    decreases n,
{
    if n == 0 {
        Seq::empty()
    } else {
        seq![(v % 256) as u8] + le_bytes(v / 256, (n - 1) as nat)
    }
}

/// The number that `bytes` spell, least significant first.
pub open spec fn le_value(bytes: Seq<u8>) -> nat
    decreases bytes.len(),
{
    if bytes.len() == 0 {
        0
    } else {
        bytes[0] as nat + 256 * le_value(bytes.skip(1))
    }
}

/// The number below two to the power of `width` that stands for `v` in
/// two's complement.
pub open spec fn twos(v: int, width: nat) -> nat {
    if v < 0 {
        (v + pow2(width)) as nat
    } else {
        v as nat
    }
}

/// The signed number that `code` stands for in two's complement of `width`
/// bits.
pub open spec fn untwos(code: nat, width: nat) -> int {
    if code >= pow2((width - 1) as nat) {
        code - pow2(width)
    } else {
        code as int
    }
}

/// The `n` bytes of a number are `n` bytes.
pub proof fn lemma_le_bytes_len(v: nat, n: nat)
    ensures
        le_bytes(v, n).len() == n,
    decreases n,
{
    if n > 0 {
        lemma_le_bytes_len(v / 256, (n - 1) as nat);
    }
}

/// The bytes of a number that fits in them spell that number.
pub proof fn lemma_le_value_of_bytes(v: nat, n: nat)
    requires
        v < pow2(8 * n),
    ensures
        le_value(le_bytes(v, n)) == v,
    decreases n,
{
    lemma2_to64();
    lemma_le_bytes_len(v, n);
    if n > 0 {
        lemma_pow2_adds(8, (8 * (n - 1)) as nat);
        lemma_le_value_of_bytes(v / 256, (n - 1) as nat);
        assert(le_bytes(v, n).skip(1) =~= le_bytes(v / 256, (n - 1) as nat));
    }
}

/// The number that bytes spell has those bytes.
pub proof fn lemma_le_bytes_of_value(bytes: Seq<u8>)
    ensures
        le_bytes(le_value(bytes), bytes.len()) == bytes,
    decreases bytes.len(),
{
    if bytes.len() == 0 {
        assert(le_bytes(le_value(bytes), 0) =~= bytes);
    } else {
        lemma_le_bytes_of_value(bytes.skip(1));
        assert(le_value(bytes) / 256 == le_value(bytes.skip(1)));
        assert(le_bytes(le_value(bytes), bytes.len()) =~= bytes);
    }
}

/// A signed number that fits in `width` bits comes back from its two's
/// complement.
pub proof fn lemma_twos_roundtrip(v: int, width: nat)
    requires
        width > 0,
        -pow2((width - 1) as nat) <= v < pow2((width - 1) as nat),
    ensures
        twos(v, width) < pow2(width),
        untwos(twos(v, width), width) == v,
{
    vstd::arithmetic::power2::lemma_pow2_unfold(width);
}

/// The four bytes of a color made of four channels are blue, green, red
/// and alpha, in this order.
pub proof fn lemma_color_bytes(r: u8, g: u8, b: u8, a: u8)
    ensures
        le_bytes(crate::save::rgba_value(r, g, b, a), 4) == seq![b, g, r, a],
{
    crate::save::lemma_color_channels(r, g, b, a);
    let v = crate::save::rgba_value(r, g, b, a);
    reveal_with_fuel(le_bytes, 5);
    assert(v / 256 / 256 == v / 0x1_0000);
    assert(v / 256 / 256 / 256 == v / 0x100_0000);
    assert(le_bytes(v, 4) =~= seq![b, g, r, a]);
}

/// Goes on with `rest` where `first` left off, or fails as `first` did.
pub open spec fn then<A, B>(
    first: Result<(A, int), Error>,
    rest: spec_fn(A, int) -> Result<(B, int), Error>,
) -> Result<(B, int), Error> {
    match first {
        Ok((value, next)) => rest(value, next),
        Err(e) => Err(e),
    }
}

/// The next `count` bytes of the input.
pub open spec fn parse_bytes(input: Seq<u8>, pos: int, count: nat) -> Result<
    (Seq<u8>, int),
    Error,
> {
    if 0 <= pos && pos + count <= input.len() {
        Ok((input.subrange(pos, pos + count), pos + count))
    } else {
        Err(eof())
    }
}

/// The unsigned number that the next `count` bytes spell.
pub open spec fn parse_uint(input: Seq<u8>, pos: int, count: nat) -> Result<(nat, int), Error> {
    match parse_bytes(input, pos, count) {
        Ok((bytes, next)) => Ok((le_value(bytes), next)),
        Err(e) => Err(e),
    }
}

/// The signed number that the next `count` bytes spell.
pub open spec fn parse_int(input: Seq<u8>, pos: int, count: nat) -> Result<(int, int), Error> {
    match parse_bytes(input, pos, count) {
        Ok((bytes, next)) => Ok((untwos(le_value(bytes), 8 * count), next)),
        Err(e) => Err(e),
    }
}

/// Whether `window` is what `input` holds from `pos` on.
pub open spec fn lies_at(input: Seq<u8>, pos: int, window: Seq<u8>) -> bool {
    &&& 0 <= pos
    &&& pos + window.len() <= input.len()
    &&& input.subrange(pos, pos + window.len()) == window
}

/// An input that holds two windows in a row holds each of them.
pub proof fn lemma_lies_at_split(input: Seq<u8>, pos: int, first: Seq<u8>, second: Seq<u8>)
    requires
        lies_at(input, pos, first + second),
    ensures
        lies_at(input, pos, first),
        lies_at(input, pos + first.len(), second),
{
    let whole = input.subrange(pos, pos + first.len() + second.len());
    assert((first + second).len() == first.len() + second.len());
    assert(whole == first + second);
    assert(input.subrange(pos, pos + first.len()) =~= whole.subrange(0, first.len() as int));
    assert(whole.subrange(0, first.len() as int) =~= first);
    assert(input.subrange(pos + first.len(), pos + first.len() + second.len()) =~= whole.subrange(
        first.len() as int,
        whole.len() as int,
    ));
    assert(whole.subrange(first.len() as int, whole.len() as int) =~= second);
}

/// An input holds what it was put together from.
pub proof fn lemma_lies_at_in_place(before: Seq<u8>, window: Seq<u8>, after: Seq<u8>)
    ensures
        lies_at(before + window + after, before.len() as int, window),
{
    assert((before + window + after).subrange(
        before.len() as int,
        before.len() as int + window.len(),
    ) =~= window);
}

/// An unsigned number that fits in `count` bytes is read back from them as
/// it was.
pub proof fn lemma_parse_uint(input: Seq<u8>, pos: int, v: nat, count: nat)
    requires
        v < pow2(8 * count),
        lies_at(input, pos, le_bytes(v, count)),
    ensures
        parse_uint(input, pos, count) == Ok::<(nat, int), Error>((v, pos + count)),
{
    lemma_le_bytes_len(v, count);
    lemma_le_value_of_bytes(v, count);
}

/// A signed number that fits in `count` bytes is read back from them as it
/// was.
pub proof fn lemma_parse_int(input: Seq<u8>, pos: int, v: int, count: nat)
    requires
        count > 0,
        -pow2((8 * count - 1) as nat) <= v < pow2((8 * count - 1) as nat),
        lies_at(input, pos, le_bytes(twos(v, 8 * count), count)),
    ensures
        parse_int(input, pos, count) == Ok::<(int, int), Error>((v, pos + count)),
{
    lemma_twos_roundtrip(v, 8 * count);
    lemma_le_bytes_len(twos(v, 8 * count), count);
    lemma_le_value_of_bytes(twos(v, 8 * count), count);
}

/// Reads one byte.
pub fn read_u8(input: &[u8], pos: usize) -> (result: Result<(u8, usize), Error>)
    ensures
        match result {
            Ok((v, next)) => parse_uint(input@, pos as int, 1) == Ok::<(nat, int), Error>(
                (v as nat, next as int),
            ),
            Err(e) => parse_uint(input@, pos as int, 1) == Err::<(nat, int), Error>(e),
        },
{
    if pos >= input.len() {
        return Err(Error::Io(IoError::UnexpectedEof));
    }
    proof {
        reveal_with_fuel(le_value, 2);
    }
    Ok((input[pos], pos + 1))
}

/// Reads an unsigned number of `count` bytes, least significant first.
fn read_uint(input: &[u8], pos: usize, count: usize) -> (result: Result<(u64, usize), Error>)
    requires
        count <= 8,
    ensures
        match result {
            Ok((v, next)) => parse_uint(input@, pos as int, count as nat) == Ok::<
                (nat, int),
                Error,
            >((v as nat, next as int)) && v < pow2(8 * count as nat),
            Err(e) => parse_uint(input@, pos as int, count as nat) == Err::<(nat, int), Error>(e),
        },
{
    if pos > input.len() || count > input.len() - pos {
        return Err(Error::Io(IoError::UnexpectedEof));
    }
    let ghost window = input@.subrange(pos as int, pos + count);
    let mut value: u64 = 0;
    let mut left: usize = count;
    proof {
        lemma2_to64();
        assert(window.skip(count as int) =~= Seq::<u8>::empty());
    }
    while left > 0
        invariant
            left <= count <= 8,
            pos + count <= input@.len() <= usize::MAX,
            window == input@.subrange(pos as int, pos + count),
            value == le_value(window.skip(left as int)),
            value < pow2((8 * (count - left)) as nat),
        decreases left,
    {
        left = left - 1;
        proof {
            lemma2_to64();
            lemma2_to64_rest();
            lemma_pow2_adds(8, (8 * (count - left - 1)) as nat);
            if count - left - 1 < 7 {
                vstd::arithmetic::power2::lemma_pow2_strictly_increases(
                    (8 * (count - left - 1)) as nat,
                    56,
                );
            }
            assert(value < 0x100_0000_0000_0000);
            assert(window.skip(left as int).skip(1) =~= window.skip(left + 1));
            assert(window.skip(left as int)[0] == input@[pos + left]);
        }
        value = input[pos + left] as u64 + 256 * value;
    }
    assert(window.skip(0) =~= window);
    Ok((value, pos + count))
}

/// Reads an unsigned 16-bit number.
pub fn read_u16(input: &[u8], pos: usize) -> (result: Result<(u16, usize), Error>)
    ensures
        match result {
            Ok((v, next)) => parse_uint(input@, pos as int, 2) == Ok::<(nat, int), Error>(
                (v as nat, next as int),
            ),
            Err(e) => parse_uint(input@, pos as int, 2) == Err::<(nat, int), Error>(e),
        },
{
    proof {
        lemma2_to64();
    }
    match read_uint(input, pos, 2) {
        Ok((v, next)) => Ok((v as u16, next)),
        Err(e) => Err(e),
    }
}

/// Reads an unsigned 32-bit number.
pub fn read_u32(input: &[u8], pos: usize) -> (result: Result<(u32, usize), Error>)
    ensures
        match result {
            Ok((v, next)) => parse_uint(input@, pos as int, 4) == Ok::<(nat, int), Error>(
                (v as nat, next as int),
            ),
            Err(e) => parse_uint(input@, pos as int, 4) == Err::<(nat, int), Error>(e),
        },
{
    proof {
        lemma2_to64();
    }
    match read_uint(input, pos, 4) {
        Ok((v, next)) => Ok((v as u32, next)),
        Err(e) => Err(e),
    }
}

/// Reads a signed 32-bit number.
pub fn read_i32(input: &[u8], pos: usize) -> (result: Result<(i32, usize), Error>)
    ensures
        match result {
            Ok((v, next)) => parse_int(input@, pos as int, 4) == Ok::<(int, int), Error>(
                (v as int, next as int),
            ),
            Err(e) => parse_int(input@, pos as int, 4) == Err::<(int, int), Error>(e),
        },
{
    proof {
        lemma2_to64();
    }
    match read_uint(input, pos, 4) {
        Ok((v, next)) => {
            let signed: i32 = if v >= 0x8000_0000 {
                (v as i64 - 0x1_0000_0000) as i32
            } else {
                v as i32
            };
            Ok((signed, next))
        },
        Err(e) => Err(e),
    }
}

/// Reads a signed 64-bit number.
pub fn read_i64(input: &[u8], pos: usize) -> (result: Result<(i64, usize), Error>)
    ensures
        match result {
            Ok((v, next)) => parse_int(input@, pos as int, 8) == Ok::<(int, int), Error>(
                (v as int, next as int),
            ),
            Err(e) => parse_int(input@, pos as int, 8) == Err::<(int, int), Error>(e),
        },
{
    proof {
        lemma2_to64();
        lemma2_to64_rest();
    }
    match read_uint(input, pos, 8) {
        Ok((v, next)) => {
            let signed: i64 = if v >= 0x8000_0000_0000_0000 {
                ((v - 0x8000_0000_0000_0000) as i64) + i64::MIN
            } else {
                v as i64
            };
            Ok((signed, next))
        },
        Err(e) => Err(e),
    }
}

/// Appends the `count` low bytes of `value` to `out`, least significant
/// first.
fn write_uint(out: &mut Vec<u8>, value: u64, count: usize)
    requires
        count <= 8,
    ensures
        final(out)@ == old(out)@ + le_bytes(value as nat, count as nat),
{
    let ghost before = out@;
    let ghost whole = le_bytes(value as nat, count as nat);
    let ghost mut written: Seq<u8> = Seq::empty();
    let mut rest: u64 = value;
    let mut left: usize = count;
    assert(out@ =~= before + written);
    assert(whole =~= written + le_bytes(rest as nat, left as nat));
    while left > 0
        invariant
            out@ == before + written,
            whole == written + le_bytes(rest as nat, left as nat),
        decreases left,
    {
        let byte: u8 = (rest % 256) as u8;
        out.push(byte);
        proof {
            let tail = le_bytes((rest / 256) as nat, (left - 1) as nat);
            assert(written + (seq![byte] + tail) =~= written.push(byte) + tail);
            assert((before + written).push(byte) =~= before + written.push(byte));
            written = written.push(byte);
        }
        rest = rest / 256;
        left = left - 1;
    }
    assert(written + le_bytes(rest as nat, 0) =~= written);
}

/// Appends one byte.
pub fn write_u8(out: &mut Vec<u8>, value: u8)
    ensures
        final(out)@ == old(out)@ + le_bytes(value as nat, 1),
{
    write_uint(out, value as u64, 1)
}

/// Appends an unsigned 16-bit number.
pub fn write_u16(out: &mut Vec<u8>, value: u16)
    ensures
        final(out)@ == old(out)@ + le_bytes(value as nat, 2),
{
    write_uint(out, value as u64, 2)
}

/// Appends an unsigned 32-bit number.
pub fn write_u32(out: &mut Vec<u8>, value: u32)
    ensures
        final(out)@ == old(out)@ + le_bytes(value as nat, 4),
{
    write_uint(out, value as u64, 4)
}

/// Appends a signed 32-bit number.
pub fn write_i32(out: &mut Vec<u8>, value: i32)
    ensures
        final(out)@ == old(out)@ + le_bytes(twos(value as int, 32), 4),
{
    proof {
        lemma2_to64();
    }
    let code: u64 = if value < 0 {
        (value as i64 + 0x1_0000_0000) as u64
    } else {
        value as u64
    };
    write_uint(out, code, 4)
}

/// Appends a signed 64-bit number.
pub fn write_i64(out: &mut Vec<u8>, value: i64)
    ensures
        final(out)@ == old(out)@ + le_bytes(twos(value as int, 64), 8),
{
    proof {
        lemma2_to64();
        lemma2_to64_rest();
    }
    let code: u64 = if value < 0 {
        ((value - i64::MIN) as u64) + 0x8000_0000_0000_0000
    } else {
        value as u64
    };
    write_uint(out, code, 8)
}

/// Appends all of `bytes` to `out`.
pub fn append(out: &mut Vec<u8>, bytes: &Vec<u8>)
    ensures
        final(out)@ == old(out)@ + bytes@,
{
    let ghost before = out@;
    let mut index: usize = 0;
    assert(out@ =~= before + bytes@.subrange(0, 0));
    while index < bytes.len()
        invariant
            index <= bytes@.len(),
            out@ == before + bytes@.subrange(0, index as int),
        decreases bytes@.len() - index,
    {
        out.push(bytes[index]);
        index = index + 1;
        assert(out@ =~= before + bytes@.subrange(0, index as int));
    }
    assert(bytes@.subrange(0, bytes@.len() as int) =~= bytes@);
}

/// Whether two runs of bytes are the same.
pub fn same_bytes(a: &[u8], b: &[u8]) -> (same: bool)
    ensures
        same == (a@ == b@),
{
    if a.len() != b.len() {
        return false;
    }
    let mut index: usize = 0;
    while index < a.len()
        invariant
            index <= a@.len() == b@.len(),
            a@.subrange(0, index as int) == b@.subrange(0, index as int),
        decreases a@.len() - index,
    {
        if a[index] != b[index] {
            return false;
        }
        assert(a@.subrange(0, index + 1) =~= a@.subrange(0, index as int).push(a@[index as int]));
        assert(b@.subrange(0, index + 1) =~= b@.subrange(0, index as int).push(b@[index as int]));
        index = index + 1;
    }
    assert(a@.subrange(0, a@.len() as int) =~= a@);
    assert(b@.subrange(0, b@.len() as int) =~= b@);
    true
}

} // verus!
