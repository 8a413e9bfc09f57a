//! Reading a stream bit by bit.

use crate::bits::{
    bits_bytes, bits_value, byte_bit, bytes_bits, lemma_bits_value_push, lemma_bytes_bits_len,
    padding,
};
use crate::error::{Error, IoError};
use crate::packing::{
    decode_bit, decode_bits, decode_int, decode_int_from, decode_packed, decode_packed3,
    decode_packed_from, decode_signed3, lemma_decode_packed_bound, packed_limit, signed_value,
};
use vstd::arithmetic::power2::{lemma2_to64, lemma_pow2_unfold, pow2};
use vstd::prelude::*;

verus! {

/// A source of bits over a buffer of bytes, each byte read from its least
/// significant bit up.
///
/// A read that runs past the end of the buffer fails and leaves the reader
/// where it was.
pub struct BitReader {
    data: Vec<u8>,
    byte: usize,
    bit: u8,
}

/// The error of a read that runs past the end of the input.
pub open spec fn eof() -> Error {
    Error::Io(IoError::UnexpectedEof)
}

impl BitReader {
    /// The position is within the buffer, and at its end between two bytes.
    #[verifier::type_invariant]
    closed spec fn wf(&self) -> bool {
        &&& self.bit < 8
        &&& self.byte <= self.data@.len()
        &&& self.byte == self.data@.len() ==> self.bit == 0
    }

    /// All the bits of the buffer.
    pub closed spec fn bits(&self) -> Seq<bool> {
        bytes_bits(self.data@)
    }

    /// The bytes of the buffer.
    pub closed spec fn bytes(&self) -> Seq<u8> {
        self.data@
    }

    /// The number of bits read so far.
    pub closed spec fn pos(&self) -> int {
        8 * self.byte + self.bit
    }

    /// Whether `self` is `before` moved to the position `pos`.
    pub open spec fn moved(&self, before: &BitReader, pos: int) -> bool {
        &&& self.bytes() == before.bytes()
        &&& self.bits() == before.bits()
        &&& self.pos() == pos
        &&& 0 <= pos <= self.bits().len()
    }

    /// A reader at the start of `buf`.
    pub fn new(buf: Vec<u8>) -> (reader: Self)
        ensures
            reader.bytes() == buf@,
            reader.bits() == bytes_bits(buf@),
            reader.pos() == 0,
    {
        BitReader { data: buf, byte: 0, bit: 0 }
    }

    /// The buffer that is being read.
    pub fn into_inner(self) -> (buf: Vec<u8>)
        ensures
            buf@ == self.bytes(),
    {
        self.data
    }

    /// Where the reader stands: the number of whole bytes behind it, and the
    /// number of bits behind it in the byte under way.
    pub fn position(&self) -> (at: (usize, u8))
        ensures
            self.bits() == bytes_bits(self.bytes()),
            self.pos() == 8 * at.0 + at.1,
            at.1 < 8,
            at.0 <= self.bytes().len(),
            at.0 == self.bytes().len() ==> at.1 == 0,
            0 <= self.pos() <= self.bits().len(),
    {
        proof {
            use_type_invariant(self);
        }
        (self.byte, self.bit)
    }

    /// Whether at least `count` bits are left to read.
    fn has(&self, count: u64) -> (enough: bool)
        ensures
            enough == (self.pos() + count <= self.bits().len()),
            0 <= self.pos() <= self.bits().len(),
    {
        proof {
            use_type_invariant(self);
        }
        let left: u128 = 8 * ((self.data.len() - self.byte) as u128) - self.bit as u128;
        left >= count as u128
    }

    /// Moves on by `len` bits.
    pub fn skip(&mut self, len: u32) -> (result: Result<(), Error>)
        ensures
            match result {
                Ok(()) => final(self).moved(old(self), old(self).pos() + len),
                Err(e) => e == eof() && old(self).pos() + len > old(self).bits().len()
                    && final(self).moved(old(self), old(self).pos()),
            },
    {
        if !self.has(len as u64) {
            return Err(Error::Io(IoError::UnexpectedEof));
        }
        proof {
            use_type_invariant(&*self);
        }
        self.advance(len as u64);
        Ok(())
    }

    /// Moves on by `count` bits that are known to be there.
    fn advance(&mut self, count: u64)
        requires
            old(self).pos() + count <= old(self).bits().len(),
        ensures
            final(self).moved(old(self), old(self).pos() + count),
    {
        proof {
            use_type_invariant(&*self);
        }
        let ghost before = *self;
        proof {
            lemma_bytes_bits_len(self.data@);
        }
        let whole: u64 = count / 8;
        let part: u8 = (count % 8) as u8;
        let carry: usize = if self.bit + part >= 8 {
            1
        } else {
            0
        };
        let bit: u8 = if self.bit + part >= 8 {
            self.bit + part - 8
        } else {
            self.bit + part
        };
        let len: usize = self.data.len();
        assert(8 * self.byte + 8 * whole + 8 * carry + bit == before.pos() + count);
        assert(self.byte + whole + carry <= len);
        let byte: usize = self.byte + whole as usize + carry;
        self.bit = 0;
        self.byte = byte;
        self.bit = bit;
    }

    /// Reads one bit.
    pub fn read_bit(&mut self) -> (result: Result<bool, Error>)
        ensures
            match result {
                Ok(bit) => decode_bit(old(self).bits(), old(self).pos()) == Some(
                    (bit, final(self).pos()),
                ) && final(self).moved(old(self), old(self).pos() + 1),
                Err(e) => e == eof() && decode_bit(old(self).bits(), old(self).pos()) is None
                    && final(self).moved(old(self), old(self).pos()),
            },
    {
        proof {
            use_type_invariant(&*self);
        }
        if self.byte >= self.data.len() {
            return Err(Error::Io(IoError::UnexpectedEof));
        }
        let value = byte_bit(self.data[self.byte], self.bit);
        let ghost pos = self.pos();
        assert(pos / 8 == self.byte && pos % 8 == self.bit);
        if self.bit == 7 {
            self.bit = 0;
            self.byte = self.byte + 1;
        } else {
            self.bit = self.bit + 1;
        }
        Ok(value)
    }

    /// Goes back to a position that was taken from this reader.
    pub(crate) fn rewind(&mut self, at: (usize, u8))
        requires
            at.1 < 8,
            at.0 <= old(self).bytes().len(),
            at.0 == old(self).bytes().len() ==> at.1 == 0,
        ensures
            final(self).moved(old(self), 8 * at.0 + at.1),
    {
        proof {
            use_type_invariant(&*self);
            lemma_bytes_bits_len(self.data@);
        }
        self.bit = 0;
        self.byte = at.0;
        self.bit = at.1;
    }

    /// Reads the number that the next `count` bits spell.
    pub fn read_value(&mut self, count: u8) -> (result: Result<u64, Error>)
        requires
            count <= 32,
        ensures
            match result {
                Ok(v) => {
                    &&& decode_bits(old(self).bits(), old(self).pos(), count as nat) == Some(
                        (v as nat, final(self).pos()),
                    )
                    &&& final(self).moved(old(self), old(self).pos() + count)
                    &&& v < pow2(count as nat)
                },
                Err(e) => e == eof() && decode_bits(old(self).bits(), old(self).pos(), count as nat)
                    is None && final(self).moved(old(self), old(self).pos()),
            },
    {
        if !self.has(count as u64) {
            return Err(Error::Io(IoError::UnexpectedEof));
        }
        let ghost before = *self;
        let ghost bits = self.bits();
        let ghost start = self.pos();
        let mut value: u64 = 0;
        let mut mask: u64 = 1;
        let mut done: u8 = 0;
        proof {
            lemma2_to64();
            assert(bits.subrange(start, start + 0) =~= Seq::<bool>::empty());
        }
        while done < count
            invariant
                done <= count <= 32,
                mask == pow2(done as nat),
                self.moved(&before, start + done),
                bits == before.bits(),
                start + count <= bits.len(),
                0 <= start,
                value == bits_value(bits.subrange(start, start + done)),
                value < mask,
            decreases count - done,
        {
            proof {
                lemma_pow2_unfold((done + 1) as nat);
                lemma2_to64();
                vstd::arithmetic::power2::lemma_pow2_strictly_increases((done + 1) as nat, 33);
                vstd::arithmetic::power2::lemma2_to64_rest();
            }
            match self.read_bit() {
                Ok(bit) => {
                    proof {
                        lemma_bits_value_push(bits.subrange(start, start + done), bit);
                        assert(bits.subrange(start, start + done).push(bit) =~= bits.subrange(
                            start,
                            start + done + 1,
                        ));
                    }
                    if bit {
                        value = value + mask;
                    }
                    mask = 2 * mask;
                    done = done + 1;
                },
                Err(e) => {
                    return Err(e);
                },
            }
        }
        Ok(value)
    }

    /// Reads `count` bytes that are known to be there into the first bytes
    /// of `dst`.
    fn fill(&mut self, dst: &mut Vec<u8>, count: usize)
        requires
            count <= old(dst)@.len(),
            old(self).pos() + 8 * count <= old(self).bits().len(),
        ensures
            final(self).moved(old(self), old(self).pos() + 8 * count),
            final(dst)@ == bits_bytes(
                old(self).bits().subrange(old(self).pos(), old(self).pos() + 8 * count),
            ) + old(dst)@.skip(count as int),
    {
        let ghost before = *self;
        let ghost start = self.pos();
        let ghost bits = self.bits();
        let ghost window = bits.subrange(start, start + 8 * count);
        let ghost held = dst@;
        let at = self.position();
        let mut index: usize = 0;
        assert(dst@ =~= bits_bytes(window).subrange(0, 0) + held.skip(0));
        while index < count
            invariant
                index <= count <= held.len(),
                self.moved(&before, start + 8 * index),
                bits == before.bits(),
                window == bits.subrange(start, start + 8 * count),
                0 <= start,
                start + 8 * count <= bits.len(),
                dst@ == bits_bytes(window).subrange(0, index as int) + held.skip(index as int),
            decreases count - index,
        {
            let value: u64 = match self.read_value(8) {
                Ok(v) => v,
                Err(e) => 0,
            };
            proof {
                lemma2_to64();
                assert(bits.subrange(start + 8 * index, start + 8 * index + 8) =~= window.subrange(
                    8 * index,
                    8 * index + 8,
                ));
            }
            dst.set(index, value as u8);
            index = index + 1;
            assert(dst@ =~= bits_bytes(window).subrange(0, index as int) + held.skip(
                index as int,
            ));
        }
        assert(bits_bytes(window).subrange(0, count as int) =~= bits_bytes(window));
    }

    /// Reads `len` bits into `dst`, eight to a byte and each byte from its
    /// least significant bit up. The bits that a last, partial byte has to
    /// spare are clear, and the bytes after it stay as they were.
    pub fn read_bits(&mut self, dst: &mut Vec<u8>, len: usize) -> (result: Result<(), Error>)
        requires
            len <= 8 * old(dst)@.len(),
        ensures
            match result {
                Ok(()) => {
                    &&& final(self).moved(old(self), old(self).pos() + len)
                    &&& final(dst)@ == bits_bytes(
                        old(self).bits().subrange(old(self).pos(), old(self).pos() + len),
                    ) + old(dst)@.skip((len + 7) / 8)
                },
                Err(e) => {
                    &&& e == eof()
                    &&& old(self).pos() + len > old(self).bits().len()
                    &&& final(self).moved(old(self), old(self).pos())
                    &&& final(dst)@ == old(dst)@
                },
            },
    {
        if !self.has(len as u64) {
            return Err(Error::Io(IoError::UnexpectedEof));
        }
        let ghost start = self.pos();
        let ghost bits = self.bits();
        let ghost window = bits.subrange(start, start + len);
        let ghost held = dst@;
        let full: usize = len / 8;
        let extra: u8 = (len % 8) as u8;
        self.fill(dst, full);
        if extra != 0 {
            let value: u64 = match self.read_value(extra) {
                Ok(v) => v,
                Err(e) => 0,
            };
            proof {
                lemma2_to64();
                vstd::arithmetic::power2::lemma_pow2_strictly_increases(extra as nat, 8);
                assert(bits.subrange(start + 8 * full, start + 8 * full + extra)
                    =~= window.subrange(8 * full, len as int));
                assert forall|i: int| 0 <= i < full implies #[trigger] bits_bytes(
                    bits.subrange(start, start + 8 * full),
                )[i] == bits_bytes(window)[i] by {
                    assert(bits.subrange(start, start + 8 * full).subrange(8 * i, 8 * i + 8)
                        =~= window.subrange(8 * i, 8 * i + 8));
                }
            }
            dst.set(full, value as u8);
            assert(dst@ =~= bits_bytes(window) + held.skip((len + 7) / 8));
        } else {
            assert(bits.subrange(start, start + 8 * full) =~= window);
            assert(dst@ =~= bits_bytes(window) + held.skip((len + 7) / 8));
        }
        Ok(())
    }

    /// Fills `dst` with the next bytes of the stream, which need not start
    /// at a byte of the buffer, and says how many it read.
    pub fn read(&mut self, dst: &mut Vec<u8>) -> (result: Result<usize, Error>)
        ensures
            match result {
                Ok(count) => {
                    &&& count == old(dst)@.len()
                    &&& final(self).moved(old(self), old(self).pos() + 8 * count)
                    &&& final(dst)@ == bits_bytes(
                        old(self).bits().subrange(old(self).pos(), old(self).pos() + 8 * count),
                    )
                },
                Err(e) => {
                    &&& e == eof()
                    &&& old(self).pos() + 8 * old(dst)@.len() > old(self).bits().len()
                    &&& final(self).moved(old(self), old(self).pos())
                    &&& final(dst)@ == old(dst)@
                },
            },
    {
        let count: usize = dst.len();
        let at = self.position();
        proof {
            lemma_bytes_bits_len(self.bytes());
        }
        let left: usize = self.data.len() - at.0;
        let enough = if at.1 == 0 {
            count <= left
        } else {
            count < left
        };
        if !enough {
            return Err(Error::Io(IoError::UnexpectedEof));
        }
        self.fill(dst, count);
        assert(old(dst)@.skip(count as int) =~= Seq::<u8>::empty());
        assert(dst@ =~= bits_bytes(
            old(self).bits().subrange(old(self).pos(), old(self).pos() + 8 * count),
        ));
        Ok(count)
    }

    /// Reads an integer known to be below `max`: bits from the lowest up,
    /// for as long as another one could still stay below `max`.
    pub fn read_int(&mut self, max: u32) -> (result: Result<u32, Error>)
        ensures
            match result {
                Ok(v) => decode_int(old(self).bits(), old(self).pos(), max as nat) == Some(
                    (v as nat, final(self).pos()),
                ) && final(self).moved(old(self), final(self).pos()) && (v < max || v == 0),
                Err(e) => e == eof() && decode_int(old(self).bits(), old(self).pos(), max as nat)
                    is None && final(self).moved(old(self), old(self).pos()),
            },
    {
        let at = self.position();
        let ghost before = *self;
        let ghost bits = self.bits();
        let mut value: u64 = 0;
        let mut mask: u64 = 1;
        while value + mask < max as u64 && mask < 0x1_0000_0000
            invariant
                0 < mask < 0x2_0000_0000,
                value < 0x1_0000_0000,
                value < max || value == 0,
                self.moved(&before, self.pos()),
                bits == before.bits(),
                before == *old(self),
                at.1 < 8,
                at.0 <= before.bytes().len(),
                at.0 == before.bytes().len() ==> at.1 == 0,
                before.pos() == 8 * at.0 + at.1,
                decode_int(bits, before.pos(), max as nat) == decode_int_from(
                    bits,
                    self.pos(),
                    max as nat,
                    value as nat,
                    mask as nat,
                ),
            decreases 0x2_0000_0000 - mask,
        {
            match self.read_bit() {
                Ok(bit) => {
                    if bit {
                        value = value + mask;
                    }
                    mask = 2 * mask;
                },
                Err(e) => {
                    assert(decode_int_from(
                        bits,
                        self.pos(),
                        max as nat,
                        value as nat,
                        mask as nat,
                    ) is None);
                    self.rewind(at);
                    assert(self.moved(&before, before.pos()));
                    return Err(e);
                },
            }
        }
        Ok(value as u32)
    }

    /// Reads the groups of a packed integer from `group` on.
    fn read_packed_groups(&mut self, group: u8) -> (result: Result<u64, Error>)
        requires
            group < 5,
        ensures
            final(self).bytes() == old(self).bytes(),
            match result {
                Ok(v) => decode_packed_from(old(self).bits(), old(self).pos(), group as nat)
                    == Some((v as nat, final(self).pos())) && final(self).moved(
                    old(self),
                    final(self).pos(),
                ) && v < packed_limit(group as nat),
                Err(e) => e == eof() && decode_packed_from(
                    old(self).bits(),
                    old(self).pos(),
                    group as nat,
                ) is None,
            },
        decreases 5 - group,
    {
        let ghost before = *self;
        proof {
            reveal_with_fuel(packed_limit, 6);
            lemma2_to64();
            lemma_decode_packed_bound(self.bits(), self.pos(), group as nat);
        }
        if !self.has(8) {
            return Err(Error::Io(IoError::UnexpectedEof));
        }
        let more = match self.read_bit() {
            Ok(bit) => bit,
            Err(e) => {
                return Err(e);
            },
        };
        let part: u64 = match self.read_value(7) {
            Ok(v) => v,
            Err(e) => {
                return Err(e);
            },
        };
        let ghost bits = before.bits();
        let ghost pos = before.pos();
        assert(bits.subrange(pos + 1, pos + 1 + 7) == bits.subrange(pos + 1, pos + 8));
        assert(more == bits[pos]);
        assert(part == bits_value(bits.subrange(pos + 1, pos + 8)));
        if more && group < 4 {
            match self.read_packed_groups(group + 1) {
                Ok(rest) => Ok(part + 128 * rest),
                Err(e) => Err(e),
            }
        } else {
            assert(more ==> decode_packed_from(bits, pos + 8, 5) == Some((0nat, pos + 8)));
            Ok(part)
        }
    }

    /// Reads a packed integer: up to five groups of a flag and seven bits,
    /// the lowest seven bits first, until a flag is clear. Of the 35 bits
    /// that five groups hold, the lowest 32 count.
    pub fn read_int_packed(&mut self) -> (result: Result<u32, Error>)
        ensures
            match result {
                Ok(v) => decode_packed(old(self).bits(), old(self).pos()) == Some(
                    (v as nat, final(self).pos()),
                ) && final(self).moved(old(self), final(self).pos()),
                Err(e) => e == eof() && decode_packed(old(self).bits(), old(self).pos()) is None
                    && final(self).moved(old(self), old(self).pos()),
            },
    {
        let at = self.position();
        match self.read_packed_groups(0) {
            Ok(v) => Ok((v % 0x1_0000_0000) as u32),
            Err(e) => {
                self.rewind(at);
                Err(e)
            },
        }
    }

    /// Moves on to the next byte of the buffer. Does nothing between two
    /// bytes.
    pub fn eat_byte_align(&mut self)
        ensures
            final(self).moved(old(self), old(self).pos() + padding(old(self).pos() as nat)),
            final(self).pos() % 8 == 0,
    {
        proof {
            use_type_invariant(&*self);
            lemma_bytes_bits_len(self.data@);
        }
        let len: usize = self.data.len();
        if self.bit != 0 {
            self.bit = 0;
            self.byte = self.byte + 1;
        }
    }

    /// Reads three packed integers in a row.
    pub fn read_positive_int_vector_packed(&mut self) -> (result: Result<(u32, u32, u32), Error>)
        ensures
            match result {
                Ok(v) => decode_packed3(old(self).bits(), old(self).pos()) == Some(
                    ((v.0 as nat, v.1 as nat, v.2 as nat), final(self).pos()),
                ) && final(self).moved(old(self), final(self).pos()),
                Err(e) => e == eof() && decode_packed3(old(self).bits(), old(self).pos()) is None
                    && final(self).moved(old(self), old(self).pos()),
            },
    {
        let at = self.position();
        let a = match self.read_int_packed() {
            Ok(v) => v,
            Err(e) => {
                return Err(e);
            },
        };
        let b = match self.read_int_packed() {
            Ok(v) => v,
            Err(e) => {
                self.rewind(at);
                return Err(e);
            },
        };
        let c = match self.read_int_packed() {
            Ok(v) => v,
            Err(e) => {
                self.rewind(at);
                return Err(e);
            },
        };
        Ok((a, b, c))
    }

    /// Reads three signed values in a row, each from the packed integer of
    /// twice its magnitude, plus one if it is above zero.
    pub fn read_int_vector_packed(&mut self) -> (result: Result<(i32, i32, i32), Error>)
        ensures
            match result {
                Ok(v) => decode_signed3(old(self).bits(), old(self).pos()) == Some(
                    ((v.0 as int, v.1 as int, v.2 as int), final(self).pos()),
                ) && final(self).moved(old(self), final(self).pos()),
                Err(e) => e == eof() && decode_signed3(old(self).bits(), old(self).pos()) is None
                    && final(self).moved(old(self), old(self).pos()),
            },
    {
        match self.read_positive_int_vector_packed() {
            Ok(v) => Ok((signed_value_of(v.0), signed_value_of(v.1), signed_value_of(v.2))),
            Err(e) => Err(e),
        }
    }
}

/// The signed value that `code` stands for.
fn signed_value_of(code: u32) -> (v: i32)
    ensures
        v == signed_value(code as nat),
{
    if code % 2 == 1 {
        (code / 2) as i32
    } else {
        -((code / 2) as i32)
    }
}

} // verus!
