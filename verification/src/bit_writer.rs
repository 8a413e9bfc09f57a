//! Writing a stream bit by bit.

use crate::bits::{
    bits_bytes, byte_bit, bytes_bits, lemma_bytes_bits_len, lemma_bytes_bits_push,
    lemma_bytes_of_padded_bits, lemma_low_bits_extend, lemma_low_bits_len, lemma_low_bits_push,
    low_bits, padding, zero_bits,
};
use crate::error::Error;
use crate::packing::{
    int_bits, int_bits_from, packed3_bits, packed_bits, signed3_bits, signed_code,
};
use vstd::arithmetic::power2::{lemma2_to64, pow2};
use vstd::prelude::*;

verus! {

/// The byte under way: the bits it holds so far, from the least significant
/// up, and their count.
struct Pending {
    cur: u8,
    bit: u8,
}

impl Pending {
    /// The byte under way holds fewer than eight bits and nothing above them.
    #[verifier::type_invariant]
    closed spec fn wf(&self) -> bool {
        &&& self.bit < 8
        &&& (self.cur as nat) < pow2(self.bit as nat)
    }
}

/// A sink of bits that fills bytes from their least significant bit up and
/// keeps the finished bytes in a buffer.
pub struct BitWriter {
    w: Vec<u8>,
    pending: Pending,
}

impl View for BitWriter {
    type V = Seq<bool>;

    /// The bits written so far: those of the finished bytes and those
    /// waiting in the byte under way.
    closed spec fn view(&self) -> Seq<bool> {
        bytes_bits(self.w@) + low_bits(self.pending.cur as nat, self.pending.bit as nat)
    }
}

impl BitWriter {
    /// A writer that goes on after the bytes of `w`.
    pub fn new(w: Vec<u8>) -> (writer: Self)
        ensures
            writer@ == bytes_bits(w@),
    {
        proof {
            lemma2_to64();
            assert(low_bits(0, 0) =~= Seq::<bool>::empty());
            assert(bytes_bits(w@) + Seq::<bool>::empty() =~= bytes_bits(w@));
        }
        BitWriter { w, pending: Pending { cur: 0, bit: 0 } }
    }

    /// Whether the bits written so far fill whole bytes.
    pub fn byte_aligned(&self) -> (aligned: bool)
        ensures
            aligned == (self@.len() % 8 == 0),
    {
        proof {
            use_type_invariant(&self.pending);
            lemma_low_bits_len(self.pending.cur as nat, self.pending.bit as nat);
        }
        self.pending.bit == 0
    }

    /// Writes one bit and hands it back.
    pub fn write_bit(&mut self, bit: bool) -> (written: bool)
        ensures
            written == bit,
            final(self)@ == old(self)@.push(bit),
    {
        let k: u8 = self.pending.bit;
        let c: u8 = self.pending.cur;
        proof {
            use_type_invariant(&self.pending);
            lemma2_to64();
            lemma_low_bits_push(c as nat, k as nat, bit);
        }
        let ghost before = self@;
        let cur: u8 = if bit {
            assert((1u8 << k) == pow2(k as nat) && (c | (1u8 << k)) == c + (1u8 << k)) by {
                assert(k < 8 && c < (1u8 << k) ==> (c | (1u8 << k)) == c + (1u8 << k))
                    by (bit_vector);
                assert(k < 8 ==> (1u8 << k) == (if k == 0 {
                    1u8
                } else if k == 1 {
                    2u8
                } else if k == 2 {
                    4u8
                } else if k == 3 {
                    8u8
                } else if k == 4 {
                    16u8
                } else if k == 5 {
                    32u8
                } else if k == 6 {
                    64u8
                } else {
                    128u8
                })) by (bit_vector);
            }
            c | (1u8 << k)
        } else {
            c
        };
        assert(low_bits(cur as nat, (k + 1) as nat) == low_bits(c as nat, k as nat).push(bit));
        if k == 7 {
            proof {
                lemma_bytes_bits_push(self.w@, cur);
                assert(low_bits(0, 0) =~= Seq::<bool>::empty());
            }
            self.w.push(cur);
            self.pending = Pending { cur: 0, bit: 0 };
            assert(self@ =~= before.push(bit));
        } else {
            self.pending = Pending { cur, bit: k + 1 };
            assert(self@ =~= before.push(bit));
        }
        bit
    }

    /// Fills the byte under way with clear bits, so that what is written
    /// next starts a byte. Does nothing between two bytes.
    pub fn byte_align(&mut self)
        ensures
            final(self)@ == old(self)@ + zero_bits(padding(old(self)@.len())),
            final(self)@.len() % 8 == 0,
    {
        let k: u8 = self.pending.bit;
        let c: u8 = self.pending.cur;
        proof {
            use_type_invariant(&self.pending);
            lemma2_to64();
            lemma_low_bits_len(c as nat, k as nat);
            lemma_bytes_bits_len(self.w@);
        }
        let ghost before = self@;
        if k != 0 {
            proof {
                lemma_low_bits_extend(c as nat, k as nat, (8 - k) as nat);
                lemma_bytes_bits_push(self.w@, c);
                assert(low_bits(0, 0) =~= Seq::<bool>::empty());
            }
            self.w.push(c);
            self.pending = Pending { cur: 0, bit: 0 };
            assert(self@ =~= before + zero_bits(padding(before.len())));
        } else {
            assert(self@ =~= before + zero_bits(padding(before.len())));
        }
    }

    /// Fills the byte under way with clear bits and hands out the bytes.
    pub fn finish(self) -> (bytes: Vec<u8>)
        ensures
            bytes_bits(bytes@) == self@ + zero_bits(padding(self@.len())),
            bytes@ == bits_bytes(self@),
    {
        let mut writer = self;
        writer.byte_align();
        proof {
            use_type_invariant(&writer.pending);
            lemma_low_bits_len(writer.pending.cur as nat, writer.pending.bit as nat);
            lemma_bytes_bits_len(writer.w@);
            assert(low_bits(writer.pending.cur as nat, 0) =~= Seq::<bool>::empty());
            assert(writer@ =~= bytes_bits(writer.w@));
            lemma_bytes_of_padded_bits(writer.w@, self@);
        }
        writer.w
    }

    /// Writes the first `bits` bits of `src`, each byte from its least
    /// significant bit up.
    pub fn write_bits(&mut self, src: &[u8], bits: usize)
        requires
            bits <= 8 * src@.len(),
        ensures
            final(self)@ == old(self)@ + bytes_bits(src@).subrange(0, bits as int),
    {
        self.write_bits_naive(bits, src)
    }

    /// Writes the first `bits` bits of `src` one by one.
    pub fn write_bits_naive(&mut self, bits: usize, src: &[u8])
        requires
            bits <= 8 * src@.len(),
        ensures
            final(self)@ == old(self)@ + bytes_bits(src@).subrange(0, bits as int),
    {
        let ghost before = self@;
        let mut bit: usize = 0;
        assert(self@ =~= before + bytes_bits(src@).subrange(0, 0));
        while bit < bits
            invariant
                bit <= bits <= 8 * src@.len(),
                self@ == before + bytes_bits(src@).subrange(0, bit as int),
            decreases bits - bit,
        {
            let value = byte_bit(src[bit / 8], (bit % 8) as u8);
            self.write_bit(value);
            assert(bytes_bits(src@).subrange(0, bit as int).push(value) =~= bytes_bits(
                src@,
            ).subrange(0, bit + 1));
            bit = bit + 1;
            assert(self@ =~= before + bytes_bits(src@).subrange(0, bit as int));
        }
    }

    /// Writes the first `bits` bits of `src`: its whole bytes at a time, and
    /// then what is left of the last one.
    pub fn write_bits_basic(&mut self, bits: usize, src: &[u8])
        requires
            bits <= 8 * src@.len(),
        ensures
            final(self)@ == old(self)@ + bytes_bits(src@).subrange(0, bits as int),
    {
        let ghost before = self@;
        let ghost all = bytes_bits(src@);
        let full_bytes: usize = bits / 8;
        let extra_bits: usize = bits % 8;
        let mut index: usize = 0;
        assert(self@ =~= before + all.subrange(0, 0));
        while index < full_bytes
            invariant
                index <= full_bytes <= src@.len(),
                all == bytes_bits(src@),
                self@ == before + all.subrange(0, 8 * index),
            decreases full_bytes - index,
        {
            proof {
                lemma_low_bits_len(src@[index as int] as nat, 8);
                assert(all.subrange(0, 8 * index) + low_bits(src@[index as int] as nat, 8)
                    =~= all.subrange(0, 8 * (index + 1))) by {
                    let whole = all.subrange(0, 8 * (index + 1));
                    let parts = all.subrange(0, 8 * index) + low_bits(src@[index as int] as nat, 8);
                    assert forall|i: int| 0 <= i < whole.len() implies whole[i] == parts[i] by {
                        if i >= 8 * index {
                            assert(i / 8 == index);
                            assert(i % 8 == i - 8 * index);
                        }
                    }
                }
            }
            self.write_byte(src[index]);
            index = index + 1;
            assert(self@ =~= before + all.subrange(0, 8 * index));
        }
        if extra_bits != 0 {
            proof {
                lemma_low_bits_len(src@[full_bytes as int] as nat, 8);
                assert(all.subrange(0, 8 * full_bytes) + low_bits(
                    src@[full_bytes as int] as nat,
                    8,
                ).subrange(0, extra_bits as int) =~= all.subrange(0, bits as int)) by {
                    let whole = all.subrange(0, bits as int);
                    let parts = all.subrange(0, 8 * full_bytes) + low_bits(
                        src@[full_bytes as int] as nat,
                        8,
                    ).subrange(0, extra_bits as int);
                    assert forall|i: int| 0 <= i < whole.len() implies whole[i] == parts[i] by {
                        if i >= 8 * full_bytes {
                            assert(i / 8 == full_bytes);
                            assert(i % 8 == i - 8 * full_bytes);
                        }
                    }
                }
            }
            self.write_byte_partial(extra_bits, src[full_bytes]);
            assert(self@ =~= before + all.subrange(0, bits as int));
        } else {
            assert(self@ =~= before + all.subrange(0, bits as int));
        }
    }

    /// Writes the eight bits of `byte`.
    pub fn write_byte(&mut self, byte: u8)
        ensures
            final(self)@ == old(self)@ + low_bits(byte as nat, 8),
    {
        let ghost before = self@;
        proof {
            use_type_invariant(&self.pending);
            lemma_low_bits_len(byte as nat, 8);
        }
        if self.pending.bit == 0 {
            proof {
                lemma_bytes_bits_push(self.w@, byte);
                assert(low_bits(self.pending.cur as nat, 0) =~= Seq::<bool>::empty());
            }
            self.w.push(byte);
            assert(self@ =~= before + low_bits(byte as nat, 8));
        } else {
            self.write_low_bits(byte, 8);
            assert(low_bits(byte as nat, 8).subrange(0, 8) =~= low_bits(byte as nat, 8));
        }
    }

    /// Writes the `bits` lowest bits of `byte`.
    pub fn write_byte_partial(&mut self, bits: usize, byte: u8)
        requires
            bits < 8,
        ensures
            final(self)@ == old(self)@ + low_bits(byte as nat, 8).subrange(0, bits as int),
    {
        self.write_low_bits(byte, bits as u8);
    }

    /// Writes the `count` lowest bits of `byte` one by one.
    fn write_low_bits(&mut self, byte: u8, count: u8)
        requires
            count <= 8,
        ensures
            final(self)@ == old(self)@ + low_bits(byte as nat, 8).subrange(0, count as int),
    {
        let ghost before = self@;
        let ghost all = low_bits(byte as nat, 8);
        proof {
            lemma_low_bits_len(byte as nat, 8);
        }
        let mut bit: u8 = 0;
        assert(self@ =~= before + all.subrange(0, 0));
        while bit < count
            invariant
                bit <= count <= 8,
                all == low_bits(byte as nat, 8),
                all.len() == 8,
                self@ == before + all.subrange(0, bit as int),
            decreases count - bit,
        {
            let value = byte_bit(byte, bit);
            self.write_bit(value);
            assert(all.subrange(0, bit as int).push(value) =~= all.subrange(0, bit + 1));
            bit = bit + 1;
            assert(self@ =~= before + all.subrange(0, bit as int));
        }
    }

    /// Writes the `count` lowest bits of `value`, the lowest first.
    pub fn write_value(&mut self, value: u64, count: u8)
        ensures
            final(self)@ == old(self)@ + low_bits(value as nat, count as nat),
    {
        let ghost before = self@;
        let ghost whole = low_bits(value as nat, count as nat);
        let ghost mut written: Seq<bool> = Seq::empty();
        let mut rest: u64 = value;
        let mut left: u8 = count;
        assert(self@ =~= before + written);
        assert(whole =~= written + low_bits(rest as nat, left as nat));
        while left > 0
            invariant
                self@ == before + written,
                whole == written + low_bits(rest as nat, left as nat),
            decreases left,
        {
            let bit = rest % 2 == 1;
            self.write_bit(bit);
            proof {
                let tail = low_bits((rest / 2) as nat, (left - 1) as nat);
                assert(written + (seq![bit] + tail) =~= written.push(bit) + tail);
                assert((before + written).push(bit) =~= before + written.push(bit));
                written = written.push(bit);
            }
            rest = rest / 2;
            left = left - 1;
        }
        assert(written + low_bits(rest as nat, 0) =~= written);
    }

    /// Writes `value` as an integer known to be below `max`, in as few bits
    /// as tell it from every other number below `max`. A value that is not
    /// below `max` is refused, and nothing is written.
    pub fn write_int(&mut self, value: u32, max: u32) -> (result: Result<(), Error>)
        requires
            max >= 2,
        ensures
            value >= max ==> result == Err::<(), Error>(Error::InvalidInput) && final(self)@
                == old(self)@,
            value < max ==> result is Ok && final(self)@ == old(self)@ + int_bits(
                value as nat,
                max as nat,
            ),
    {
        if value >= max {
            return Err(Error::InvalidInput);
        }
        let ghost before = self@;
        let mut rest: u32 = value;
        let mut new_value: u64 = 0;
        let mut mask: u64 = 1;
        assert(self@ =~= before + Seq::<bool>::empty());
        assert(int_bits(value as nat, max as nat) =~= Seq::<bool>::empty() + int_bits_from(
            rest as nat,
            max as nat,
            new_value as nat,
            mask as nat,
        ));
        let ghost mut written: Seq<bool> = Seq::empty();
        while new_value + mask < max as u64 && mask < 0x1_0000_0000
            invariant
                0 < mask < 0x2_0000_0000,
                new_value < 0x1_0000_0000,
                self@ == before + written,
                int_bits(value as nat, max as nat) == written + int_bits_from(
                    rest as nat,
                    max as nat,
                    new_value as nat,
                    mask as nat,
                ),
            decreases 0x2_0000_0000 - mask,
        {
            let bit = rest % 2 == 1;
            self.write_bit(bit);
            proof {
                let tail = int_bits_from(
                    (rest / 2) as nat,
                    max as nat,
                    if bit {
                        (new_value + mask) as nat
                    } else {
                        new_value as nat
                    },
                    (2 * mask) as nat,
                );
                assert(written + (seq![bit] + tail) =~= written.push(bit) + tail);
                assert(before + written.push(bit) =~= (before + written).push(bit));
                written = written.push(bit);
            }
            if bit {
                new_value = new_value + mask;
            }
            rest = rest / 2;
            mask = 2 * mask;
        }
        assert(before + written + Seq::<bool>::empty() =~= before + written);
        Ok(())
    }

    /// Writes `value` as a packed integer: seven bits at a time, the lowest
    /// first, each group behind a flag that says whether another follows.
    pub fn write_int_packed(&mut self, value: u32)
        ensures
            final(self)@ == old(self)@ + packed_bits(value as nat),
    {
        let ghost before = self@;
        let ghost mut written: Seq<bool> = Seq::empty();
        let ghost whole = packed_bits(value as nat);
        let mut value: u32 = value;
        assert(self@ =~= before + written);
        assert(whole =~= written + packed_bits(value as nat));
        loop
            invariant_except_break
                self@ == before + written,
                whole == written + packed_bits(value as nat),
            ensures
                self@ == before + whole,
            decreases value,
        {
            let ghost start = self@;
            let low: u8 = (value % 128) as u8;
            let rest: u32 = value / 128;
            self.write_bit(rest != 0);
            self.write_low_bits(low, 7);
            proof {
                let group = seq![rest != 0] + low_bits(low as nat, 7);
                lemma2_to64();
                lemma_low_bits_len(low as nat, 7);
                lemma_low_bits_extend(low as nat, 7, 1);
                assert(low_bits(low as nat, 8).subrange(0, 7) =~= low_bits(low as nat, 7));
                assert(self@ =~= start + group);
                assert(before + written + group =~= before + (written + group));
                if rest != 0 {
                    assert(written + (group + packed_bits(rest as nat)) =~= (written + group)
                        + packed_bits(rest as nat));
                } else {
                    assert(written + (group + Seq::<bool>::empty()) =~= written + group);
                }
                written = written + group;
            }
            if rest == 0 {
                break ;
            }
            value = rest;
        }
    }

    /// Writes three packed integers in a row.
    pub fn write_positive_int_vector_packed(&mut self, v: (u32, u32, u32))
        ensures
            final(self)@ == old(self)@ + packed3_bits((v.0 as nat, v.1 as nat, v.2 as nat)),
    {
        let ghost before = self@;
        self.write_int_packed(v.0);
        self.write_int_packed(v.1);
        self.write_int_packed(v.2);
        assert(self@ =~= before + packed3_bits((v.0 as nat, v.1 as nat, v.2 as nat)));
    }

    /// Writes three signed values in a row, each as the packed integer of
    /// twice its magnitude, plus one if it is above zero. The one value whose
    /// magnitude does not fit is refused, and nothing is written.
    pub fn write_int_vector_packed(&mut self, v: (i32, i32, i32)) -> (result: Result<(), Error>)
        ensures
            v.0 == i32::MIN || v.1 == i32::MIN || v.2 == i32::MIN ==> result == Err::<(), Error>(
                Error::InvalidInput,
            ) && final(self)@ == old(self)@,
            v.0 != i32::MIN && v.1 != i32::MIN && v.2 != i32::MIN ==> result is Ok && final(self)@
                == old(self)@ + signed3_bits((v.0 as int, v.1 as int, v.2 as int)),
    {
        if v.0 == i32::MIN || v.1 == i32::MIN || v.2 == i32::MIN {
            return Err(Error::InvalidInput);
        }
        self.write_positive_int_vector_packed(
            (signed_code_of(v.0), signed_code_of(v.1), signed_code_of(v.2)),
        );
        Ok(())
    }

    /// Writes every bit of `src`.
    pub fn write(&mut self, src: &[u8])
        ensures
            final(self)@ == old(self)@ + bytes_bits(src@),
    {
        let ghost before = self@;
        proof {
            lemma_bytes_bits_len(src@);
        }
        let mut index: usize = 0;
        assert(self@ =~= before + bytes_bits(src@.subrange(0, 0)));
        while index < src.len()
            invariant
                index <= src@.len(),
                self@ == before + bytes_bits(src@.subrange(0, index as int)),
            decreases src@.len() - index,
        {
            proof {
                lemma_bytes_bits_push(src@.subrange(0, index as int), src@[index as int]);
                assert(src@.subrange(0, index as int).push(src@[index as int]) =~= src@.subrange(
                    0,
                    index + 1,
                ));
            }
            self.write_byte(src[index]);
            index = index + 1;
            assert(self@ =~= before + bytes_bits(src@.subrange(0, index as int)));
        }
        assert(src@.subrange(0, src@.len() as int) =~= src@);
    }
}

/// The number that stands for `v` in the stream.
fn signed_code_of(v: i32) -> (code: u32)
    requires
        v != i32::MIN,
    ensures
        code == signed_code(v as int),
{
    if v > 0 {
        2 * (v as u32) + 1
    } else {
        2 * ((-v) as u32)
    }
}

} // verus!
