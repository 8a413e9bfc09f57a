//! How numbers are packed into a stream of bits, and how they come out again.
//!
//! Every decoder here takes the whole stream and a position in it, and gives
//! the value it found together with the position after it, or nothing where
//! the stream ends too early.

use crate::bits::{
    bits_value, lemma_bits_value_bound, lemma_low_bits_len, lemma_value_of_low_bits, low_bits,
};
use vstd::arithmetic::power2::{lemma2_to64, pow2};
use vstd::prelude::*;

verus! {

/// Whether `window` is what `bits` holds from `pos` on.
pub open spec fn holds_at(bits: Seq<bool>, pos: int, window: Seq<bool>) -> bool {
    &&& 0 <= pos
    &&& pos + window.len() <= bits.len()
    &&& bits.subrange(pos, pos + window.len()) == window
}

/// A stream that holds two windows in a row holds each of them.
pub proof fn lemma_holds_at_split(bits: Seq<bool>, pos: int, first: Seq<bool>, second: Seq<bool>)
    requires
        holds_at(bits, pos, first + second),
    ensures
        holds_at(bits, pos, first),
        holds_at(bits, pos + first.len(), second),
{
    let whole = bits.subrange(pos, pos + first.len() + second.len());
    assert((first + second).len() == first.len() + second.len());
    assert(whole == first + second);
    assert(bits.subrange(pos, pos + first.len()) =~= whole.subrange(0, first.len() as int));
    assert(whole.subrange(0, first.len() as int) =~= first);
    assert(bits.subrange(pos + first.len(), pos + first.len() + second.len()) =~= whole.subrange(
        first.len() as int,
        whole.len() as int,
    ));
    assert(whole.subrange(first.len() as int, whole.len() as int) =~= second);
}

/// The next bit of the stream.
pub open spec fn decode_bit(bits: Seq<bool>, pos: int) -> Option<(bool, int)> {
    if 0 <= pos < bits.len() {
        Some((bits[pos], pos + 1))
    } else {
        None
    }
}

/// The number that the next `count` bits spell.
pub open spec fn decode_bits(bits: Seq<bool>, pos: int, count: nat) -> Option<(nat, int)> {
    if 0 <= pos && pos + count <= bits.len() {
        Some((bits_value(bits.subrange(pos, pos + count)), pos + count))
    } else {
        None
    }
}

/// A number read back from as many of its low bits as hold it is that number.
pub proof fn lemma_decode_bits(bits: Seq<bool>, pos: int, v: nat, count: nat)
    requires
        v < pow2(count),
        holds_at(bits, pos, low_bits(v, count)),
    ensures
        decode_bits(bits, pos, count) == Some((v, pos + count)),
{
    lemma_low_bits_len(v, count);
    lemma_value_of_low_bits(v, count);
}

/// How far `mask` is from leaving the 32 bits of a bounded integer.
pub open spec fn room(mask: nat) -> nat {
    if mask < 0x1_0000_0000 {
        (0x1_0000_0000 - mask) as nat
    } else {
        0
    }
}

/// The bits that a bounded integer still takes once the bits below `mask`,
/// which add up to `low`, are out: one bit for each doubling of `mask` that
/// stays within 32 bits and could not reach `max`.
pub open spec fn int_bits_from(rest: nat, max: nat, low: nat, mask: nat) -> Seq<bool>
    decreases room(mask),
{
    if 0 < mask < 0x1_0000_0000 && low + mask < max {
        let bit = rest % 2 == 1;
        seq![bit] + int_bits_from(
            rest / 2,
            max,
            if bit {
                low + mask
            } else {
                low
            },
            2 * mask,
        )
    } else {
        Seq::empty()
    }
}

/// The bits of `v` as an integer known to be below `max`: as few of its low
/// bits as tell it from every other number below `max`.
pub open spec fn int_bits(v: nat, max: nat) -> Seq<bool> {
    int_bits_from(v, max, 0, 1)
}

/// Reads on a bounded integer of which the bits below `mask`, adding up to
/// `low`, are known.
pub open spec fn decode_int_from(bits: Seq<bool>, pos: int, max: nat, low: nat, mask: nat)
    -> Option<(nat, int)>
    decreases room(mask),
{
    if 0 < mask < 0x1_0000_0000 && low + mask < max {
        if 0 <= pos < bits.len() {
            decode_int_from(
                bits,
                pos + 1,
                max,
                if bits[pos] {
                    low + mask
                } else {
                    low
                },
                2 * mask,
            )
        } else {
            None
        }
    } else {
        Some((low, pos))
    }
}

/// The integer below `max` that the stream holds at `pos`.
pub open spec fn decode_int(bits: Seq<bool>, pos: int, max: nat) -> Option<(nat, int)> {
    decode_int_from(bits, pos, max, 0, 1)
}

/// A bounded integer takes at most 32 bits.
pub proof fn lemma_int_bits_len(rest: nat, max: nat, low: nat, mask: nat, place: nat)
    requires
        mask == pow2(place),
        place <= 32,
    ensures
        int_bits_from(rest, max, low, mask).len() <= 32 - place,
    decreases 32 - place,
{
    lemma2_to64();
    if 0 < mask < 0x1_0000_0000 && low + mask < max {
        vstd::arithmetic::power2::lemma_pow2_unfold(place + 1);
        if place == 32 {
            assert(false);
        }
        let bit = rest % 2 == 1;
        lemma_int_bits_len(
            rest / 2,
            max,
            if bit {
                low + mask
            } else {
                low
            },
            2 * mask,
            place + 1,
        );
    }
}

/// What a bounded integer decodes to is below its bound, or zero where the
/// bound is zero, and it ends within the stream.
pub proof fn lemma_decode_int_bound(bits: Seq<bool>, pos: int, max: nat, low: nat, mask: nat)
    requires
        low < max || low == 0,
        0 <= pos <= bits.len(),
    ensures
        decode_int_from(bits, pos, max, low, mask) matches Some((v, end)) ==> (v < max || v == 0)
            && pos <= end <= bits.len(),
    decreases room(mask),
{
    if 0 < mask < 0x1_0000_0000 && low + mask < max {
        if 0 <= pos < bits.len() {
            lemma_decode_int_bound(
                bits,
                pos + 1,
                max,
                if bits[pos] {
                    low + mask
                } else {
                    low
                },
                2 * mask,
            );
        }
    }
}

/// Reading on where writing went on gives back the number that was written.
pub proof fn lemma_decode_int_from(
    bits: Seq<bool>,
    pos: int,
    rest: nat,
    max: nat,
    low: nat,
    mask: nat,
)
    requires
        0 < mask,
        low + mask * rest < max,
        low + mask * rest < 0x1_0000_0000,
        holds_at(bits, pos, int_bits_from(rest, max, low, mask)),
    ensures
        decode_int_from(bits, pos, max, low, mask) == Some(
            ((low + mask * rest) as nat, pos + int_bits_from(rest, max, low, mask).len()),
        ),
    decreases room(mask),
{
    let window = int_bits_from(rest, max, low, mask);
    if 0 < mask < 0x1_0000_0000 && low + mask < max {
        let bit = rest % 2 == 1;
        let next_low: nat = if bit {
            low + mask
        } else {
            low
        };
        let tail = int_bits_from(rest / 2, max, next_low, 2 * mask);
        assert(window == seq![bit] + tail);
        lemma_holds_at_split(bits, pos, seq![bit], tail);
        assert(bits[pos] == bits.subrange(pos, pos + 1)[0]);
        assert(next_low + (2 * mask) * (rest / 2) == low + mask * rest) by (nonlinear_arith)
            requires
                next_low == low + mask * (rest % 2),
                rest == 2 * (rest / 2) + rest % 2,
        ;
        lemma_decode_int_from(bits, pos + 1, rest / 2, max, next_low, 2 * mask);
    } else {
        assert(window.len() == 0);
        assert(rest == 0) by (nonlinear_arith)
            requires
                0 < mask,
                low + mask * rest < max,
                low + mask * rest < 0x1_0000_0000,
                mask >= 0x1_0000_0000 || low + mask >= max,
        ;
        assert(mask * rest == 0) by (nonlinear_arith)
            requires
                rest == 0,
        ;
    }
}

/// An integer below its bound, written as a bounded integer, is read back as
/// it was.
pub proof fn lemma_decode_int(bits: Seq<bool>, pos: int, v: nat, max: nat)
    requires
        v < max,
        v < 0x1_0000_0000,
        holds_at(bits, pos, int_bits(v, max)),
    ensures
        decode_int(bits, pos, max) == Some((v, pos + int_bits(v, max).len())),
{
    assert(1 * v == v) by (nonlinear_arith);
    lemma_decode_int_from(bits, pos, v, max, 0, 1);
}

/// The bits of `v` as a packed integer: groups of a flag that says whether
/// another group follows and seven bits of `v`, the lowest seven first.
pub open spec fn packed_bits(v: nat) -> Seq<bool>
    decreases v,
{
    let rest = v / 128;
    seq![rest != 0] + low_bits(v % 128, 7) + if rest != 0 {
        packed_bits(rest)
    } else {
        Seq::empty()
    }
}

/// The number of groups that `v` takes as a packed integer.
pub open spec fn packed_groups(v: nat) -> nat
    decreases v,
{
    if v < 128 {
        1
    } else {
        1 + packed_groups(v / 128)
    }
}

/// The number of binary digits of `v`: none for zero.
pub open spec fn bit_length(v: nat) -> nat
    decreases v,
{
    if v == 0 {
        0
    } else {
        1 + bit_length(v / 2)
    }
}

/// The numbers that fit in the groups from `group` on, of the five that a
/// packed integer may have, are those below this.
pub open spec fn packed_limit(group: nat) -> nat
    decreases 5 - group,
{
    if group >= 5 {
        1
    } else {
        128 * packed_limit(group + 1)
    }
}

/// Reads the groups of a packed integer from `group` on: what they spell,
/// before anything is cut off.
pub open spec fn decode_packed_from(bits: Seq<bool>, pos: int, group: nat) -> Option<(nat, int)>
    decreases 5 - group,
{
    if group >= 5 {
        Some((0, pos))
    } else if pos < 0 || pos + 8 > bits.len() {
        None
    } else {
        let part = bits_value(bits.subrange(pos + 1, pos + 8));
        if !bits[pos] {
            Some((part, pos + 8))
        } else {
            match decode_packed_from(bits, pos + 8, group + 1) {
                Some((rest, end)) => Some((part + 128 * rest, end)),
                None => None,
            }
        }
    }
}

/// The packed integer that the stream holds at `pos`: at most five groups,
/// of which the lowest 32 bits count.
pub open spec fn decode_packed(bits: Seq<bool>, pos: int) -> Option<(nat, int)> {
    match decode_packed_from(bits, pos, 0) {
        Some((v, end)) => Some((v % 0x1_0000_0000, end)),
        None => None,
    }
}

/// A packed integer takes eight bits for each of its groups.
pub proof fn lemma_packed_bits_len(v: nat)
    ensures
        packed_bits(v).len() == 8 * packed_groups(v),
    decreases v,
{
    lemma_low_bits_len(v % 128, 7);
    if v >= 128 {
        lemma_packed_bits_len(v / 128);
    }
}

/// A number of 128 or more has seven binary digits more than its 128th.
proof fn lemma_bit_length_step(v: nat)
    requires
        v >= 128,
    ensures
        bit_length(v) == 7 + bit_length(v / 128),
{
    reveal_with_fuel(bit_length, 8);
    assert(v / 2 / 2 / 2 / 2 / 2 / 2 / 2 == v / 128);
}

/// A packed integer takes one group for every seven binary digits of the
/// number, rounded up, and one group for zero.
pub proof fn lemma_packed_groups(v: nat)
    ensures
        packed_groups(v) == if v == 0 {
            1
        } else {
            (bit_length(v) + 6) / 7
        },
    decreases v,
{
    if v >= 128 {
        lemma_packed_groups(v / 128);
        lemma_bit_length_step(v);
    } else {
        reveal_with_fuel(bit_length, 9);
    }
}

/// What the groups from `group` on decode to fits in them, and ends at most
/// eight bits per group further on.
pub proof fn lemma_decode_packed_bound(bits: Seq<bool>, pos: int, group: nat)
    requires
        group <= 5,
        0 <= pos,
    ensures
        packed_limit(group) >= 1,
        decode_packed_from(bits, pos, group) matches Some((v, end)) ==> v < packed_limit(group)
            && pos <= end <= pos + 8 * (5 - group) && (group < 5 ==> pos < end <= bits.len()),
    decreases 5 - group,
{
    if group < 5 {
        lemma_decode_packed_bound(bits, pos + 8, group + 1);
        if pos + 8 <= bits.len() {
            let window = bits.subrange(pos + 1, pos + 8);
            assert(window.len() == 7);
            lemma_bits_value_bound(window);
            lemma2_to64();
        }
    }
}

/// A number that fits in the groups from `group` on is read back from its
/// packed bits as it was.
pub proof fn lemma_decode_packed_from(bits: Seq<bool>, pos: int, v: nat, group: nat)
    requires
        group < 5,
        v < packed_limit(group),
        holds_at(bits, pos, packed_bits(v)),
    ensures
        decode_packed_from(bits, pos, group) == Some((v, pos + packed_bits(v).len())),
    decreases 5 - group,
{
    let rest = v / 128;
    let tail = if rest != 0 {
        packed_bits(rest)
    } else {
        Seq::empty()
    };
    lemma2_to64();
    lemma_low_bits_len(v % 128, 7);
    lemma_value_of_low_bits(v % 128, 7);
    lemma_holds_at_split(bits, pos, seq![rest != 0] + low_bits(v % 128, 7), tail);
    lemma_holds_at_split(bits, pos, seq![rest != 0], low_bits(v % 128, 7));
    assert(bits[pos] == bits.subrange(pos, pos + 1)[0]);
    if rest != 0 {
        if group == 4 {
            reveal_with_fuel(packed_limit, 2);
            assert(false);
        }
        lemma_decode_packed_from(bits, pos + 8, rest, group + 1);
    }
}

/// A 32-bit number is read back from its packed bits as it was.
pub proof fn lemma_decode_packed(bits: Seq<bool>, pos: int, v: nat)
    requires
        v < 0x1_0000_0000,
        holds_at(bits, pos, packed_bits(v)),
    ensures
        decode_packed(bits, pos) == Some((v, pos + packed_bits(v).len())),
{
    reveal_with_fuel(packed_limit, 6);
    lemma_decode_packed_from(bits, pos, v, 0);
}

/// The number that stands for a signed value in the stream: twice its
/// magnitude, plus one if it is above zero.
pub open spec fn signed_code(v: int) -> nat {
    if v > 0 {
        (2 * v + 1) as nat
    } else {
        (2 * (-v)) as nat
    }
}

/// The signed value that `code` stands for. A code of one, a positive zero,
/// stands for zero as well.
pub open spec fn signed_value(code: nat) -> int {
    if code % 2 == 1 {
        (code / 2) as int
    } else {
        -(code / 2)
    }
}

/// Every signed value comes back from its code.
pub proof fn lemma_signed_roundtrip(v: int)
    ensures
        signed_value(signed_code(v)) == v,
{
}

/// The bits of three packed integers in a row.
pub open spec fn packed3_bits(v: (nat, nat, nat)) -> Seq<bool> {
    packed_bits(v.0) + packed_bits(v.1) + packed_bits(v.2)
}

/// The three packed integers that the stream holds at `pos`.
pub open spec fn decode_packed3(bits: Seq<bool>, pos: int) -> Option<((nat, nat, nat), int)> {
    match decode_packed(bits, pos) {
        Some((a, p1)) => match decode_packed(bits, p1) {
            Some((b, p2)) => match decode_packed(bits, p2) {
                Some((c, p3)) => Some(((a, b, c), p3)),
                None => None,
            },
            None => None,
        },
        None => None,
    }
}

/// The bits of three signed values in a row, each as the packed integer of
/// its code.
pub open spec fn signed3_bits(v: (int, int, int)) -> Seq<bool> {
    packed3_bits((signed_code(v.0), signed_code(v.1), signed_code(v.2)))
}

/// The three signed values that the stream holds at `pos`.
pub open spec fn decode_signed3(bits: Seq<bool>, pos: int) -> Option<((int, int, int), int)> {
    match decode_packed3(bits, pos) {
        Some(((a, b, c), end)) => Some(((signed_value(a), signed_value(b), signed_value(c)), end)),
        None => None,
    }
}

/// Three 32-bit numbers are read back from their packed bits as they were.
pub proof fn lemma_decode_packed3(bits: Seq<bool>, pos: int, v: (nat, nat, nat))
    requires
        v.0 < 0x1_0000_0000,
        v.1 < 0x1_0000_0000,
        v.2 < 0x1_0000_0000,
        holds_at(bits, pos, packed3_bits(v)),
    ensures
        decode_packed3(bits, pos) == Some((v, pos + packed3_bits(v).len())),
{
    lemma_holds_at_split(bits, pos, packed_bits(v.0) + packed_bits(v.1), packed_bits(v.2));
    lemma_holds_at_split(bits, pos, packed_bits(v.0), packed_bits(v.1));
    lemma_decode_packed(bits, pos, v.0);
    lemma_decode_packed(bits, pos + packed_bits(v.0).len(), v.1);
    lemma_decode_packed(bits, pos + packed_bits(v.0).len() + packed_bits(v.1).len(), v.2);
}

/// Three signed values whose codes fit in 32 bits are read back from their
/// packed bits as they were.
pub proof fn lemma_decode_signed3(bits: Seq<bool>, pos: int, v: (int, int, int))
    requires
        signed_code(v.0) < 0x1_0000_0000,
        signed_code(v.1) < 0x1_0000_0000,
        signed_code(v.2) < 0x1_0000_0000,
        holds_at(bits, pos, signed3_bits(v)),
    ensures
        decode_signed3(bits, pos) == Some((v, pos + signed3_bits(v).len())),
{
    lemma_decode_packed3(bits, pos, (signed_code(v.0), signed_code(v.1), signed_code(v.2)));
}

} // verus!
