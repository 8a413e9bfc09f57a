//! Bit sequences and the numbers they spell.
//!
//! A stream of bits is a `Seq<bool>`. Numbers go into it least significant
//! bit first, and a run of bytes stands for the bits of each byte in turn.

use vstd::arithmetic::power2::{lemma2_to64, lemma_pow2_unfold, pow2};
use vstd::prelude::*;

verus! {

/// The `n` lowest bits of `v`, least significant first.
pub open spec fn low_bits(v: nat, n: nat) -> Seq<bool>
    decreases n,
{
    if n == 0 {
        Seq::empty()
    } else {
        seq![v % 2 == 1] + low_bits(v / 2, (n - 1) as nat)
    }
}

/// The number that `bits` spell, least significant first.
pub open spec fn bits_value(bits: Seq<bool>) -> nat
    decreases bits.len(),
{
    if bits.len() == 0 {
        0
    } else {
        (if bits[0] {
            1nat
        } else {
            0nat
        }) + 2 * bits_value(bits.skip(1))
    }
}

/// The bits of a run of bytes: the eight bits of each byte in turn.
pub open spec fn bytes_bits(bytes: Seq<u8>) -> Seq<bool> {
    Seq::new(8 * bytes.len(), |i: int| low_bits(bytes[i / 8] as nat, 8)[i % 8])
}

/// `count` bits that are all clear.
pub open spec fn zero_bits(count: nat) -> Seq<bool> {
    Seq::new(count, |i: int| false)
}

/// The number of clear bits that bring a stream of `len` bits to a byte
/// boundary.
pub open spec fn padding(len: nat) -> nat {
    ((8 - len % 8) % 8) as nat
}

/// A stream and the clear bits that bring it to a byte boundary fill whole
/// bytes, and the clear bits are fewer than eight.
pub proof fn lemma_padding_aligns(len: nat)
    ensures
        (len + padding(len)) % 8 == 0,
        padding(len) < 8,
        len % 8 == 0 ==> padding(len) == 0,
{
}

/// The `n` lowest bits of a number are `n` bits.
pub proof fn lemma_low_bits_len(v: nat, n: nat)
    ensures
        low_bits(v, n).len() == n,
    decreases n,
{
    if n > 0 {
        lemma_low_bits_len(v / 2, (n - 1) as nat);
    }
}

/// One more bit on top of a number that fits in `n` bits is one more bit at
/// the end of its bits.
pub proof fn lemma_low_bits_push(v: nat, n: nat, b: bool)
    requires
        v < pow2(n),
    ensures
        low_bits(
            if b {
                v + pow2(n)
            } else {
                v
            },
            n + 1,
        ) == low_bits(v, n).push(b),
    decreases n,
{
    let top: nat = if b {
        pow2(n)
    } else {
        0
    };
    lemma2_to64();
    if n == 0 {
        assert(low_bits((v + top) / 2, 0) == Seq::<bool>::empty());
        assert(low_bits(v + top, 1) == seq![b] + Seq::<bool>::empty());
        assert(low_bits(v + top, 1) =~= low_bits(v, 0).push(b));
    } else {
        let m: nat = (n - 1) as nat;
        lemma_pow2_unfold(n);
        lemma_low_bits_push(v / 2, m, b);
        let half_top: nat = if b {
            pow2(m)
        } else {
            0
        };
        assert((v + top) / 2 == v / 2 + half_top);
        assert((v + top) % 2 == v % 2);
        assert(low_bits(v + top, n + 1) == seq![v % 2 == 1] + low_bits(v / 2 + half_top, n));
        assert(low_bits(v, n) == seq![v % 2 == 1] + low_bits(v / 2, m));
        assert(low_bits(v + top, n + 1) =~= low_bits(v, n).push(b));
    }
}

/// The bits of a number spell a number below two to the power of their count.
pub proof fn lemma_bits_value_bound(bits: Seq<bool>)
    ensures
        bits_value(bits) < pow2(bits.len()),
    decreases bits.len(),
{
    lemma2_to64();
    if bits.len() > 0 {
        lemma_bits_value_bound(bits.skip(1));
        lemma_pow2_unfold(bits.len());
    }
}

/// One more bit at the end adds its place value.
pub proof fn lemma_bits_value_push(bits: Seq<bool>, b: bool)
    ensures
        bits_value(bits.push(b)) == bits_value(bits) + if b {
            pow2(bits.len())
        } else {
            0
        },
    decreases bits.len(),
{
    lemma2_to64();
    if bits.len() == 0 {
        assert(bits.push(b).skip(1) =~= Seq::<bool>::empty());
        assert(bits_value(bits.push(b).skip(1)) == 0);
    } else {
        lemma_bits_value_push(bits.skip(1), b);
        lemma_pow2_unfold(bits.len());
        assert(bits.push(b).skip(1) =~= bits.skip(1).push(b));
    }
}

/// The bits of a number that fits in them spell that number.
pub proof fn lemma_value_of_low_bits(v: nat, n: nat)
    requires
        v < pow2(n),
    ensures
        bits_value(low_bits(v, n)) == v,
    decreases n,
{
    lemma2_to64();
    lemma_low_bits_len(v, n);
    if n > 0 {
        lemma_pow2_unfold(n);
        lemma_value_of_low_bits(v / 2, (n - 1) as nat);
        assert(low_bits(v, n).skip(1) =~= low_bits(v / 2, (n - 1) as nat));
    }
}

/// The number that bits spell has those bits.
pub proof fn lemma_low_bits_of_value(bits: Seq<bool>)
    ensures
        low_bits(bits_value(bits), bits.len()) == bits,
    decreases bits.len(),
{
    if bits.len() == 0 {
        assert(low_bits(bits_value(bits), 0) =~= bits);
    } else {
        lemma_low_bits_of_value(bits.skip(1));
        assert(bits_value(bits) / 2 == bits_value(bits.skip(1)));
        assert(low_bits(bits_value(bits), bits.len()) =~= bits);
    }
}

/// The bits of a number split at any place into the bits of its remainder
/// and those of its quotient.
pub proof fn lemma_low_bits_concat(low: nat, a: nat, high: nat, b: nat)
    requires
        low < pow2(a),
    ensures
        low_bits(low + pow2(a) * high, a + b) == low_bits(low, a) + low_bits(high, b),
    decreases a,
{
    lemma2_to64();
    if a == 0 {
        assert(pow2(0) * high == high) by (nonlinear_arith)
            requires
                pow2(0) == 1,
        ;
        assert(low_bits(low, 0) + low_bits(high, b) =~= low_bits(high, b));
    } else {
        let m: nat = (a - 1) as nat;
        lemma_pow2_unfold(a);
        let p = pow2(m);
        assert(pow2(a) * high == 2 * (p * high)) by (nonlinear_arith)
            requires
                pow2(a) == 2 * p,
        ;
        lemma_low_bits_concat(low / 2, m, high, b);
        let v = low + pow2(a) * high;
        assert(v / 2 == low / 2 + p * high);
        assert(v % 2 == low % 2);
        assert(low_bits(v, a + b) == seq![low % 2 == 1] + low_bits(v / 2, (a + b - 1) as nat));
        assert(low_bits(low, a) == seq![low % 2 == 1] + low_bits(low / 2, m));
        assert(low_bits(v, a + b) =~= low_bits(low, a) + low_bits(high, b));
    }
}

/// A run of bytes has eight bits for each byte.
pub proof fn lemma_bytes_bits_len(bytes: Seq<u8>)
    ensures
        bytes_bits(bytes).len() == 8 * bytes.len(),
{
}

/// The bits of a run of bytes and one more byte are the bits of the run and
/// then the eight bits of that byte.
pub proof fn lemma_bytes_bits_push(bytes: Seq<u8>, byte: u8)
    ensures
        bytes_bits(bytes.push(byte)) == bytes_bits(bytes) + low_bits(byte as nat, 8),
{
    lemma_low_bits_len(byte as nat, 8);
    let whole = bytes_bits(bytes.push(byte));
    let parts = bytes_bits(bytes) + low_bits(byte as nat, 8);
    assert(whole.len() == parts.len());
    assert forall|i: int| 0 <= i < whole.len() implies whole[i] == parts[i] by {
        if i < 8 * bytes.len() {
            assert(bytes.push(byte)[i / 8] == bytes[i / 8]);
        } else {
            assert(i / 8 == bytes.len());
            assert(i % 8 == i - 8 * bytes.len());
        }
    }
    assert(whole =~= parts);
}

/// The bits of zero are all clear.
pub proof fn lemma_low_bits_zero(n: nat)
    ensures
        low_bits(0, n) == zero_bits(n),
    decreases n,
{
    if n > 0 {
        lemma_low_bits_zero((n - 1) as nat);
    }
    assert(low_bits(0, n) =~= zero_bits(n));
}

/// A number that fits in `n` bits has only clear bits above them.
pub proof fn lemma_low_bits_extend(v: nat, n: nat, more: nat)
    requires
        v < pow2(n),
    ensures
        low_bits(v, n + more) == low_bits(v, n) + zero_bits(more),
{
    lemma_low_bits_concat(v, n, 0, more);
    lemma_low_bits_zero(more);
    assert(pow2(n) * 0 == 0) by (nonlinear_arith);
}

/// Bit `k` of a byte.
pub fn byte_bit(byte: u8, k: u8) -> (bit: bool)
    requires
        k < 8,
    ensures
        bit == low_bits(byte as nat, 8)[k as int],
{
    proof {
        reveal_with_fuel(low_bits, 9);
        assert(k < 8 ==> (((byte >> k) & 1) == 1) == (if k == 0 {
            byte % 2 == 1
        } else if k == 1 {
            (byte / 2) % 2 == 1
        } else if k == 2 {
            (byte / 4) % 2 == 1
        } else if k == 3 {
            (byte / 8) % 2 == 1
        } else if k == 4 {
            (byte / 16) % 2 == 1
        } else if k == 5 {
            (byte / 32) % 2 == 1
        } else if k == 6 {
            (byte / 64) % 2 == 1
        } else {
            (byte / 128) % 2 == 1
        })) by (bit_vector);
    }
    (byte >> k) & 1 == 1
}

/// A byte is the number that its eight bits spell.
pub proof fn lemma_byte_bits(byte: u8)
    ensures
        low_bits(byte as nat, 8).len() == 8,
        bits_value(low_bits(byte as nat, 8)) == byte,
{
    lemma2_to64();
    lemma_low_bits_len(byte as nat, 8);
    lemma_value_of_low_bits(byte as nat, 8);
}

/// The bytes that hold `bits`, eight to a byte and each byte from its least
/// significant bit up. The bits that the last byte has to spare are clear.
pub open spec fn bits_bytes(bits: Seq<bool>) -> Seq<u8> {
    Seq::new(
        ((bits.len() + 7) / 8) as nat,
        |i: int|
            bits_value(
                bits.subrange(
                    8 * i,
                    if 8 * i + 8 <= bits.len() {
                        8 * i + 8
                    } else {
                        bits.len() as int
                    },
                ),
            ) as u8,
    )
}

/// The bytes that hold the bits of a run of bytes are that run.
pub proof fn lemma_bytes_of_bits(bytes: Seq<u8>)
    ensures
        bits_bytes(bytes_bits(bytes)) == bytes,
{
    let bits = bytes_bits(bytes);
    let back = bits_bytes(bits);
    assert(back.len() == bytes.len());
    assert forall|i: int| 0 <= i < bytes.len() implies back[i] == bytes[i] by {
        let chunk = bits.subrange(8 * i, 8 * i + 8);
        lemma_byte_bits(bytes[i]);
        assert(chunk =~= low_bits(bytes[i] as nat, 8)) by {
            let byte = low_bits(bytes[i] as nat, 8);
            assert forall|j: int| 0 <= j < 8 implies chunk[j] == byte[j] by {
                assert((8 * i + j) / 8 == i);
                assert((8 * i + j) % 8 == j);
            }
        }
    }
    assert(back =~= bytes);
}

/// The bits of the bytes that hold a run of bits are that run, and then
/// clear bits up to a byte boundary.
pub proof fn lemma_bits_of_bytes(bits: Seq<bool>)
    ensures
        bytes_bits(bits_bytes(bits)) == bits + zero_bits(padding(bits.len())),
{
    lemma2_to64();
    let bytes = bits_bytes(bits);
    let whole = bytes_bits(bytes);
    let padded = bits + zero_bits(padding(bits.len()));
    assert(whole.len() == padded.len());
    assert forall|k: int| 0 <= k < whole.len() implies whole[k] == padded[k] by {
        let i = k / 8;
        let j = k % 8;
        let end = if 8 * i + 8 <= bits.len() {
            8 * i + 8
        } else {
            bits.len() as int
        };
        let chunk = bits.subrange(8 * i, end);
        lemma_bits_value_bound(chunk);
        lemma_low_bits_of_value(chunk);
        assert(chunk.len() <= 8);
        if chunk.len() < 8 {
            vstd::arithmetic::power2::lemma_pow2_strictly_increases(chunk.len(), 8);
        }
        lemma_low_bits_extend(bits_value(chunk), chunk.len(), (8 - chunk.len()) as nat);
        assert(bytes[i] as nat == bits_value(chunk));
        if j < chunk.len() {
            assert(chunk[j] == bits[k]);
        }
    }
    assert(whole =~= padded);
}

/// The bytes whose bits are a run of bits and then clear bits up to a byte
/// boundary are the bytes that hold that run.
pub proof fn lemma_bytes_of_padded_bits(bytes: Seq<u8>, bits: Seq<bool>)
    requires
        bytes_bits(bytes) == bits + zero_bits(padding(bits.len())),
    ensures
        bytes == bits_bytes(bits),
{
    lemma_bytes_of_bits(bytes);
    lemma_bits_of_bytes(bits);
    lemma_bytes_of_bits(bits_bytes(bits));
}

} // verus!
