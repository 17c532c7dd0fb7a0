//! Bit strings, most significant bit first, and the bytes that carry them.

use vstd::arithmetic::power2::{lemma_pow2_unfold, pow2};
use vstd::prelude::*;

verus! {

/// Bit `k` of a byte, where bit 0 is the most significant one.
pub open spec fn bit_of(byte: u8, k: int) -> bool {
    (byte >> ((7 - k) as u8)) & 1 == 1
}

/// The bits of a byte string in stream order.
pub open spec fn bits_of(data: Seq<u8>) -> Seq<bool> {
    Seq::new(8 * data.len(), |i: int| bit_of(data[i / 8], i % 8))
}

/// What bit `i` of `bits` contributes to a byte in which it has weight `weight`.
/// Positions past the end count as zero bits.
pub open spec fn weighted(bits: Seq<bool>, i: int, weight: int) -> int {
    if 0 <= i < bits.len() && bits[i] {
        weight
    } else {
        0
    }
}

/// The byte made of the eight bits that start at `at`, padded with zero bits.
#[verifier::opaque]
pub open spec fn octet(bits: Seq<bool>, at: int) -> u8 {
    (weighted(bits, at, 128) + weighted(bits, at + 1, 64) + weighted(bits, at + 2, 32) + weighted(
        bits,
        at + 3,
        16,
    ) + weighted(bits, at + 4, 8) + weighted(bits, at + 5, 4) + weighted(bits, at + 6, 2) + weighted(
        bits,
        at + 7,
        1,
    )) as u8
}

/// Number of bytes that hold `len` bits.
pub open spec fn byte_count(len: int) -> int {
    (len + 7) / 8
}

/// The bytes that carry `bits`, the last one padded with zero bits.
pub open spec fn pack(bits: Seq<bool>) -> Seq<u8> {
    Seq::new(byte_count(bits.len() as int) as nat, |i: int| octet(bits, 8 * i))
}

/// `value` in binary with exactly `count` digits. Higher digits are cut off.
pub open spec fn binary(value: nat, count: nat) -> Seq<bool>
    decreases count,
{
    if count == 0 {
        Seq::empty()
    } else {
        binary(value / 2, (count - 1) as nat).push(value % 2 == 1)
    }
}

/// The number that `bits` spells in binary.
pub open spec fn number(bits: Seq<bool>) -> nat
    decreases bits.len(),
{
    if bits.len() == 0 {
        0
    } else {
        2 * number(bits.drop_last()) + (if bits.last() {
            1nat
        } else {
            0nat
        })
    }
}

/// `count` copies of `bit`.
pub open spec fn run(bit: bool, count: nat) -> Seq<bool> {
    Seq::new(count, |i: int| bit)
}

pub proof fn lemma_octet_bits(bits: Seq<bool>, at: int, k: int)
    requires
        0 <= at,
        0 <= k < 8,
    ensures
        bit_of(octet(bits, at), k) == (at + k < bits.len() && bits[at + k]),
{
    reveal(octet);
    let b = |j: int| at + j < bits.len() && bits[at + j];
    let (b0, b1, b2, b3) = (b(0), b(1), b(2), b(3));
    let (b4, b5, b6, b7) = (b(4), b(5), b(6), b(7));
    let w0: u8 = if b0 { 128 } else { 0 };
    let w1: u8 = if b1 { 64 } else { 0 };
    let w2: u8 = if b2 { 32 } else { 0 };
    let w3: u8 = if b3 { 16 } else { 0 };
    let w4: u8 = if b4 { 8 } else { 0 };
    let w5: u8 = if b5 { 4 } else { 0 };
    let w6: u8 = if b6 { 2 } else { 0 };
    let w7: u8 = if b7 { 1 } else { 0 };
    let x = (w0 + w1 + w2 + w3 + w4 + w5 + w6 + w7) as u8;
    assert(x == octet(bits, at));
    assert(((x >> 7u8) & 1 == 1) == b0 && ((x >> 6u8) & 1 == 1) == b1 && ((x >> 5u8) & 1 == 1) == b2
        && ((x >> 4u8) & 1 == 1) == b3 && ((x >> 3u8) & 1 == 1) == b4 && ((x >> 2u8) & 1 == 1) == b5
        && ((x >> 1u8) & 1 == 1) == b6 && ((x >> 0u8) & 1 == 1) == b7) by (bit_vector)
        requires
            x == (w0 + w1 + w2 + w3 + w4 + w5 + w6 + w7) as u8,
            w0 == (if b0 { 128u8 } else { 0u8 }),
            w1 == (if b1 { 64u8 } else { 0u8 }),
            w2 == (if b2 { 32u8 } else { 0u8 }),
            w3 == (if b3 { 16u8 } else { 0u8 }),
            w4 == (if b4 { 8u8 } else { 0u8 }),
            w5 == (if b5 { 4u8 } else { 0u8 }),
            w6 == (if b6 { 2u8 } else { 0u8 }),
            w7 == (if b7 { 1u8 } else { 0u8 }),
    ;
}

proof fn lemma_bits_fix_byte(a: u8, b: u8)
    requires
        forall|k: int| 0 <= k < 8 ==> bit_of(a, k) == bit_of(b, k),
    ensures
        a == b,
{
    assert(bit_of(a, 0) == bit_of(b, 0) && bit_of(a, 1) == bit_of(b, 1));
    assert(bit_of(a, 2) == bit_of(b, 2) && bit_of(a, 3) == bit_of(b, 3));
    assert(bit_of(a, 4) == bit_of(b, 4) && bit_of(a, 5) == bit_of(b, 5));
    assert(bit_of(a, 6) == bit_of(b, 6) && bit_of(a, 7) == bit_of(b, 7));
    assert(a == b) by (bit_vector)
        requires
            ((a >> 7u8) & 1 == 1) == ((b >> 7u8) & 1 == 1),
            ((a >> 6u8) & 1 == 1) == ((b >> 6u8) & 1 == 1),
            ((a >> 5u8) & 1 == 1) == ((b >> 5u8) & 1 == 1),
            ((a >> 4u8) & 1 == 1) == ((b >> 4u8) & 1 == 1),
            ((a >> 3u8) & 1 == 1) == ((b >> 3u8) & 1 == 1),
            ((a >> 2u8) & 1 == 1) == ((b >> 2u8) & 1 == 1),
            ((a >> 1u8) & 1 == 1) == ((b >> 1u8) & 1 == 1),
            ((a >> 0u8) & 1 == 1) == ((b >> 0u8) & 1 == 1),
    ;
}

/// Packing keeps every bit and fills up with zero bits.
pub proof fn lemma_bits_of_pack(bits: Seq<bool>)
    ensures
        bits_of(pack(bits)) =~= bits + run(false, (8 * byte_count(bits.len() as int) - bits.len()) as nat),
        bits_of(pack(bits)).take(bits.len() as int) =~= bits,
{
    let data = pack(bits);
    let n = bits.len() as int;
    let padded = bits + run(false, (8 * byte_count(n) - n) as nat);
    assert forall|i: int| 0 <= i < 8 * data.len() implies bits_of(data)[i] == padded[i] by {
        let at = 8 * (i / 8);
        lemma_octet_bits(bits, at, i - at);
        assert(i - at == i % 8);
        assert(data[i / 8] == octet(bits, at));
    }
    assert(padded.len() == 8 * data.len());
    assert(bits_of(data) =~= padded);
    assert(padded.take(n) =~= bits);
}

/// Bytes that hold `bits` and zero bits after them are the packed form of `bits`.
pub proof fn lemma_pack_unique(data: Seq<u8>, bits: Seq<bool>)
    requires
        data.len() == byte_count(bits.len() as int),
        forall|i: int|
            0 <= i < 8 * data.len() ==> #[trigger] bits_of(data)[i] == (i < bits.len() && bits[i]),
    ensures
        data == pack(bits),
{
    assert forall|j: int| 0 <= j < data.len() implies data[j] == pack(bits)[j] by {
        assert forall|k: int| 0 <= k < 8 implies bit_of(data[j], k) == bit_of(pack(bits)[j], k) by {
            lemma_octet_bits(bits, 8 * j, k);
            assert((8 * j + k) / 8 == j && (8 * j + k) % 8 == k);
            assert(bits_of(data)[8 * j + k] == bit_of(data[j], k));
        }
        lemma_bits_fix_byte(data[j], pack(bits)[j]);
    }
    assert(data =~= pack(bits));
}

pub proof fn lemma_bits_of_concat(a: Seq<u8>, b: Seq<u8>)
    ensures
        bits_of(a + b) =~= bits_of(a) + bits_of(b),
{
    assert forall|i: int| 0 <= i < 8 * (a.len() + b.len()) implies bits_of(a + b)[i] == (bits_of(a)
        + bits_of(b))[i] by {
        if i >= 8 * a.len() {
            assert((i - 8 * a.len()) / 8 == i / 8 - a.len());
            assert((i - 8 * a.len()) % 8 == i % 8);
        }
    }
}

pub proof fn lemma_bits_of_suffix(data: Seq<u8>, from: int)
    requires
        0 <= from <= data.len(),
    ensures
        bits_of(data.skip(from)) =~= bits_of(data).skip(8 * from),
{
    assert(data =~= data.take(from) + data.skip(from));
    lemma_bits_of_concat(data.take(from), data.skip(from));
}

pub proof fn lemma_binary_len(value: nat, count: nat)
    ensures
        binary(value, count).len() == count,
    decreases count,
{
    if count > 0 {
        lemma_binary_len(value / 2, (count - 1) as nat);
    }
}

/// A number that fits in `count` digits is what its digits spell.
pub proof fn lemma_number_binary(value: nat, count: nat)
    requires
        value < pow2(count),
    ensures
        binary(value, count).len() == count,
        number(binary(value, count)) == value,
    decreases count,
{
    lemma_binary_len(value, count);
    if count == 0 {
        vstd::arithmetic::power2::lemma2_to64();
    } else {
        lemma_pow2_unfold(count);
        lemma_number_binary(value / 2, (count - 1) as nat);
        let b = binary(value, count);
        assert(b.drop_last() =~= binary(value / 2, (count - 1) as nat));
    }
}

pub proof fn lemma_number_bound(bits: Seq<bool>)
    ensures
        number(bits) < pow2(bits.len()),
    decreases bits.len(),
{
    if bits.len() == 0 {
        vstd::arithmetic::power2::lemma2_to64();
    } else {
        lemma_pow2_unfold(bits.len());
        lemma_number_bound(bits.drop_last());
    }
}

pub proof fn lemma_number_push(bits: Seq<bool>, bit: bool)
    ensures
        number(bits.push(bit)) == 2 * number(bits) + (if bit {
            1nat
        } else {
            0nat
        }),
{
    assert(bits.push(bit).drop_last() =~= bits);
}

spec fn weight_of(bit: bool, weight: nat) -> nat {
    if bit {
        weight
    } else {
        0
    }
}

proof fn lemma_number_of_four(bits: Seq<bool>, four: Seq<bool>)
    requires
        four.len() == 4,
    ensures
        number(bits + four) == 16 * number(bits) + weight_of(four[0], 8) + weight_of(four[1], 4)
            + weight_of(four[2], 2) + weight_of(four[3], 1),
{
    let a = bits.push(four[0]);
    let b = a.push(four[1]);
    let c = b.push(four[2]);
    let d = c.push(four[3]);
    lemma_number_push(bits, four[0]);
    lemma_number_push(a, four[1]);
    lemma_number_push(b, four[2]);
    lemma_number_push(c, four[3]);
    assert(d =~= bits + four);
}

proof fn lemma_byte_of_weights(byte: u8)
    ensures
        byte == weight_of(bit_of(byte, 0), 128) + weight_of(bit_of(byte, 1), 64) + weight_of(
            bit_of(byte, 2),
            32,
        ) + weight_of(bit_of(byte, 3), 16) + weight_of(bit_of(byte, 4), 8) + weight_of(
            bit_of(byte, 5),
            4,
        ) + weight_of(bit_of(byte, 6), 2) + weight_of(bit_of(byte, 7), 1),
{
    assert(byte == (if (byte >> 7u8) & 1 == 1 { 128u8 } else { 0u8 }) + (if (byte >> 6u8) & 1 == 1 {
        64u8
    } else {
        0u8
    }) + (if (byte >> 5u8) & 1 == 1 { 32u8 } else { 0u8 }) + (if (byte >> 4u8) & 1 == 1 {
        16u8
    } else {
        0u8
    }) + (if (byte >> 3u8) & 1 == 1 { 8u8 } else { 0u8 }) + (if (byte >> 2u8) & 1 == 1 {
        4u8
    } else {
        0u8
    }) + (if (byte >> 1u8) & 1 == 1 { 2u8 } else { 0u8 }) + (if (byte >> 0u8) & 1 == 1 {
        1u8
    } else {
        0u8
    })) by (bit_vector);
}

/// The bits of a byte string spell its bytes, one after another, most significant bit first.
pub proof fn law_bits_spell_bytes(data: Seq<u8>, i: int)
    requires
        0 <= i < data.len(),
    ensures
        bits_of(data).len() == 8 * data.len(),
        number(bits_of(data).subrange(8 * i, 8 * i + 8)) == data[i],
{
    let digits = bits_of(data).subrange(8 * i, 8 * i + 8);
    let byte = data[i];
    assert forall|k: int| 0 <= k < 8 implies #[trigger] digits[k] == bit_of(byte, k) by {
        assert((8 * i + k) / 8 == i && (8 * i + k) % 8 == k);
    }
    let high = digits.take(4);
    let low = digits.skip(4);
    assert(high =~= Seq::<bool>::empty() + high);
    assert(digits =~= high + low);
    lemma_number_of_four(Seq::empty(), high);
    lemma_number_of_four(high, low);
    assert(number(Seq::<bool>::empty()) == 0);
    lemma_byte_of_weights(byte);
    assert(high[0] == digits[0] && high[1] == digits[1] && high[2] == digits[2] && high[3]
        == digits[3]);
    assert(low[0] == digits[4] && low[1] == digits[5] && low[2] == digits[6] && low[3] == digits[7]);
}

/// The digits of a number spell what is left of it below the power of two that they cannot reach.
pub proof fn law_binary_cuts_off_higher_digits(value: nat, count: nat)
    ensures
        binary(value, count).len() == count,
        number(binary(value, count)) == value % pow2(count),
    decreases count,
{
    lemma_binary_len(value, count);
    if count == 0 {
        vstd::arithmetic::power2::lemma2_to64();
    } else {
        let half = pow2((count - 1) as nat) as int;
        law_binary_cuts_off_higher_digits(value / 2, (count - 1) as nat);
        lemma_pow2_unfold(count);
        vstd::arithmetic::power2::lemma_pow2_pos((count - 1) as nat);
        assert(binary(value, count).drop_last() =~= binary(value / 2, (count - 1) as nat));
        vstd::arithmetic::div_mod::lemma_mod_breakdown(value as int, 2, half);
        assert(2 * half == pow2(count));
    }
}

}
