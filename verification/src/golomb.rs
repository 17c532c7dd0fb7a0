//! Exponential-Golomb codes: what they are, and the outside codec that reads and writes them.

use crate::bits::{binary, bits_of, lemma_binary_len, lemma_number_binary, number, run};
use crate::error::{rewrite_error, H264FrameBufferError, RewriteResult};
use exp_golomb::{ExpGolombDecoder, ExpGolombEncoder};
use vstd::arithmetic::power2::{lemma_pow2_strictly_increases, lemma_pow2_unfold, lemma2_to64, pow2};
use vstd::prelude::*;

verus! {

/// The largest `n` with `2^n <= x`, for a positive `x`.
pub open spec fn log2_floor(x: nat) -> nat
    decreases x,
{
    if x <= 1 {
        0
    } else {
        1 + log2_floor(x / 2)
    }
}

/// Number of bits of the unsigned code of `value`.
pub open spec fn ue_len(value: nat) -> nat {
    2 * log2_floor(value + 1) + 1
}

/// The unsigned Exp-Golomb code of `value`: `value + 1` in binary, after one zero bit fewer than
/// that has digits.
pub open spec fn ue_code(value: nat) -> Seq<bool> {
    let n = log2_floor(value + 1);
    run(false, n) + binary(value + 1, n + 1)
}

/// The code number that stands for the signed `value`.
pub open spec fn se_code_num(value: int) -> nat {
    if value <= 0 {
        (-value * 2) as nat
    } else {
        (value * 2 - 1) as nat
    }
}

/// The signed Exp-Golomb code of `value`.
pub open spec fn se_code(value: int) -> Seq<bool> {
    ue_code(se_code_num(value))
}

/// The signed value that the code number `k` stands for.
pub open spec fn se_value(k: nat) -> int {
    if k % 2 == 0 {
        -((k / 2) as int)
    } else {
        (k as int + 1) / 2
    }
}

/// Number of zero bits in a row that start at `pos`.
pub open spec fn zeros_at(bits: Seq<bool>, pos: int) -> nat
    decreases bits.len() - pos,
{
    if 0 <= pos < bits.len() && !bits[pos] {
        1 + zeros_at(bits, pos + 1)
    } else {
        0
    }
}

/// What the decoder reads at `pos`: after `z` zero bits and a one bit come `z` digits `y`, and the
/// value is `2^z - 1 + y`. It reads up to 64 zero bits, and with all 64 of them the value is `y`
/// alone. Codes that are cut off or have more zero bits have no value.
pub open spec fn golomb_at(bits: Seq<bool>, pos: int) -> Option<nat> {
    let z = zeros_at(bits, pos);
    if z > 64 || pos + 2 * z + 1 > bits.len() {
        None
    } else {
        let y = number(bits.subrange(pos + z + 1, pos + 2 * z + 1));
        if z == 64 {
            Some(y)
        } else {
            Some((pow2(z) - 1 + y) as nat)
        }
    }
}

/// The signed value of the code number that the decoder reads at `pos`. The greatest `u64` stands
/// for the least `i64`.
pub open spec fn signed_golomb_at(bits: Seq<bool>, pos: int) -> Option<int> {
    match golomb_at(bits, pos) {
        None => None,
        Some(k) => if k == u64::MAX {
            Some(i64::MIN as int)
        } else {
            Some(se_value(k))
        },
    }
}

/// Calls `exp_golomb::ExpGolombDecoder::new`, which takes a buffer that is not empty and a start
/// bit within its first byte. The result says whether it gave a decoder.
#[verifier::external_body]
pub(crate) fn decoder_opens(data: &[u8], start: u32) -> (opens: bool)
    ensures
        opens == (data@.len() > 0 && start <= 7),
{
    ExpGolombDecoder::new(data, start).is_some()
}

/// Calls `exp_golomb::ExpGolombDecoder::next_unsigned` on a fresh decoder. The result is the value
/// of the code at bit `start`, or `None` where the code is cut off or too long.
#[verifier::external_body]
pub(crate) fn decode_unsigned(data: &[u8], start: u32) -> (value: Option<u64>)
    requires
        data@.len() > 0,
        start <= 7,
    ensures
        match value {
            Some(v) => golomb_at(bits_of(data@), start as int) == Some(v as nat),
            None => golomb_at(bits_of(data@), start as int) is None,
        },
{
    ExpGolombDecoder::new(data, start)?.next_unsigned()
}

/// Calls `exp_golomb::ExpGolombDecoder::next_signed` on a fresh decoder. The result is the signed
/// value of the code at bit `start`, or `None` where the code is cut off or too long.
#[verifier::external_body]
pub(crate) fn decode_signed(data: &[u8], start: u32) -> (value: Option<i64>)
    requires
        data@.len() > 0,
        start <= 7,
    ensures
        match value {
            Some(v) => signed_golomb_at(bits_of(data@), start as int) == Some(v as int),
            None => signed_golomb_at(bits_of(data@), start as int) is None,
        },
{
    ExpGolombDecoder::new(data, start)?.next_signed()
}

/// Calls `exp_golomb::ExpGolombEncoder::put_unsigned` on an encoder over nine zero bytes, and then
/// `close`, which gives the byte and the bit within it where the next code would start. The bytes
/// start with the code of `value`, which for a `u32` always fits.
#[verifier::external_body]
pub(crate) fn encode_unsigned(value: u32) -> (encoded: ([u8; 9], usize, u32))
    ensures
        encoded.1 * 8 + encoded.2 == ue_code(value as nat).len(),
        bits_of(encoded.0@).take(encoded.1 * 8 + encoded.2) == ue_code(value as nat),
{
    let mut bytes = [0u8; 9];
    let mut encoder = ExpGolombEncoder::new(&mut bytes, 0).expect("the buffer is not empty");
    encoder.put_unsigned(value as u64).expect("the code of a u32 fits in nine bytes");
    let (byte, bit) = encoder.close();
    (bytes, byte, bit)
}

pub proof fn lemma_log2_bounds(x: nat)
    requires
        x > 0,
    ensures
        pow2(log2_floor(x)) <= x < pow2(log2_floor(x) + 1),
    decreases x,
{
    lemma2_to64();
    if x > 1 {
        lemma_log2_bounds(x / 2);
        lemma_pow2_unfold(log2_floor(x));
        lemma_pow2_unfold(log2_floor(x) + 1);
    }
}

/// The power of two at or below `x` fixes its logarithm.
pub proof fn lemma_log2_unique(x: nat, n: nat)
    requires
        pow2(n) <= x < pow2(n + 1),
    ensures
        log2_floor(x) == n,
{
    vstd::arithmetic::power2::lemma_pow2_pos(n);
    lemma_log2_bounds(x);
    let m = log2_floor(x);
    if m < n {
        if m + 1 < n {
            lemma_pow2_strictly_increases(m + 1, n);
        }
    } else if n < m {
        if n + 1 < m {
            lemma_pow2_strictly_increases(n + 1, m);
        }
    }
}

pub proof fn lemma_ue_code_len(value: nat)
    ensures
        ue_code(value).len() == ue_len(value),
{
    let n = log2_floor(value + 1);
    lemma_binary_len(value + 1, n + 1);
}

/// A value below `2^bound - 1` has a code of at most `2 * bound - 1` bits.
pub proof fn lemma_ue_len_bound(value: nat, bound: nat)
    requires
        bound > 0,
        value + 1 < pow2(bound),
    ensures
        ue_len(value) <= 2 * bound - 1,
{
    let n = log2_floor(value + 1);
    lemma_log2_bounds(value + 1);
    if n >= bound {
        if n > bound {
            lemma_pow2_strictly_increases(bound, n);
        }
    }
}

proof fn lemma_zeros_at(bits: Seq<bool>, pos: int, count: nat)
    requires
        0 <= pos,
        pos + count < bits.len(),
        forall|i: int| pos <= i < pos + count ==> !bits[i],
        bits[pos + count],
    ensures
        zeros_at(bits, pos) == count,
    decreases count,
{
    if count > 0 {
        lemma_zeros_at(bits, pos + 1, (count - 1) as nat);
    }
}

pub proof fn lemma_number_leading_one(bits: Seq<bool>)
    requires
        bits.len() > 0,
        bits[0],
    ensures
        number(bits) == pow2((bits.len() - 1) as nat) + number(bits.skip(1)),
    decreases bits.len(),
{
    lemma2_to64();
    if bits.len() == 1 {
        assert(bits.drop_last() =~= Seq::empty());
        assert(bits.skip(1) =~= Seq::empty());
        assert(number(Seq::<bool>::empty()) == 0);
    } else {
        lemma_number_leading_one(bits.drop_last());
        assert(bits.drop_last().skip(1) =~= bits.skip(1).drop_last());
        lemma_pow2_unfold((bits.len() - 1) as nat);
    }
}

/// The decoder gives back every value that has been coded, whatever stands before and after the
/// code. The values are those below the greatest `u64`.
pub proof fn law_unsigned_code_reads_back(before: Seq<bool>, value: nat, after: Seq<bool>)
    requires
        value < u64::MAX,
    ensures
        golomb_at(before + ue_code(value) + after, before.len() as int) == Some(value),
{
    let n = log2_floor(value + 1);
    let pos = before.len() as int;
    let bits = before + ue_code(value) + after;
    let digits = binary(value + 1, n + 1);
    lemma_log2_bounds(value + 1);
    lemma_number_binary(value + 1, n + 1);
    if !digits[0] {
        assert(digits =~= seq![false] + digits.skip(1));
        lemma_number_leading_zero(digits);
        crate::bits::lemma_number_bound(digits.skip(1));
    }
    assert(bits.subrange(pos + n, pos + 2 * n + 1) =~= digits);
    assert(bits[pos + n] == digits[0]);
    lemma_zeros_at(bits, pos, n);
    lemma_number_leading_one(digits);
    assert(bits.subrange(pos + n + 1, pos + 2 * n + 1) =~= digits.skip(1));
    lemma2_to64();
    if n >= 64 {
        if n > 64 {
            lemma_pow2_strictly_increases(64, n);
        }
        assert(pow2(64) == 0x1_0000_0000_0000_0000);
    }
}

proof fn lemma_number_leading_zero(bits: Seq<bool>)
    requires
        bits.len() > 0,
        !bits[0],
    ensures
        number(bits) == number(bits.skip(1)),
    decreases bits.len(),
{
    if bits.len() == 1 {
        assert(bits.drop_last() =~= Seq::empty());
        assert(bits.skip(1) =~= Seq::empty());
        assert(number(Seq::<bool>::empty()) == 0);
    } else {
        lemma_number_leading_zero(bits.drop_last());
        assert(bits.drop_last().skip(1) =~= bits.skip(1).drop_last());
    }
}

/// The decoder gives back every signed value that has been coded, whatever stands before and after
/// the code. The values are those whose code number is below the greatest `u64`.
pub proof fn law_signed_code_reads_back(before: Seq<bool>, value: int, after: Seq<bool>)
    requires
        i64::MIN < value <= i64::MAX,
    ensures
        signed_golomb_at(before + se_code(value) + after, before.len() as int) == Some(value),
{
    law_unsigned_code_reads_back(before, se_code_num(value), after);
}

proof fn lemma_leading_zeros(x: u64)
    requires
        x > 0,
    ensures
        vstd::std_specs::bits::u64_leading_zeros(x) <= 63,
        log2_floor(x as nat) == 63 - vstd::std_specs::bits::u64_leading_zeros(x),
{
    vstd::std_specs::bits::axiom_u64_leading_zeros(x);
    lemma2_to64();
    let zeros = vstd::std_specs::bits::u64_leading_zeros(x);
    let top = (63 - zeros) as u64;
    let above = (64 - zeros) as u64;
    assert(x >> top >= 1) by (bit_vector)
        requires
            (x >> top) & 1 != 0,
    ;
    vstd::bits::lemma_u64_shr_is_div(x, top);
    let (n, low) = (x as int, pow2(top as nat) as int);
    vstd::arithmetic::power2::lemma_pow2_pos(top as nat);
    assert(n >= low) by (nonlinear_arith)
        requires
            n / low >= 1,
            low > 0,
            n >= 0,
    ;
    if above < 64 {
        vstd::bits::lemma_u64_shr_is_div(x, above);
        let high = pow2(above as nat) as int;
        vstd::arithmetic::power2::lemma_pow2_pos(above as nat);
        assert(n < high) by (nonlinear_arith)
            requires
                n / high == 0,
                high > 0,
                n >= 0,
        ;
    }
    lemma_log2_unique(x as nat, top as nat);
}

/// Number of bits of the code of `value`. The greatest `u64` has none.
pub fn exp_golomb_bit_len(value: u64) -> (len: RewriteResult<usize>)
    ensures
        value < u64::MAX ==> len is Ok && len->Ok_0 == ue_len(value as nat),
        value == u64::MAX ==> len == Err::<usize, H264FrameBufferError>(
            rewrite_error("Exp-Golomb value is too large"),
        ),
{
    let code_num = match value.checked_add(1) {
        Some(code_num) => code_num,
        None => return Err(
            H264FrameBufferError::X264BitstreamRewrite("Exp-Golomb value is too large"),
        ),
    };
    let zeros = code_num.leading_zeros();
    proof {
        lemma_leading_zeros(code_num);
    }
    let significant_bits = (u64::BITS - zeros) as usize;
    Ok(significant_bits * 2 - 1)
}

/// The code of a number spells the number and one more, with one zero bit fewer before it than it has
/// digits.
pub proof fn law_code_spells_one_more(value: nat)
    ensures
        ({
            let digits = (ue_code(value).len() + 1) / 2;
            &&& ue_code(value).len() == 2 * digits - 1
            &&& pow2((digits - 1) as nat) <= value + 1 < pow2(digits as nat)
            &&& forall|i: int| 0 <= i < digits - 1 ==> !#[trigger] ue_code(value)[i]
            &&& number(ue_code(value).skip(digits - 1)) == value + 1
        }),
{
    let n = log2_floor(value + 1);
    lemma_log2_bounds(value + 1);
    lemma_number_binary(value + 1, n + 1);
    assert(ue_code(value).skip(n as int) =~= binary(value + 1, n + 1));
}

/// Signed numbers have the codes of all numbers in turn: zero, one, minus one, two, minus two and so on.
pub proof fn law_signed_codes_alternate(magnitude: nat)
    ensures
        se_code(0) == ue_code(0),
        magnitude > 0 ==> se_code(magnitude as int) == ue_code((2 * magnitude - 1) as nat),
        se_code(-(magnitude as int)) == ue_code(2 * magnitude),
{
}

}
