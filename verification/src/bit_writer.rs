//! Writing syntax elements into the payload of a NAL unit.

use crate::bits::{binary, bit_of, bits_of, byte_count, lemma_binary_len, lemma_pack_unique, pack, run};
use crate::golomb::{encode_unsigned, lemma_ue_code_len, lemma_ue_len_bound, se_code, ue_code};
use vstd::arithmetic::power2::{lemma2_to64, lemma2_to64_rest, lemma_pow2_unfold, pow2};
use vstd::prelude::*;

verus! {

/// Number of bits from `len` to the next byte boundary.
pub open spec fn padding(len: int) -> nat {
    ((8 - len % 8) % 8) as nat
}

/// The trailing bits of an RBSP of `len` bits: a one bit, then zero bits up to a byte boundary.
pub open spec fn trailing_bits(len: int) -> Seq<bool> {
    seq![true] + run(false, padding(len + 1))
}

/// A growing string of bits.
pub struct BitWriter {
    data: Vec<u8>,
    len: usize,
}

impl View for BitWriter {
    type V = Seq<bool>;

    closed spec fn view(&self) -> Seq<bool> {
        bits_of(self.data@).take(self.len as int)
    }
}

impl Default for BitWriter {
    fn default() -> (writer: Self)
        ensures
            writer.wf(),
            writer@ == Seq::<bool>::empty(),
    {
        let writer = BitWriter { data: Vec::new(), len: 0 };
        assert(writer@ =~= Seq::<bool>::empty());
        writer
    }
}

impl BitWriter {
    /// The bytes are just enough for the bits, and the rest of the last byte is zero.
    pub closed spec fn wf(self) -> bool {
        &&& self.data@.len() == byte_count(self.len as int)
        &&& forall|i: int|
            self.len <= i < 8 * self.data@.len() ==> !#[trigger] bits_of(self.data@)[i]
    }

    /// Appends a flag; any value but zero counts as one.
    pub fn bit(&mut self, bit: u8)
        requires
            old(self).wf(),
            old(self)@.len() < usize::MAX,
        ensures
            final(self).wf(),
            final(self)@ == old(self)@.push(bit != 0),
    {
        let ghost before = self@;
        let ghost old_bits = bits_of(self.data@);
        let ghost at = self.len as int;
        if self.len % 8 == 0 {
            self.data.push(0);
            proof {
                assert forall|k: int| 0 <= k < 8 implies !bit_of(0, k) by {
                    let shift = (7 - k) as u8;
                    assert((0u8 >> shift) & 1 == 0) by (bit_vector);
                }
            }
        }
        assert(at / 8 == self.data@.len() - 1);
        assert forall|i: int| 0 <= i < 8 * self.data@.len() implies #[trigger] bits_of(self.data@)[i]
            == (i < at && old_bits[i]) by {}
        let ghost zeroed = self.data@;
        if bit != 0 {
            let last = self.data.len() - 1;
            let shift: usize = 7 - self.len % 8;
            let byte = self.data[last];
            let mask: u8 = 1u8 << shift;
            self.data.set(last, byte | mask);
            proof {
                assert forall|i: int| 0 <= i < 8 * self.data@.len() implies #[trigger] bits_of(
                    self.data@,
                )[i] == (i == at || bits_of(zeroed)[i]) by {
                    if i / 8 == at / 8 {
                        let k = i % 8;
                        let s = (7 - k) as u8;
                        let t = shift as u8;
                        assert(mask == 1u8 << t);
                        assert((((byte | mask) >> s) & 1 == 1) == (s == t || (byte >> s) & 1 == 1))
                            by (bit_vector)
                            requires
                                s < 8,
                                t < 8,
                                mask == 1u8 << t,
                        ;
                        assert((s == t) == (i == at));
                    }
                }
            }
        }
        self.len = self.len + 1;
        assert(self@ =~= before.push(bit != 0));
    }

    /// Appends the low `count` binary digits of `value`.
    pub fn bits(&mut self, value: u32, count: usize)
        requires
            old(self).wf(),
            count <= 32,
            old(self)@.len() + count <= usize::MAX,
        ensures
            final(self).wf(),
            final(self)@ == old(self)@ + binary(value as nat, count as nat),
            final(self)@.len() == old(self)@.len() + count,
    {
        let ghost before = self@;
        let mut left: usize = count;
        proof {
            lemma_binary_len(value as nat, count as nat);
            let none = binary(value as nat / pow2(count as nat), 0);
            lemma_binary_len(value as nat / pow2(count as nat), 0);
            assert(before + none =~= before);
        }
        while left > 0
            invariant
                left <= count <= 32,
                self.wf(),
                before.len() + count <= usize::MAX,
                self@ == before + binary(value as nat / pow2(left as nat), (count - left) as nat),
            decreases left,
        {
            let shift: u32 = left as u32 - 1;
            let digit = (value >> shift) & 1;
            proof {
                let done = (count - left) as nat;
                let high = value as nat / pow2(shift as nat);
                lemma_binary_len(value as nat / pow2(left as nat), done);
                vstd::bits::lemma_u32_shr_is_div(value, shift);
                let x = value >> shift;
                assert(x & 1 == x % 2) by (bit_vector);
                lemma_pow2_unfold(left as nat);
                vstd::arithmetic::power2::lemma_pow2_pos(shift as nat);
                vstd::arithmetic::div_mod::lemma_div_denominator(
                    value as int,
                    pow2(shift as nat) as int,
                    2,
                );
                assert(pow2(left as nat) == pow2(shift as nat) * 2);
                assert(high / 2 == value as nat / pow2(left as nat));
                assert(binary(high, done + 1) =~= binary(high / 2, done).push(high % 2 == 1));
            }
            self.bit(digit as u8);
            left = left - 1;
            assert(self@ =~= before + binary(value as nat / pow2(left as nat), (count - left) as nat));
        }
        proof {
            lemma2_to64();
            assert(value as nat / 1 == value as nat);
        }
    }

    /// Appends the unsigned Exp-Golomb code of `value`.
    pub fn ue(&mut self, value: u32)
        requires
            old(self).wf(),
            old(self)@.len() + 65 <= usize::MAX,
        ensures
            final(self).wf(),
            final(self)@ == old(self)@ + ue_code(value as nat),
            final(self)@.len() <= old(self)@.len() + 65,
    {
        let ghost before = self@;
        let ghost code = ue_code(value as nat);
        let (encoded, byte, bit) = encode_unsigned(value);
        proof {
            lemma_ue_code_len(value as nat);
            lemma2_to64();
            lemma2_to64_rest();
            lemma_ue_len_bound(value as nat, 33);
            assert(bits_of(encoded@).take(byte * 8 + bit).len() == code.len() || byte * 8 + bit > 72);
        }
        let count: usize = byte * 8 + bit as usize;
        let mut pos: usize = 0;
        assert(before + code.take(0) =~= before);
        while pos < count
            invariant
                pos <= count <= 65,
                count == code.len(),
                bits_of(encoded@).take(count as int) == code,
                self.wf(),
                before.len() + 65 <= usize::MAX,
                self@ == before + code.take(pos as int),
            decreases count - pos,
        {
            let shift: usize = 7 - pos % 8;
            let octet: u8 = encoded[pos / 8];
            let digit: u8 = (octet >> shift) & 1;
            assert(octet >> shift == octet >> (shift as u8));
            assert((octet >> shift) & 1 == 0 || (octet >> shift) & 1 == 1) by (bit_vector);
            assert(code[pos as int] == bits_of(encoded@)[pos as int]);
            self.bit(digit);
            pos = pos + 1;
            assert(self@ =~= before + code.take(pos as int));
        }
        assert(code.take(pos as int) =~= code);
    }

    /// Appends the signed Exp-Golomb code of `value`.
    pub fn se(&mut self, value: i32)
        requires
            old(self).wf(),
            old(self)@.len() + 65 <= usize::MAX,
            value > i32::MIN,
        ensures
            final(self).wf(),
            final(self)@ == old(self)@ + se_code(value as int),
            final(self)@.len() <= old(self)@.len() + 65,
    {
        let code_num: u32 = if value <= 0 {
            (-value) as u32 * 2
        } else {
            value as u32 * 2 - 1
        };
        self.ue(code_num);
    }

    /// Appends one bits up to a byte boundary.
    pub fn align_one(&mut self)
        requires
            old(self).wf(),
            old(self)@.len() + 7 <= usize::MAX,
        ensures
            final(self).wf(),
            final(self)@ == old(self)@ + run(true, padding(old(self)@.len() as int)),
    {
        let ghost before = self@;
        let ghost total = padding(before.len() as int);
        assert(before + run(true, 0) =~= before);
        while self.len % 8 != 0
            invariant
                self.wf(),
                before.len() + 7 <= usize::MAX,
                total == padding(before.len() as int),
                before.len() <= self@.len() <= before.len() + total,
                self@ == before + run(true, (self@.len() - before.len()) as nat),
            decreases before.len() + total - self@.len(),
        {
            let ghost added = (self@.len() - before.len()) as nat;
            self.bit(1);
            assert(self@ =~= before + run(true, added + 1));
        }
    }

    /// Appends zero bits up to a byte boundary.
    pub fn align_zero(&mut self)
        requires
            old(self).wf(),
            old(self)@.len() + 7 <= usize::MAX,
        ensures
            final(self).wf(),
            final(self)@ == old(self)@ + run(false, padding(old(self)@.len() as int)),
    {
        let ghost before = self@;
        let ghost total = padding(before.len() as int);
        assert(before + run(false, 0) =~= before);
        while self.len % 8 != 0
            invariant
                self.wf(),
                before.len() + 7 <= usize::MAX,
                total == padding(before.len() as int),
                before.len() <= self@.len() <= before.len() + total,
                self@ == before + run(false, (self@.len() - before.len()) as nat),
            decreases before.len() + total - self@.len(),
        {
            let ghost added = (self@.len() - before.len()) as nat;
            self.bit(0);
            assert(self@ =~= before + run(false, added + 1));
        }
    }

    /// Appends the trailing bits that end an RBSP.
    pub fn rbsp_trailing_bits(&mut self)
        requires
            old(self).wf(),
            old(self)@.len() + 8 <= usize::MAX,
        ensures
            final(self).wf(),
            final(self)@ == old(self)@ + trailing_bits(old(self)@.len() as int),
    {
        let ghost before = self@;
        self.bit(1);
        self.align_zero();
        assert(self@ =~= before + trailing_bits(before.len() as int));
    }

    /// The bytes written, the last one padded with zero bits.
    pub fn into_bytes(self) -> (bytes: Vec<u8>)
        requires
            self.wf(),
        ensures
            bytes@ == pack(self@),
    {
        proof {
            lemma_pack_unique(self.data@, self@);
        }
        self.data
    }
}

}
