//! Reading syntax elements from the payload of a NAL unit.

use crate::bits::{bits_of, lemma_bits_of_suffix, lemma_number_bound, lemma_number_push, number};
use crate::error::{rewrite_error, H264FrameBufferError, RewriteResult};
use crate::golomb::{
    decode_signed, decode_unsigned, decoder_opens, exp_golomb_bit_len, golomb_at, lemma_log2_unique,
    lemma_ue_len_bound, se_code_num, signed_golomb_at, ue_len, zeros_at,
};
use vstd::arithmetic::power2::{lemma2_to64, lemma_pow2_strictly_increases, lemma_pow2_unfold};
use vstd::prelude::*;
use vstd::slice::slice_subrange;

verus! {

/// The flag at `pos`.
pub open spec fn bit_at(bits: Seq<bool>, pos: int) -> RewriteResult<u8> {
    if pos < bits.len() {
        Ok(if bits[pos] {
            1u8
        } else {
            0u8
        })
    } else {
        Err(rewrite_error("truncated RBSP"))
    }
}

/// Where a reader of the flag at `pos` stops.
pub open spec fn bit_end(bits: Seq<bool>, pos: int) -> int {
    if pos < bits.len() {
        pos + 1
    } else {
        pos
    }
}

/// The number with `count` binary digits at `pos`.
pub open spec fn u_at(bits: Seq<bool>, pos: int, count: int) -> RewriteResult<u32> {
    if count > 32 {
        Err(rewrite_error("bit field is too wide"))
    } else if pos + count <= bits.len() {
        Ok(number(bits.subrange(pos, pos + count)) as u32)
    } else {
        Err(rewrite_error("truncated RBSP"))
    }
}

/// Where a reader of the number with `count` digits at `pos` stops.
pub open spec fn u_end(bits: Seq<bool>, pos: int, count: int) -> int {
    if count > 32 {
        pos
    } else if pos + count <= bits.len() {
        pos + count
    } else {
        bits.len() as int
    }
}

/// The unsigned Exp-Golomb value at `pos`.
pub open spec fn ue_at(bits: Seq<bool>, pos: int) -> RewriteResult<u32> {
    if pos >= bits.len() {
        Err(rewrite_error("truncated Exp-Golomb value"))
    } else {
        match golomb_at(bits, pos) {
            None => Err(rewrite_error("invalid Exp-Golomb value")),
            Some(v) => if v == u64::MAX {
                Err(rewrite_error("Exp-Golomb value is too large"))
            } else if v > u32::MAX {
                Err(rewrite_error("Exp-Golomb value exceeds u32"))
            } else {
                Ok(v as u32)
            },
        }
    }
}

/// Where a reader of the unsigned Exp-Golomb value at `pos` stops. It steps over as many bits as
/// the code of the value has.
pub open spec fn ue_end(bits: Seq<bool>, pos: int) -> int {
    match golomb_at(bits, pos) {
        Some(v) => if v == u64::MAX {
            pos
        } else {
            pos + ue_len(v)
        },
        None => pos,
    }
}

/// The signed Exp-Golomb value at `pos`.
pub open spec fn se_at(bits: Seq<bool>, pos: int) -> RewriteResult<i32> {
    if pos >= bits.len() {
        Err(rewrite_error("truncated signed Exp-Golomb value"))
    } else {
        match signed_golomb_at(bits, pos) {
            None => Err(rewrite_error("invalid signed Exp-Golomb value")),
            Some(v) => if i32::MIN <= v <= i32::MAX {
                Ok(v as i32)
            } else {
                Err(rewrite_error("signed Exp-Golomb value exceeds i32"))
            },
        }
    }
}

/// Where a reader of the signed Exp-Golomb value at `pos` stops. It steps over as many bits as the
/// code of the value has, and over one bit for the least `i64`, whose code number has no room in a
/// `u64`.
pub open spec fn se_end(bits: Seq<bool>, pos: int) -> int {
    match signed_golomb_at(bits, pos) {
        Some(v) => if v == i64::MIN {
            pos + 1
        } else {
            pos + ue_len(se_code_num(v))
        },
        None => pos,
    }
}

/// A cursor over the bits of a byte string.
pub struct BitReader<'a> {
    /// The bytes under the cursor.
    pub data: &'a [u8],
    /// Index of the next bit.
    pub pos: usize,
}

impl<'a> BitReader<'a> {
    /// The bits that the reader walks over.
    pub open spec fn stream(self) -> Seq<bool> {
        bits_of(self.data@)
    }

    /// The cursor does not stand past the end.
    pub open spec fn wf(self) -> bool {
        self.pos <= self.stream().len()
    }

    pub fn new(data: &'a [u8]) -> (reader: Self)
        ensures
            reader.wf(),
            reader.pos == 0,
            reader.stream() == bits_of(data@),
    {
        BitReader { data, pos: 0 }
    }

    /// Reads a flag.
    pub fn bit(&mut self) -> (bit: RewriteResult<u8>)
        requires
            old(self).wf(),
            old(self).pos < usize::MAX,
        ensures
            final(self).wf(),
            final(self).stream() == old(self).stream(),
            bit == bit_at(old(self).stream(), old(self).pos as int),
            final(self).pos == bit_end(old(self).stream(), old(self).pos as int),
    {
        if self.pos / 8 >= self.data.len() {
            return Err(H264FrameBufferError::X264BitstreamRewrite("truncated RBSP"));
        }
        let byte = self.data[self.pos / 8];
        let shift: usize = 7 - self.pos % 8;
        let bit = (byte >> shift) & 1;
        assert((byte >> shift) & 1 == 0 || (byte >> shift) & 1 == 1) by (bit_vector);
        assert(byte >> shift == byte >> (shift as u8));
        self.pos = self.pos + 1;
        Ok(bit)
    }

    /// Reads a number with `count` binary digits.
    pub fn bits(&mut self, count: usize) -> (value: RewriteResult<u32>)
        requires
            old(self).wf(),
            old(self).pos <= usize::MAX - 32,
        ensures
            final(self).wf(),
            final(self).stream() == old(self).stream(),
            value == u_at(old(self).stream(), old(self).pos as int, count as int),
            final(self).pos == u_end(old(self).stream(), old(self).pos as int, count as int),
    {
        if count > 32 {
            return Err(H264FrameBufferError::X264BitstreamRewrite("bit field is too wide"));
        }
        let ghost start = self.pos as int;
        let ghost bits = self.stream();
        let mut value: u32 = 0;
        let mut read: usize = 0;
        while read < count
            invariant
                read <= count <= 32,
                self.wf(),
                self.stream() == bits,
                bits == old(self).stream(),
                start == old(self).pos,
                start <= usize::MAX - 32,
                self.pos == start + read,
                0 <= start,
                value == number(bits.subrange(start, start + read)),
            decreases count - read,
        {
            let bit = self.bit()?;
            proof {
                let seen = bits.subrange(start, start + read);
                lemma_number_push(seen, bits[start + read]);
                assert(bits.subrange(start, start + read + 1) =~= seen.push(bits[start + read]));
                lemma_number_bound(seen);
                lemma2_to64();
                if read < 31 {
                    lemma_pow2_strictly_increases(read as nat, 31);
                }
                assert(value < 0x8000_0000);
                assert((value << 1) | (bit as u32) == 2 * value + bit) by (bit_vector)
                    requires
                        value < 0x8000_0000u32,
                        bit <= 1u8,
                ;
            }
            value = (value << 1) | bit as u32;
            read = read + 1;
        }
        Ok(value)
    }

    /// Reads an unsigned Exp-Golomb value.
    pub fn ue(&mut self) -> (value: RewriteResult<u32>)
        requires
            old(self).wf(),
            old(self).pos <= usize::MAX - 127,
        ensures
            final(self).wf(),
            final(self).stream() == old(self).stream(),
            value == ue_at(old(self).stream(), old(self).pos as int),
            final(self).pos == ue_end(old(self).stream(), old(self).pos as int),
            final(self).pos <= old(self).pos + 127,
    {
        let ghost bits = self.stream();
        let ghost pos = self.pos as int;
        let rest = slice_subrange(self.data, self.pos / 8, self.data.len());
        let start = (self.pos % 8) as u32;
        proof {
            lemma_seen_from_byte(self.data@, pos);
        }
        if !decoder_opens(rest, start) {
            return Err(H264FrameBufferError::X264BitstreamRewrite("truncated Exp-Golomb value"));
        }
        let value = match decode_unsigned(rest, start) {
            Some(value) => value,
            None => return Err(
                H264FrameBufferError::X264BitstreamRewrite("invalid Exp-Golomb value"),
            ),
        };
        proof {
            lemma_step_inside(bits, pos);
        }
        self.pos = self.pos + exp_golomb_bit_len(value)?;
        if value > u32::MAX as u64 {
            return Err(H264FrameBufferError::X264BitstreamRewrite("Exp-Golomb value exceeds u32"));
        }
        Ok(value as u32)
    }

    /// Reads a signed Exp-Golomb value.
    pub fn se(&mut self) -> (value: RewriteResult<i32>)
        requires
            old(self).wf(),
            old(self).pos <= usize::MAX - 127,
        ensures
            final(self).wf(),
            final(self).stream() == old(self).stream(),
            value == se_at(old(self).stream(), old(self).pos as int),
            final(self).pos == se_end(old(self).stream(), old(self).pos as int),
            final(self).pos <= old(self).pos + 127,
    {
        let ghost bits = self.stream();
        let ghost pos = self.pos as int;
        let rest = slice_subrange(self.data, self.pos / 8, self.data.len());
        let start = (self.pos % 8) as u32;
        proof {
            lemma_seen_from_byte(self.data@, pos);
        }
        if !decoder_opens(rest, start) {
            return Err(
                H264FrameBufferError::X264BitstreamRewrite("truncated signed Exp-Golomb value"),
            );
        }
        let value = match decode_signed(rest, start) {
            Some(value) => value,
            None => return Err(
                H264FrameBufferError::X264BitstreamRewrite("invalid signed Exp-Golomb value"),
            ),
        };
        proof {
            lemma_step_inside(bits, pos);
        }
        // Twice the magnitude of the least `i64` wraps around to zero.
        let code_num: u64 = if value == i64::MIN {
            0
        } else if value <= 0 {
            (-value) as u64 * 2
        } else {
            value as u64 * 2 - 1
        };
        self.pos = self.pos + exp_golomb_bit_len(code_num)?;
        if value < i32::MIN as i64 || value > i32::MAX as i64 {
            return Err(
                H264FrameBufferError::X264BitstreamRewrite("signed Exp-Golomb value exceeds i32"),
            );
        }
        Ok(value as i32)
    }
}

/// From the byte under the cursor on, a decoder sees what stands at the cursor.
proof fn lemma_seen_from_byte(data: Seq<u8>, pos: int)
    requires
        0 <= pos <= 8 * data.len(),
    ensures
        golomb_at(bits_of(data.subrange(pos / 8, data.len() as int)), pos % 8) == golomb_at(
            bits_of(data),
            pos,
        ),
{
    let from = pos / 8;
    let rest = data.subrange(from, data.len() as int);
    assert(rest =~= data.skip(from));
    lemma_bits_of_suffix(data, from);
    let bits = bits_of(data);
    let tail = bits_of(rest);
    lemma_zeros_shift(bits, 8 * from, pos % 8);
    let z = zeros_at(bits, pos);
    if pos + 2 * z + 1 <= bits.len() {
        assert(tail.subrange(pos % 8 + z + 1, pos % 8 + 2 * z + 1) =~= bits.subrange(
            pos + z + 1,
            pos + 2 * z + 1,
        ));
    }
}

proof fn lemma_zeros_shift(bits: Seq<bool>, from: int, pos: int)
    requires
        0 <= from,
        0 <= pos,
        from + pos <= bits.len(),
    ensures
        zeros_at(bits.skip(from), pos) == zeros_at(bits, from + pos),
    decreases bits.len() - pos,
{
    if from + pos < bits.len() && !bits[from + pos] {
        lemma_zeros_shift(bits, from, pos + 1);
    }
}

/// Stepping over the code of the value that was read leaves the cursor inside the stream.
pub proof fn lemma_step_inside(bits: Seq<bool>, pos: int)
    requires
        0 <= pos <= bits.len(),
    ensures
        golomb_at(bits, pos) matches Some(v) ==> v <= u64::MAX && (v < u64::MAX ==> ue_len(v) <= 127
            && pos + ue_len(v) <= bits.len()),
        pos == bits.len() ==> golomb_at(bits, pos) is None,
        ue_len(0) == 1,
{
    lemma2_to64();
    lemma_pow2_unfold(64);
    lemma_log2_unique(1, 0);
    if golomb_at(bits, pos) is Some {
        let z = zeros_at(bits, pos);
        let digits = bits.subrange(pos + z + 1, pos + 2 * z + 1);
        let v = golomb_at(bits, pos)->Some_0;
        lemma_number_bound(digits);
        if z < 64 {
            lemma_pow2_unfold(z + 1);
            lemma_log2_unique(v + 1, z);
            if z < 63 {
                lemma_pow2_strictly_increases(z, 63);
            }
        } else if v < u64::MAX {
            lemma_ue_len_bound(v, 64);
        }
    }
}

}
