//! What holds of every rewritten NAL unit.

use crate::bit_reader::{
    bit_at, bit_end, lemma_step_inside, se_at, se_end, u_at, u_end, ue_at, ue_end,
};
use crate::bit_writer::{padding, trailing_bits};
use crate::bits::{
    binary, bits_of, lemma_binary_len, lemma_bits_of_concat, lemma_bits_of_pack, lemma_number_binary,
    lemma_number_bound, pack, run,
};
use crate::error::{rewrite_error, H264FrameBufferError};
use crate::golomb::{
    law_signed_code_reads_back, law_unsigned_code_reads_back, lemma_ue_code_len, lemma_ue_len_bound,
    se_code, se_code_num, ue_code,
};
use crate::idr::{
    cabac_start_at, carplay_idr_bits, carplay_idr_code, deltas_encodable, idr_at, offsets_code,
    slice_id_code, tuning_at, tuning_code, IdrSlice, SliceId, SliceTuning,
};
use crate::nal_rewriter::{
    assembled, escaped, has_start_code, idr_header, idr_rewritten, next_zeros, payload, sps_rewritten,
    start_code_at, start_code_len, unescaped,
};
use crate::sps::{
    carplay_sps_bits, carplay_sps_code, carplay_vui_code, crop_at, crop_code, flag, format_at,
    format_code, framing_at, framing_code, optional_bit, optional_flag, picture_code, reference_at,
    sps_at, SpsFields, SpsFormat, SpsFraming, SpsPicture,
};
use vstd::arithmetic::power2::{lemma2_to64, lemma_pow2_unfold, pow2};
use vstd::prelude::*;

verus! {

proof fn lemma_unescape_escape(data: Seq<u8>, zeros: int)
    requires
        0 <= zeros <= 2,
    ensures
        unescaped(escaped(data, zeros), zeros) == data,
    decreases data.len(),
{
    if data.len() > 0 {
        let byte = data[0];
        let rest = data.skip(1);
        assert(data =~= seq![byte] + rest);
        let e = escaped(data, zeros);
        if zeros >= 2 && byte <= 3 {
            let z = next_zeros(0, byte);
            lemma_unescape_escape(rest, z);
            let tail = escaped(rest, z);
            assert(e.skip(1) =~= seq![byte] + tail);
            assert(e.skip(1).skip(1) =~= tail);
            assert(unescaped(e, zeros) == unescaped(e.skip(1), 0));
            assert(unescaped(e.skip(1), 0) == seq![byte] + unescaped(tail, z));
        } else {
            let z = next_zeros(zeros, byte);
            lemma_unescape_escape(rest, z);
            let tail = escaped(rest, z);
            assert(e.skip(1) =~= tail);
            assert(unescaped(e, zeros) == seq![byte] + unescaped(tail, z));
        }
    } else {
        assert(data =~= Seq::empty());
    }
}

/// Dropping the emulation prevention bytes undoes their insertion.
pub proof fn law_escaping_is_undone(data: Seq<u8>)
    ensures
        unescaped(escaped(data, 0), 0) == data,
{
    lemma_unescape_escape(data, 0);
}

spec fn zero_bytes(count: int) -> Seq<u8> {
    Seq::new(count as nat, |i: int| 0u8)
}

proof fn lemma_escaped_clean(data: Seq<u8>, zeros: int)
    requires
        0 <= zeros <= 2,
    ensures
        !has_start_code(zero_bytes(zeros) + escaped(data, zeros)),
    decreases data.len(),
{
    let whole = zero_bytes(zeros) + escaped(data, zeros);
    if data.len() > 0 {
        let byte = data[0];
        let rest = data.skip(1);
        let stuffed = zeros >= 2 && byte <= 3;
        let z = next_zeros(if stuffed { 0 } else { zeros }, byte);
        let tail = escaped(rest, z);
        lemma_escaped_clean(rest, z);
        let clean = zero_bytes(z) + tail;
        let lead = whole.len() - clean.len();
        assert forall|i: int| lead <= i < whole.len() implies #[trigger] whole[i] == clean[i - lead] by {}
        if has_start_code(whole) {
            let i = choose|i: int| start_code_at(whole, i);
            assert(whole[i] == 0 && whole[i + 1] == 0 && whole[i + 2] <= 2);
            if i >= lead {
                assert(start_code_at(clean, i - lead));
            }
        }
    }
}

/// An escaped payload never holds the start of another NAL unit.
pub proof fn law_escaped_has_no_start_code(data: Seq<u8>)
    ensures
        !has_start_code(escaped(data, 0)),
{
    lemma_escaped_clean(data, 0);
    assert(zero_bytes(0) + escaped(data, 0) =~= escaped(data, 0));
}

/// The three bytes at `i` are such that escaping parts them: two zero bytes and a byte up to 3.
pub open spec fn escape_at(data: Seq<u8>, i: int) -> bool {
    0 <= i && i + 2 < data.len() && data[i] == 0 && data[i + 1] == 0 && data[i + 2] <= 3
}

/// Escaping parts some bytes of `data`.
pub open spec fn needs_escape(data: Seq<u8>) -> bool {
    exists|i: int| escape_at(data, i)
}

proof fn lemma_escape_behind(whole: Seq<u8>, later: Seq<u8>)
    requires
        later.len() <= whole.len(),
        later == whole.skip(whole.len() - later.len()),
        forall|i: int| 0 <= i < whole.len() - later.len() ==> !escape_at(whole, i),
    ensures
        needs_escape(whole) == needs_escape(later),
{
    let lead = whole.len() - later.len();
    if needs_escape(whole) {
        let i = choose|i: int| escape_at(whole, i);
        assert(escape_at(later, i - lead));
    }
    if needs_escape(later) {
        let i = choose|i: int| escape_at(later, i);
        assert(escape_at(whole, i + lead));
    }
}

proof fn lemma_escaping_leaves(data: Seq<u8>, zeros: int)
    requires
        0 <= zeros <= 2,
    ensures
        escaped(data, zeros) == data <==> !needs_escape(zero_bytes(zeros) + data),
    decreases data.len(),
{
    let whole = zero_bytes(zeros) + data;
    if data.len() == 0 {
        assert(escaped(data, zeros) =~= data);
    } else {
        let byte = data[0];
        let rest = data.skip(1);
        assert(whole[zeros] == byte);
        if zeros >= 2 && byte <= 3 {
            lemma_escaped_len(rest, next_zeros(0, byte));
            assert(escape_at(whole, 0));
        } else {
            let z = next_zeros(zeros, byte);
            let tail = escaped(rest, z);
            lemma_escaping_leaves(rest, z);
            assert(escaped(data, zeros).skip(1) =~= tail);
            assert(data =~= seq![byte] + rest);
            let later = zero_bytes(z) + rest;
            assert(later =~= whole.skip(whole.len() - later.len()));
            lemma_escape_behind(whole, later);
        }
    }
}

/// Escaping leaves a payload as it is if and only if no two zero bytes stand before a byte up to 3.
pub proof fn law_escaping_leaves_what_needs_none(data: Seq<u8>)
    ensures
        escaped(data, 0) == data <==> !needs_escape(data),
{
    lemma_escaping_leaves(data, 0);
    assert(zero_bytes(0) + data =~= data);
}

proof fn lemma_escaped_step(byte: u8, rest: Seq<u8>, zeros: int)
    ensures
        escaped(seq![byte] + rest, zeros) == (if zeros >= 2 && byte <= 3 {
            seq![3u8, byte] + escaped(rest, next_zeros(0, byte))
        } else {
            seq![byte] + escaped(rest, next_zeros(zeros, byte))
        }),
        unescaped(seq![byte] + rest, zeros) == (if zeros >= 2 && byte == 3 {
            unescaped(rest, 0)
        } else {
            seq![byte] + unescaped(rest, next_zeros(zeros, byte))
        }),
{
    assert((seq![byte] + rest).skip(1) =~= rest);
}

proof fn lemma_two_in_front(a: u8, b: u8, rest: Seq<u8>)
    ensures
        seq![a, b] + rest == seq![a] + (seq![b] + rest),
{
    assert(seq![a, b] + rest =~= seq![a] + (seq![b] + rest));
}

proof fn lemma_three_in_front(a: u8, b: u8, c: u8, rest: Seq<u8>)
    ensures
        seq![a, b, c] + rest == seq![a] + (seq![b] + (seq![c] + rest)),
{
    assert(seq![a, b, c] + rest =~= seq![a] + (seq![b] + (seq![c] + rest)));
}

/// Escaping goes from window to window: nothing is put before a byte that follows fewer than two zero
/// bytes; behind two zero bytes a 3 is put before a byte up to 3, from which counting starts over.
pub proof fn law_escaping_by_windows(byte: u8, rest: Seq<u8>)
    ensures
        escaped(Seq::empty(), 0) == Seq::<u8>::empty(),
        escaped(seq![0u8], 0) == seq![0u8],
        escaped(seq![0u8, 0], 0) == seq![0u8, 0],
        byte != 0 ==> escaped(seq![byte] + rest, 0) == seq![byte] + escaped(rest, 0),
        byte != 0 ==> escaped(seq![0u8, byte] + rest, 0) == seq![0u8, byte] + escaped(rest, 0),
        byte <= 3 ==> escaped(seq![0u8, 0, byte] + rest, 0) == seq![0u8, 0, 3] + escaped(
            seq![byte] + rest,
            0,
        ),
        byte > 3 ==> escaped(seq![0u8, 0, byte] + rest, 0) == seq![0u8, 0, byte] + escaped(rest, 0),
{
    lemma_escaped_step(byte, rest, 0);
    lemma_escaped_step(byte, rest, 1);
    lemma_escaped_step(byte, rest, 2);
    lemma_escaped_step(0, seq![byte] + rest, 0);
    lemma_escaped_step(0, seq![byte] + rest, 1);
    lemma_escaped_step(0, seq![0u8] + (seq![byte] + rest), 0);
    lemma_two_in_front(0, byte, rest);
    lemma_two_in_front(0, byte, escaped(rest, 0));
    lemma_three_in_front(0, 0, byte, rest);
    lemma_three_in_front(0, 0, byte, escaped(rest, 0));
    let e = escaped(rest, next_zeros(0, byte));
    lemma_two_in_front(3, byte, e);
    lemma_three_in_front(0, 0, 3, seq![byte] + e);
    let none = Seq::<u8>::empty();
    lemma_escaped_step(0, none, 0);
    lemma_escaped_step(0, none, 1);
    lemma_escaped_step(0, seq![0u8] + none, 0);
    assert(seq![0u8] + none =~= seq![0u8]);
    assert(seq![0u8] + seq![0u8] =~= seq![0u8, 0]);
    assert(escaped(none, 0) =~= none && escaped(none, 1) =~= none && escaped(none, 2) =~= none);
}

/// Unescaping goes from window to window: a 3 behind two zero bytes is dropped, and counting starts
/// over; every other byte stays.
pub proof fn law_unescaping_by_windows(byte: u8, rest: Seq<u8>)
    ensures
        unescaped(Seq::empty(), 0) == Seq::<u8>::empty(),
        unescaped(seq![0u8], 0) == seq![0u8],
        unescaped(seq![0u8, 0], 0) == seq![0u8, 0],
        byte != 0 ==> unescaped(seq![byte] + rest, 0) == seq![byte] + unescaped(rest, 0),
        byte != 0 ==> unescaped(seq![0u8, byte] + rest, 0) == seq![0u8, byte] + unescaped(rest, 0),
        unescaped(seq![0u8, 0, 3] + rest, 0) == seq![0u8, 0] + unescaped(rest, 0),
        byte != 0 && byte != 3 ==> unescaped(seq![0u8, 0, byte] + rest, 0) == seq![0u8, 0, byte]
            + unescaped(rest, 0),
        unescaped(seq![0u8, 0, 0] + rest, 0) == seq![0u8] + unescaped(seq![0u8, 0] + rest, 0),
{
    lemma_escaped_step(byte, rest, 0);
    lemma_escaped_step(byte, rest, 1);
    lemma_escaped_step(byte, rest, 2);
    lemma_escaped_step(0, seq![byte] + rest, 0);
    lemma_escaped_step(0, seq![byte] + rest, 1);
    lemma_escaped_step(0, seq![0u8] + (seq![byte] + rest), 0);
    lemma_two_in_front(0, byte, rest);
    lemma_two_in_front(0, byte, unescaped(rest, 0));
    lemma_three_in_front(0, 0, byte, rest);
    lemma_three_in_front(0, 0, byte, unescaped(rest, 0));
    lemma_escaped_step(3, rest, 2);
    lemma_escaped_step(0, seq![3u8] + rest, 1);
    lemma_escaped_step(0, seq![0u8] + (seq![3u8] + rest), 0);
    lemma_three_in_front(0, 0, 3, rest);
    lemma_two_in_front(0, 0, unescaped(rest, 0));
    lemma_escaped_step(0, rest, 1);
    lemma_escaped_step(0, rest, 2);
    lemma_escaped_step(0, seq![0u8] + rest, 0);
    lemma_escaped_step(0, seq![0u8] + rest, 1);
    lemma_escaped_step(0, seq![0u8] + (seq![0u8] + rest), 0);
    lemma_three_in_front(0, 0, 0, rest);
    lemma_two_in_front(0, 0, rest);
    let none = Seq::<u8>::empty();
    lemma_escaped_step(0, none, 0);
    lemma_escaped_step(0, none, 1);
    lemma_escaped_step(0, seq![0u8] + none, 0);
    assert(seq![0u8] + none =~= seq![0u8]);
    assert(seq![0u8] + seq![0u8] =~= seq![0u8, 0]);
    assert(unescaped(none, 0) =~= none && unescaped(none, 1) =~= none && unescaped(none, 2) =~= none);
}

proof fn lemma_start_code_kept(nal: Seq<u8>, back: Seq<u8>)
    requires
        start_code_len(nal) is Ok,
        back.len() > 0,
    ensures
        ({
            let n = start_code_len(nal)->Ok_0;
            &&& n == 3 || n == 4
            &&& n <= nal.len()
            &&& start_code_len(nal.take(n) + back) == Ok::<int, H264FrameBufferError>(n)
        }),
{
    let n = start_code_len(nal)->Ok_0;
    let out = nal.take(n) + back;
    assert(out.take(n) =~= nal.take(n));
    if n == 3 {
        assert(nal.take(3)[2] == 1);
        assert(out.take(4)[2] == 1);
        assert(seq![0u8, 0, 0, 1][2] == 0);
    }
}

/// A header in front adds no start code.
proof fn lemma_header_adds_no_start_code(header: u8, tail: Seq<u8>)
    requires
        header != 0,
        !has_start_code(tail),
    ensures
        !has_start_code(seq![header] + tail),
{
    let back = seq![header] + tail;
    if has_start_code(back) {
        let i = choose|i: int| start_code_at(back, i);
        assert(start_code_at(tail, i - 1));
    }
}

/// A rebuilt NAL unit keeps the start code and the header, carries the payload that was put in, and
/// behind its start code holds no start of another NAL unit.
pub proof fn law_rebuilt_nal(nal: Seq<u8>, header: u8, rbsp: Seq<u8>)
    requires
        start_code_len(nal) is Ok,
        header != 0,
    ensures
        ({
            let n = start_code_len(nal)->Ok_0;
            let out = assembled(nal, n, header, rbsp);
            &&& start_code_len(out) == Ok::<int, H264FrameBufferError>(n)
            &&& out[n] == header
            &&& payload(out, n) == rbsp
            &&& !has_start_code(out.skip(n))
        }),
{
    let n = start_code_len(nal)->Ok_0;
    let tail = escaped(rbsp, 0);
    let back = seq![header] + tail;
    lemma_start_code_kept(nal, back);
    law_escaping_is_undone(rbsp);
    law_escaped_has_no_start_code(rbsp);
    lemma_header_adds_no_start_code(header, tail);
    lemma_parts_of_nal(nal.take(n), header, tail);
}

proof fn lemma_parts_of_nal(front: Seq<u8>, header: u8, tail: Seq<u8>)
    ensures
        ({
            let out = front + seq![header] + tail;
            let n = front.len() as int;
            &&& out == front + (seq![header] + tail)
            &&& out[n] == header
            &&& out.skip(n) == seq![header] + tail
            &&& out.skip(n + 1) == tail
        }),
{
    let out = front + seq![header] + tail;
    let n = front.len() as int;
    assert(out =~= front + (seq![header] + tail));
    assert(out.skip(n) =~= seq![header] + tail);
    assert(out.skip(n + 1) =~= tail);
}

proof fn lemma_escaped_len(data: Seq<u8>, zeros: int)
    ensures
        data.len() <= escaped(data, zeros).len() <= 2 * data.len(),
        unescaped(data, zeros).len() <= data.len(),
    decreases data.len(),
{
    if data.len() > 0 {
        lemma_escaped_len(data.skip(1), next_zeros(0, data[0]));
        lemma_escaped_len(data.skip(1), next_zeros(zeros, data[0]));
        lemma_escaped_len(data.skip(1), 0);
    }
}

proof fn lemma_short_code(value: int)
    requires
        0 <= value <= 0x1_0000_0000,
    ensures
        ue_code(value as nat).len() <= 65,
{
    lemma2_to64();
    lemma_pow2_unfold(33);
    lemma_ue_code_len(value as nat);
    lemma_ue_len_bound(value as nat, 33);
}

proof fn lemma_sps_len(f: SpsFields)
    ensures
        pack(carplay_sps_bits(f)).len() <= 240,
{
    let SpsFields { format, picture, framing } = f;
    lemma_binary_len(format.profile_idc as nat, 8);
    lemma_binary_len(format.constraint_flags as nat, 8);
    lemma_binary_len(format.level_idc as nat, 8);
    lemma_short_code(format.seq_parameter_set_id as int);
    lemma_short_code(format.chroma_format_idc as int);
    lemma_short_code(format.bit_depth_luma_minus8 as int);
    lemma_short_code(format.bit_depth_chroma_minus8 as int);
    assert(format_code(format).len() <= 290);
    lemma_short_code(8);
    lemma_short_code(0);
    lemma_short_code(9);
    lemma_short_code(picture.max_num_ref_frames as int);
    lemma_short_code(picture.pic_width_in_mbs_minus1 as int);
    lemma_short_code(picture.pic_height_in_map_units_minus1 as int);
    assert(picture_code(picture).len() <= 400);
    if let Some(crop) = framing.crop {
        lemma_short_code(crop.left as int);
        lemma_short_code(crop.right as int);
        lemma_short_code(crop.top as int);
        lemma_short_code(crop.bottom as int);
    }
    assert(framing_code(framing).len() <= 270);
    lemma_binary_len(5, 3);
    lemma_binary_len(1, 8);
    lemma_binary_len(13, 8);
    lemma_binary_len(6, 8);
    lemma_short_code(2);
    lemma_short_code(1);
    lemma_short_code(16);
    lemma_short_code(4);
    assert(carplay_vui_code().len() <= 500);
}

proof fn lemma_idr_len(s: IdrSlice)
    ensures
        pack(carplay_idr_bits(s)).len() <= 80,
{
    let IdrSlice { id, tuning } = s;
    lemma_short_code(id.first_mb as int);
    lemma_short_code(id.slice_type as int);
    lemma_short_code(id.pps_id as int);
    lemma_short_code(id.idr_pic_id as int);
    lemma_binary_len(id.frame_num as nat, 12);
    lemma_binary_len(0, 13);
    assert(slice_id_code(id).len() <= 285);
    lemma_short_code(se_code_num(tuning.slice_qp_delta as int) as int);
    lemma_short_code(tuning.disable_deblocking_filter_idc as int);
    if let Some(offsets) = tuning.deblock_offsets {
        lemma_short_code(se_code_num(offsets.alpha_c0_div2 as int) as int);
        lemma_short_code(se_code_num(offsets.beta_div2 as int) as int);
    }
    assert(tuning_code(tuning).len() <= 262);
}

proof fn lemma_reads_inside(bits: Seq<bool>, pos: int)
    requires
        0 <= pos,
    ensures
        ue_at(bits, pos) is Ok ==> pos <= ue_end(bits, pos) <= bits.len(),
        se_at(bits, pos) is Ok ==> pos <= se_end(bits, pos) <= bits.len(),
{
    if pos < bits.len() {
        lemma_step_inside(bits, pos);
    }
}

/// A slice header ends inside the payload.
proof fn lemma_cabac_start(rbsp: Seq<u8>)
    ensures
        idr_at(bits_of(rbsp)) matches Ok((_, start)) ==> 0 <= start <= rbsp.len(),
{
    let bits = bits_of(rbsp);
    if idr_at(bits) is Ok {
        let a = ue_end(bits, 0);
        let b = ue_end(bits, a);
        let c = ue_end(bits, b);
        let d = u_end(bits, c, 4);
        lemma_reads_inside(bits, 0);
        lemma_reads_inside(bits, a);
        lemma_reads_inside(bits, b);
        lemma_reads_inside(bits, d);
        let p1 = ue_end(bits, d);
        let e = bit_end(bits, bit_end(bits, p1));
        lemma_reads_inside(bits, e);
        let f = se_end(bits, e);
        lemma_reads_inside(bits, f);
        let g = ue_end(bits, f);
        lemma_reads_inside(bits, g);
        lemma_reads_inside(bits, se_end(bits, g));
        let p2 = tuning_at(bits, p1)->Ok_0.1;
        assert(0 <= p2 <= bits.len());
        assert(bits.len() == 8 * rbsp.len());
    }
}

/// A rewrite makes a NAL unit at most twice as long, but for 512 bytes.
pub proof fn law_rewrites_are_bounded(nal: Seq<u8>)
    ensures
        sps_rewritten(nal) matches Ok(out) ==> out.len() <= 2 * nal.len() + 512,
        idr_rewritten(nal) matches Ok(out) ==> out.len() <= 2 * nal.len() + 512,
{
    if start_code_len(nal) is Ok {
        let n = start_code_len(nal)->Ok_0;
        assert(nal.take(n).len() <= 4 && n >= 3);
        let rbsp = payload(nal, n);
        if nal.len() > n {
            lemma_escaped_len(nal.skip(n + 1), 0);
            assert(rbsp.len() <= nal.len());
        }
        if let Ok(fields) = sps_at(bits_of(rbsp)) {
            lemma_sps_len(fields);
            lemma_escaped_len(pack(carplay_sps_bits(fields)), 0);
        }
        if let Ok((slice, start)) = idr_header(nal) {
            let header = pack(carplay_idr_bits(slice));
            lemma_idr_len(slice);
            lemma_cabac_start(rbsp);
            lemma_escaped_len(header + rbsp.skip(start), 0);
        }
    }
}

/// The CABAC payload of a slice survives a rewrite byte for byte: it follows the new header.
pub proof fn law_cabac_payload_survives(nal: Seq<u8>)
    requires
        idr_rewritten(nal) is Ok,
    ensures
        ({
            let n = start_code_len(nal)->Ok_0;
            let (slice, start) = idr_header(nal)->Ok_0;
            let out = idr_rewritten(nal)->Ok_0;
            &&& start_code_len(out) == Ok::<int, H264FrameBufferError>(n)
            &&& out[n] == nal[n]
            &&& payload(out, n) == pack(carplay_idr_bits(slice)) + payload(nal, n).skip(start)
            &&& !has_start_code(out.skip(n))
        }),
{
    let n = start_code_len(nal)->Ok_0;
    let (slice, start) = idr_header(nal)->Ok_0;
    let header = nal[n];
    assert(header != 0) by (bit_vector)
        requires
            header & 0x1f == 5,
    ;
    law_rebuilt_nal(nal, header, pack(carplay_idr_bits(slice)) + payload(nal, n).skip(start));
}

/// `code` stands in `bits` at `pos`.
pub open spec fn holds(bits: Seq<bool>, pos: int, code: Seq<bool>) -> bool {
    &&& 0 <= pos
    &&& pos + code.len() <= bits.len()
    &&& bits.subrange(pos, pos + code.len()) == code
}

pub(crate) proof fn lemma_holds_split(bits: Seq<bool>, pos: int, a: Seq<bool>, b: Seq<bool>)
    requires
        holds(bits, pos, a + b),
    ensures
        holds(bits, pos, a),
        holds(bits, pos + a.len(), b),
{
    let both = bits.subrange(pos, pos + (a + b).len());
    assert(bits.subrange(pos, pos + a.len()) =~= both.take(a.len() as int));
    assert(both.take(a.len() as int) =~= a);
    assert(bits.subrange(pos + a.len(), pos + a.len() + b.len()) =~= both.skip(a.len() as int));
    assert(both.skip(a.len() as int) =~= b);
}

/// A reader takes back every unsigned Exp-Golomb value that was written, and stops behind its code.
pub proof fn law_ue_reads_back(bits: Seq<bool>, pos: int, value: u32)
    requires
        holds(bits, pos, ue_code(value as nat)),
    ensures
        ue_at(bits, pos) == Ok::<u32, H264FrameBufferError>(value),
        ue_end(bits, pos) == pos + ue_code(value as nat).len(),
{
    let code = ue_code(value as nat);
    lemma_ue_code_len(value as nat);
    let before = bits.take(pos);
    let after = bits.skip(pos + code.len());
    assert(bits =~= before + bits.subrange(pos, pos + code.len()) + after);
    law_unsigned_code_reads_back(before, value as nat, after);
}

/// A reader takes back every signed Exp-Golomb value that can be written, and stops behind its
/// code.
pub proof fn law_se_reads_back(bits: Seq<bool>, pos: int, value: i32)
    requires
        value > i32::MIN,
        holds(bits, pos, se_code(value as int)),
    ensures
        se_at(bits, pos) == Ok::<i32, H264FrameBufferError>(value),
        se_end(bits, pos) == pos + se_code(value as int).len(),
{
    let code = se_code(value as int);
    lemma_ue_code_len(se_code_num(value as int));
    let before = bits.take(pos);
    let after = bits.skip(pos + code.len());
    assert(bits =~= before + bits.subrange(pos, pos + code.len()) + after);
    law_signed_code_reads_back(before, value as int, after);
}

/// A reader takes back every number that was written with enough digits, and stops behind them.
pub proof fn law_u_reads_back(bits: Seq<bool>, pos: int, value: u32, count: nat)
    requires
        count <= 32,
        value < pow2(count),
        holds(bits, pos, binary(value as nat, count)),
    ensures
        u_at(bits, pos, count as int) == Ok::<u32, H264FrameBufferError>(value),
        u_end(bits, pos, count as int) == pos + count,
{
    lemma_number_binary(value as nat, count);
}

/// A reader takes back every flag that was written, and stops behind it.
pub proof fn law_bit_reads_back(bits: Seq<bool>, pos: int, bit: u8)
    requires
        holds(bits, pos, flag(bit)),
    ensures
        bit_at(bits, pos) == Ok::<u8, H264FrameBufferError>(if bit != 0 {
            1
        } else {
            0
        }),
        bit_end(bits, pos) == pos + 1,
{
    assert(bits.subrange(pos, pos + 1)[0] == bits[pos]);
}

/// A flag, or nothing where it is absent, is zero or one.
pub open spec fn binary_flag(bit: Option<u8>) -> bool {
    bit matches Some(b) ==> b <= 1
}

pub open spec fn format_valid(f: SpsFormat) -> bool {
    &&& f.profile_idc == 100
    &&& f.constraint_flags < 256
    &&& f.level_idc < 256
    &&& (f.separate_colour_plane is Some) == (f.chroma_format_idc == 3)
    &&& binary_flag(f.separate_colour_plane)
    &&& f.qpprime_y_zero_transform_bypass <= 1
}

pub open spec fn picture_valid(p: SpsPicture) -> bool {
    p.max_num_ref_frames == 4 && p.gaps_in_frame_num_allowed <= 1
}

pub open spec fn framing_valid(f: SpsFraming) -> bool {
    &&& f.frame_mbs_only <= 1
    &&& (f.mb_adaptive_frame_field is Some) == (f.frame_mbs_only == 0)
    &&& binary_flag(f.mb_adaptive_frame_field)
    &&& f.direct_8x8_inference <= 1
    &&& f.frame_cropping <= 1
    &&& (f.crop is Some) == (f.frame_cropping != 0)
}

proof fn lemma_octet_field(bits: Seq<bool>, pos: int)
    requires
        0 <= pos,
        u_at(bits, pos, 8) is Ok,
    ensures
        u_at(bits, pos, 8)->Ok_0 < 256,
        u_end(bits, pos, 8) == pos + 8,
{
    lemma_number_bound(bits.subrange(pos, pos + 8));
    lemma2_to64();
}

proof fn lemma_format_valid(bits: Seq<bool>)
    requires
        format_at(bits, 0) is Ok,
    ensures
        format_valid(format_at(bits, 0)->Ok_0.0),
{
    lemma_octet_field(bits, 0);
    lemma_octet_field(bits, 8);
    lemma_octet_field(bits, 16);
}

proof fn lemma_sps_valid(bits: Seq<bool>)
    requires
        sps_at(bits) is Ok,
    ensures
        ({
            let f = sps_at(bits)->Ok_0;
            format_valid(f.format) && picture_valid(f.picture) && framing_valid(f.framing)
        }),
{
    lemma_format_valid(bits);
}

pub(crate) proof fn lemma_optional_reads_back(bits: Seq<bool>, pos: int, bit: Option<u8>)
    requires
        binary_flag(bit),
        holds(bits, pos, optional_flag(bit)),
    ensures
        optional_bit(bits, pos, bit is Some) == Ok::<(Option<u8>, int), H264FrameBufferError>(
            (bit, pos + optional_flag(bit).len()),
        ),
{
    if let Some(b) = bit {
        law_bit_reads_back(bits, pos, b);
    }
}

pub(crate) proof fn lemma_format_reads_back(bits: Seq<bool>, f: SpsFormat)
    requires
        format_valid(f),
        holds(bits, 0, format_code(f)),
    ensures
        format_at(bits, 0) == Ok::<(SpsFormat, int), H264FrameBufferError>(
            (f, format_code(f).len() as int),
        ),
{
    let c0 = binary(f.profile_idc as nat, 8);
    let c1 = binary(f.constraint_flags as nat, 8);
    let c2 = binary(f.level_idc as nat, 8);
    let c3 = ue_code(f.seq_parameter_set_id as nat);
    let c4 = ue_code(f.chroma_format_idc as nat);
    let c5 = optional_flag(f.separate_colour_plane);
    let c6 = ue_code(f.bit_depth_luma_minus8 as nat);
    let c7 = ue_code(f.bit_depth_chroma_minus8 as nat);
    let c8 = flag(f.qpprime_y_zero_transform_bypass);
    let c9 = seq![false];
    lemma_holds_split(bits, 0, c0 + c1 + c2 + c3 + c4 + c5 + c6 + c7 + c8, c9);
    lemma_holds_split(bits, 0, c0 + c1 + c2 + c3 + c4 + c5 + c6 + c7, c8);
    lemma_holds_split(bits, 0, c0 + c1 + c2 + c3 + c4 + c5 + c6, c7);
    lemma_holds_split(bits, 0, c0 + c1 + c2 + c3 + c4 + c5, c6);
    lemma_holds_split(bits, 0, c0 + c1 + c2 + c3 + c4, c5);
    lemma_holds_split(bits, 0, c0 + c1 + c2 + c3, c4);
    lemma_holds_split(bits, 0, c0 + c1 + c2, c3);
    lemma_holds_split(bits, 0, c0 + c1, c2);
    lemma_holds_split(bits, 0, c0, c1);
    lemma2_to64();
    lemma_number_binary(f.profile_idc as nat, 8);
    lemma_number_binary(f.constraint_flags as nat, 8);
    lemma_number_binary(f.level_idc as nat, 8);
    law_u_reads_back(bits, 0, f.profile_idc, 8);
    law_u_reads_back(bits, 8, f.constraint_flags, 8);
    law_u_reads_back(bits, 16, f.level_idc, 8);
    let p3 = 24;
    law_ue_reads_back(bits, p3, f.seq_parameter_set_id);
    let p4 = p3 + c3.len();
    law_ue_reads_back(bits, p4, f.chroma_format_idc);
    let p5 = p4 + c4.len();
    lemma_optional_reads_back(bits, p5, f.separate_colour_plane);
    let p6 = p5 + c5.len();
    law_ue_reads_back(bits, p6, f.bit_depth_luma_minus8);
    let p7 = p6 + c6.len();
    law_ue_reads_back(bits, p7, f.bit_depth_chroma_minus8);
    let p8 = p7 + c7.len();
    law_bit_reads_back(bits, p8, f.qpprime_y_zero_transform_bypass);
    let p9 = p8 + 1;
    assert(c9 =~= flag(0));
    law_bit_reads_back(bits, p9, 0);
}

proof fn lemma_reference_reads_back(bits: Seq<bool>, pos: int, p: SpsPicture)
    requires
        picture_valid(p),
        holds(bits, pos, picture_code(p)),
    ensures
        ({
            let p1 = ue_end(bits, pos);
            let p2 = ue_end(bits, p1);
            let p3 = ue_end(bits, p2);
            &&& ue_at(bits, pos) == Ok::<u32, H264FrameBufferError>(8)
            &&& ue_at(bits, p1) == Ok::<u32, H264FrameBufferError>(0)
            &&& ue_at(bits, p2) == Ok::<u32, H264FrameBufferError>(9)
            &&& reference_at(bits, p3) == Ok::<(SpsPicture, int), H264FrameBufferError>(
                (p, pos + picture_code(p).len()),
            )
        }),
{
    let c0 = ue_code(8);
    let c1 = ue_code(0);
    let c2 = ue_code(9);
    let c3 = ue_code(p.max_num_ref_frames as nat);
    let c4 = flag(p.gaps_in_frame_num_allowed);
    let c5 = ue_code(p.pic_width_in_mbs_minus1 as nat);
    let c6 = ue_code(p.pic_height_in_map_units_minus1 as nat);
    lemma_holds_split(bits, pos, c0 + c1 + c2 + c3 + c4 + c5, c6);
    lemma_holds_split(bits, pos, c0 + c1 + c2 + c3 + c4, c5);
    lemma_holds_split(bits, pos, c0 + c1 + c2 + c3, c4);
    lemma_holds_split(bits, pos, c0 + c1 + c2, c3);
    lemma_holds_split(bits, pos, c0 + c1, c2);
    lemma_holds_split(bits, pos, c0, c1);
    law_ue_reads_back(bits, pos, 8);
    let p1 = pos + c0.len();
    law_ue_reads_back(bits, p1, 0);
    let p2 = p1 + c1.len();
    law_ue_reads_back(bits, p2, 9);
    let p3 = p2 + c2.len();
    law_ue_reads_back(bits, p3, p.max_num_ref_frames);
    let p4 = p3 + c3.len();
    law_bit_reads_back(bits, p4, p.gaps_in_frame_num_allowed);
    let p5 = p4 + 1;
    law_ue_reads_back(bits, p5, p.pic_width_in_mbs_minus1);
    let p6 = p5 + c5.len();
    law_ue_reads_back(bits, p6, p.pic_height_in_map_units_minus1);
}

pub(crate) proof fn lemma_crop_reads_back(bits: Seq<bool>, pos: int, f: SpsFraming)
    requires
        holds(bits, pos, crop_code(f.crop)),
    ensures
        crop_at(bits, pos, f.crop is Some) == Ok::<(Option<crate::sps::SpsCrop>, int), H264FrameBufferError>(
            (f.crop, pos + crop_code(f.crop).len()),
        ),
{
    if let Some(c) = f.crop {
        let c0 = ue_code(c.left as nat);
        let c1 = ue_code(c.right as nat);
        let c2 = ue_code(c.top as nat);
        let c3 = ue_code(c.bottom as nat);
        lemma_holds_split(bits, pos, c0 + c1 + c2, c3);
        lemma_holds_split(bits, pos, c0 + c1, c2);
        lemma_holds_split(bits, pos, c0, c1);
        law_ue_reads_back(bits, pos, c.left);
        law_ue_reads_back(bits, pos + c0.len(), c.right);
        law_ue_reads_back(bits, pos + c0.len() + c1.len(), c.top);
        law_ue_reads_back(bits, pos + c0.len() + c1.len() + c2.len(), c.bottom);
    }
}

pub(crate) proof fn lemma_framing_reads_back(bits: Seq<bool>, pos: int, f: SpsFraming)
    requires
        framing_valid(f),
        holds(bits, pos, framing_code(f)),
    ensures
        framing_at(bits, pos) == Ok::<(SpsFraming, int), H264FrameBufferError>(
            (f, pos + framing_code(f).len()),
        ),
{
    let c0 = flag(f.frame_mbs_only);
    let c1 = optional_flag(f.mb_adaptive_frame_field);
    let c2 = flag(f.direct_8x8_inference);
    let c3 = flag(f.frame_cropping);
    let c4 = crop_code(f.crop);
    let c5 = seq![true];
    lemma_holds_split(bits, pos, c0 + c1 + c2 + c3 + c4, c5);
    lemma_holds_split(bits, pos, c0 + c1 + c2 + c3, c4);
    lemma_holds_split(bits, pos, c0 + c1 + c2, c3);
    lemma_holds_split(bits, pos, c0 + c1, c2);
    lemma_holds_split(bits, pos, c0, c1);
    law_bit_reads_back(bits, pos, f.frame_mbs_only);
    let p1 = pos + 1;
    lemma_optional_reads_back(bits, p1, f.mb_adaptive_frame_field);
    let p2 = p1 + c1.len();
    law_bit_reads_back(bits, p2, f.direct_8x8_inference);
    law_bit_reads_back(bits, p2 + 1, f.frame_cropping);
    lemma_crop_reads_back(bits, p2 + 2, f);
    let p5 = p2 + 2 + c4.len();
    assert(c5 =~= flag(1));
    law_bit_reads_back(bits, p5, 1);
}

/// The fields of a parameter set in the syntax that CarPlay expects: a frame number of 12 bits,
/// picture order type 0 with 13 bits, and the CarPlay VUI parameters. Anything else has none.
pub open spec fn carplay_sps_at(bits: Seq<bool>) -> Option<SpsFields> {
    match format_at(bits, 0) {
        Err(_) => None,
        Ok((format, p0)) => {
            let p1 = ue_end(bits, p0);
            let p2 = ue_end(bits, p1);
            let p3 = ue_end(bits, p2);
            match (ue_at(bits, p0), ue_at(bits, p1), ue_at(bits, p2), reference_at(bits, p3)) {
                (Ok(frame_num), Ok(poc_type), Ok(poc_lsb), Ok((picture, p4))) => match framing_at(
                    bits,
                    p4,
                ) {
                    Ok((framing, p5)) => if frame_num == 8 && poc_type == 0 && poc_lsb == 9 && holds(
                        bits,
                        p5,
                        carplay_vui_code(),
                    ) {
                        Some(SpsFields { format, picture, framing })
                    } else {
                        None
                    },
                    Err(_) => None,
                },
                _ => None,
            }
        },
    }
}

proof fn lemma_sps_code_reads_back(bits: Seq<bool>, f: SpsFields)
    requires
        format_valid(f.format),
        picture_valid(f.picture),
        framing_valid(f.framing),
        holds(bits, 0, carplay_sps_code(f)),
    ensures
        carplay_sps_at(bits) == Some(f),
        sps_at(bits) == Err::<SpsFields, H264FrameBufferError>(
            rewrite_error("unexpected x264 frame_num/POC model"),
        ),
{
    let c0 = format_code(f.format);
    let c1 = picture_code(f.picture);
    let c2 = framing_code(f.framing);
    let c3 = carplay_vui_code();
    lemma_holds_split(bits, 0, c0 + c1 + c2, c3);
    lemma_holds_split(bits, 0, c0 + c1, c2);
    lemma_holds_split(bits, 0, c0, c1);
    lemma_format_reads_back(bits, f.format);
    lemma_reference_reads_back(bits, c0.len() as int, f.picture);
    lemma_framing_reads_back(bits, (c0.len() + c1.len()) as int, f.framing);
}

proof fn lemma_packed_front(code: Seq<bool>, tail: Seq<bool>)
    ensures
        holds(bits_of(pack(code + tail)), 0, code),
{
    let bits = bits_of(pack(code + tail));
    lemma_bits_of_pack(code + tail);
    assert(bits.subrange(0, code.len() as int) =~= code);
}

proof fn lemma_sps_bits_read_back(f: SpsFields)
    requires
        format_valid(f.format),
        picture_valid(f.picture),
        framing_valid(f.framing),
    ensures
        carplay_sps_at(bits_of(pack(carplay_sps_bits(f)))) == Some(f),
        sps_at(bits_of(pack(carplay_sps_bits(f)))) == Err::<SpsFields, H264FrameBufferError>(
            rewrite_error("unexpected x264 frame_num/POC model"),
        ),
{
    let code = carplay_sps_code(f);
    lemma_packed_front(code, trailing_bits(code.len() as int));
    lemma_sps_code_reads_back(bits_of(pack(carplay_sps_bits(f))), f);
}

/// A receiver that reads a rewritten parameter set in the CarPlay syntax finds every field that x264
/// had written, and the VUI parameters of CarPlay. The start code and the header stay, and a second
/// rewrite is refused.
pub proof fn law_sps_fields_survive(nal: Seq<u8>)
    requires
        sps_rewritten(nal) is Ok,
    ensures
        ({
            let n = start_code_len(nal)->Ok_0;
            let out = sps_rewritten(nal)->Ok_0;
            &&& start_code_len(out) == Ok::<int, H264FrameBufferError>(n)
            &&& out[n] == nal[n]
            &&& carplay_sps_at(bits_of(payload(out, n))) == Some(
                sps_at(bits_of(payload(nal, n)))->Ok_0,
            )
            &&& !has_start_code(out.skip(n))
            &&& sps_rewritten(out) == Err::<Seq<u8>, H264FrameBufferError>(
                rewrite_error("unexpected x264 frame_num/POC model"),
            )
        }),
{
    let n = start_code_len(nal)->Ok_0;
    let out = sps_rewritten(nal)->Ok_0;
    let header = nal[n];
    assert(header != 0) by (bit_vector)
        requires
            header & 0x1f == 7,
    ;
    let source = bits_of(payload(nal, n));
    let f = sps_at(source)->Ok_0;
    law_rebuilt_nal(nal, header, pack(carplay_sps_bits(f)));
    lemma_sps_valid(source);
    lemma_sps_bits_read_back(f);
}

pub open spec fn slice_valid(s: IdrSlice) -> bool {
    &&& s.id.frame_num < 16
    &&& s.tuning.no_output_of_prior_pics <= 1
    &&& s.tuning.long_term_reference <= 1
    &&& (s.tuning.deblock_offsets is Some) == (s.tuning.disable_deblocking_filter_idc != 1)
}

proof fn lemma_slice_valid(bits: Seq<bool>)
    requires
        idr_at(bits) is Ok,
    ensures
        slice_valid(idr_at(bits)->Ok_0.0),
{
    let p1 = ue_end(bits, 0);
    let p2 = ue_end(bits, p1);
    let p3 = ue_end(bits, p2);
    lemma_number_bound(bits.subrange(p3, p3 + 4));
    lemma2_to64();
}

/// The first part of a slice header in the syntax that CarPlay expects: a frame number of 12 bits
/// and a picture order count of 13 bits.
pub open spec fn carplay_slice_id_at(bits: Seq<bool>) -> Option<(SliceId, u32, int)> {
    let p1 = ue_end(bits, 0);
    let p2 = ue_end(bits, p1);
    let p3 = ue_end(bits, p2);
    let p4 = u_end(bits, p3, 12);
    let p5 = ue_end(bits, p4);
    match (
        ue_at(bits, 0),
        ue_at(bits, p1),
        ue_at(bits, p2),
        u_at(bits, p3, 12),
        ue_at(bits, p4),
        u_at(bits, p5, 13),
    ) {
        (
            Ok(first_mb),
            Ok(slice_type),
            Ok(pps_id),
            Ok(frame_num),
            Ok(idr_pic_id),
            Ok(pic_order_cnt_lsb),
        ) => Some(
            (
                SliceId { first_mb, slice_type, pps_id, frame_num, idr_pic_id },
                pic_order_cnt_lsb,
                u_end(bits, p5, 13),
            ),
        ),
        _ => None,
    }
}

/// A slice header in the syntax that CarPlay expects, with picture order count 0, and the byte at
/// which the CABAC payload starts.
pub open spec fn carplay_idr_at(bits: Seq<bool>) -> Option<(IdrSlice, int)> {
    match carplay_slice_id_at(bits) {
        None => None,
        Some((id, pic_order_cnt_lsb, p1)) => match tuning_at(bits, p1) {
            Err(_) => None,
            Ok((tuning, p2)) => match cabac_start_at(bits, p2) {
                Err(_) => None,
                Ok(start) => if pic_order_cnt_lsb == 0 {
                    Some((IdrSlice { id, tuning }, start))
                } else {
                    None
                },
            },
        },
    }
}

proof fn lemma_slice_id_reads_back(bits: Seq<bool>, s: SliceId)
    requires
        s.frame_num < 16,
        holds(bits, 0, slice_id_code(s)),
    ensures
        carplay_slice_id_at(bits) == Some((s, 0u32, slice_id_code(s).len() as int)),
{
    let c0 = ue_code(s.first_mb as nat);
    let c1 = ue_code(s.slice_type as nat);
    let c2 = ue_code(s.pps_id as nat);
    let c3 = binary(s.frame_num as nat, 12);
    let c4 = ue_code(s.idr_pic_id as nat);
    let c5 = binary(0, 13);
    lemma_holds_split(bits, 0, c0 + c1 + c2 + c3 + c4, c5);
    lemma_holds_split(bits, 0, c0 + c1 + c2 + c3, c4);
    lemma_holds_split(bits, 0, c0 + c1 + c2, c3);
    lemma_holds_split(bits, 0, c0 + c1, c2);
    lemma_holds_split(bits, 0, c0, c1);
    lemma2_to64();
    lemma_number_binary(s.frame_num as nat, 12);
    lemma_number_binary(0, 13);
    law_ue_reads_back(bits, 0, s.first_mb);
    let p1 = c0.len() as int;
    law_ue_reads_back(bits, p1, s.slice_type);
    let p2 = p1 + c1.len();
    law_ue_reads_back(bits, p2, s.pps_id);
    let p3 = p2 + c2.len();
    law_u_reads_back(bits, p3, s.frame_num, 12);
    let p4 = p3 + 12;
    law_ue_reads_back(bits, p4, s.idr_pic_id);
    let p5 = p4 + c4.len();
    law_u_reads_back(bits, p5, 0, 13);
}

pub(crate) proof fn lemma_tuning_reads_back(bits: Seq<bool>, pos: int, s: IdrSlice)
    requires
        slice_valid(s),
        deltas_encodable(s),
        holds(bits, pos, tuning_code(s.tuning)),
    ensures
        tuning_at(bits, pos) == Ok::<(SliceTuning, int), H264FrameBufferError>(
            (s.tuning, pos + tuning_code(s.tuning).len()),
        ),
{
    let t = s.tuning;
    let c0 = flag(t.no_output_of_prior_pics);
    let c1 = flag(t.long_term_reference);
    let c2 = se_code(t.slice_qp_delta as int);
    let c3 = ue_code(t.disable_deblocking_filter_idc as nat);
    let c4 = offsets_code(t.deblock_offsets);
    lemma_holds_split(bits, pos, c0 + c1 + c2 + c3, c4);
    lemma_holds_split(bits, pos, c0 + c1 + c2, c3);
    lemma_holds_split(bits, pos, c0 + c1, c2);
    lemma_holds_split(bits, pos, c0, c1);
    law_bit_reads_back(bits, pos, t.no_output_of_prior_pics);
    law_bit_reads_back(bits, pos + 1, t.long_term_reference);
    law_se_reads_back(bits, pos + 2, t.slice_qp_delta);
    let p3 = pos + 2 + c2.len();
    law_ue_reads_back(bits, p3, t.disable_deblocking_filter_idc);
    let p4 = p3 + c3.len();
    if let Some(o) = t.deblock_offsets {
        let d0 = se_code(o.alpha_c0_div2 as int);
        let d1 = se_code(o.beta_div2 as int);
        lemma_holds_split(bits, p4, d0, d1);
        law_se_reads_back(bits, p4, o.alpha_c0_div2);
        law_se_reads_back(bits, p4 + d0.len(), o.beta_div2);
    }
}

proof fn lemma_idr_bits_read_back(slice: IdrSlice, cabac: Seq<u8>)
    requires
        slice_valid(slice),
        deltas_encodable(slice),
    ensures
        ({
            let rbsp = pack(carplay_idr_bits(slice)) + cabac;
            carplay_idr_at(bits_of(rbsp)) matches Some((read, start)) && read == slice && rbsp.skip(
                start,
            ) == cabac
        }),
{
    let code = carplay_idr_code(slice);
    let bits = bits_of(pack(carplay_idr_bits(slice)) + cabac);
    lemma_aligned_front(code, cabac);
    lemma_idr_code_reads_back(bits, slice);
}

proof fn lemma_aligned_front(code: Seq<bool>, cabac: Seq<u8>)
    ensures
        ({
            let end = code.len() as int;
            let rbsp = pack(code + run(true, padding(end))) + cabac;
            &&& holds(bits_of(rbsp), 0, code)
            &&& cabac_start_at(bits_of(rbsp), end) matches Ok(start) && rbsp.skip(start) == cabac
        }),
{
    let end = code.len() as int;
    let header = code + run(true, padding(end));
    let rbsp = pack(header) + cabac;
    let bits = bits_of(rbsp);
    lemma_bits_of_pack(header);
    lemma_bits_of_concat(pack(header), cabac);
    assert(bits_of(pack(header)) =~= header);
    assert(bits.subrange(0, end) =~= code);
    assert forall|i: int| end <= i < end + padding(end) implies bits[i] by {
        assert(bits[i] == header[i]);
    }
    let start = (end + padding(end)) / 8;
    assert(pack(header).len() == start);
    assert(rbsp.skip(start) =~= cabac);
}

proof fn lemma_idr_code_reads_back(bits: Seq<bool>, slice: IdrSlice)
    requires
        slice_valid(slice),
        deltas_encodable(slice),
        holds(bits, 0, carplay_idr_code(slice)),
    ensures
        ({
            let p1 = slice_id_code(slice.id).len() as int;
            &&& carplay_slice_id_at(bits) == Some((slice.id, 0u32, p1))
            &&& tuning_at(bits, p1) == Ok::<(SliceTuning, int), H264FrameBufferError>(
                (slice.tuning, carplay_idr_code(slice).len() as int),
            )
        }),
{
    let c0 = slice_id_code(slice.id);
    lemma_holds_split(bits, 0, c0, tuning_code(slice.tuning));
    lemma_slice_id_reads_back(bits, slice.id);
    lemma_tuning_reads_back(bits, c0.len() as int, slice);
}

/// A receiver that reads a rewritten slice in the CarPlay syntax finds every field of the header that
/// x264 had written, picture order count 0, and behind the header the same CABAC payload.
pub proof fn law_idr_fields_survive(nal: Seq<u8>)
    requires
        idr_rewritten(nal) is Ok,
        crate::nal_rewriter::idr_encodable(nal),
    ensures
        ({
            let n = start_code_len(nal)->Ok_0;
            let (slice, start) = idr_header(nal)->Ok_0;
            let out = idr_rewritten(nal)->Ok_0;
            carplay_idr_at(bits_of(payload(out, n))) matches Some((read, new_start)) && read == slice
                && payload(out, n).skip(new_start) == payload(nal, n).skip(start)
        }),
{
    law_cabac_payload_survives(nal);
    let n = start_code_len(nal)->Ok_0;
    let (slice, start) = idr_header(nal)->Ok_0;
    lemma_slice_valid(bits_of(payload(nal, n)));
    lemma_idr_bits_read_back(slice, payload(nal, n).skip(start));
}

}
