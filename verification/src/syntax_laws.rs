//! The H.264 syntax that x264 writes and the one that CarPlay expects, field by field, and what
//! rewriting makes of the one and of anything else.

use crate::bit_reader::{bit_at, bit_end, se_at, se_end, u_at, u_end, ue_at, ue_end};
use crate::bit_writer::padding;
use crate::bits::{
    binary, bits_of, lemma_binary_len, lemma_bits_of_concat, lemma_number_binary, lemma_number_bound,
    lemma_pack_unique, number, pack, run,
};
use crate::error::H264FrameBufferError;
use crate::golomb::{
    golomb_at, lemma_log2_unique, lemma_number_leading_one, lemma_ue_code_len, se_code, se_code_num,
    se_value, ue_code, ue_len, zeros_at,
};
use crate::idr::{
    cabac_start_at, carplay_idr_code, deltas_encodable, idr_at, offsets_code, slice_id_at, tuning_at,
    tuning_code, IdrSlice, SliceId, SliceTuning,
};
use crate::nal_laws::{
    format_valid, framing_valid, holds, law_bit_reads_back, law_u_reads_back, law_ue_reads_back,
    lemma_crop_reads_back, lemma_format_reads_back, lemma_framing_reads_back, lemma_holds_split,
    lemma_optional_reads_back, lemma_tuning_reads_back, picture_valid,
};
use crate::nal_rewriter::{
    escaped, idr_encodable, idr_header, idr_rewritten, sps_rewritten, start_code_len, unescaped,
};
use crate::sps::{
    carplay_sps_bits, carplay_sps_code, crop_at, crop_code, flag, format_at, format_code, framing_at,
    framing_code, optional_bit, optional_flag, picture_at, picture_code, sps_at, vui_colour_code,
    vui_restriction_code, SpsFields, SpsFormat, SpsFraming, SpsPicture,
};
use vstd::arithmetic::power2::{lemma2_to64, lemma_pow2_pos, pow2};
use vstd::prelude::*;

verus! {

/// A slice header as x264 writes it, up to the alignment: a frame number of four digits, and no
/// picture order count.
pub open spec fn x264_idr_syntax(s: IdrSlice) -> Seq<bool> {
    let offsets = match s.tuning.deblock_offsets {
        Some(o) => se_code(o.alpha_c0_div2 as int) + se_code(o.beta_div2 as int),
        None => Seq::empty(),
    };
    ue_code(s.id.first_mb as nat) + ue_code(s.id.slice_type as nat) + ue_code(s.id.pps_id as nat)
        + binary(s.id.frame_num as nat, 4) + ue_code(s.id.idr_pic_id as nat) + seq![
        s.tuning.no_output_of_prior_pics == 1,
    ] + seq![s.tuning.long_term_reference == 1] + se_code(s.tuning.slice_qp_delta as int) + ue_code(
        s.tuning.disable_deblocking_filter_idc as nat,
    ) + offsets
}

/// A slice header as CarPlay expects it, up to the alignment: a frame number of 12 digits, and
/// behind the number of the picture 13 zero digits of picture order count.
pub open spec fn carplay_idr_syntax(s: IdrSlice) -> Seq<bool> {
    let offsets = match s.tuning.deblock_offsets {
        Some(o) => se_code(o.alpha_c0_div2 as int) + se_code(o.beta_div2 as int),
        None => Seq::empty(),
    };
    ue_code(s.id.first_mb as nat) + ue_code(s.id.slice_type as nat) + ue_code(s.id.pps_id as nat)
        + binary(s.id.frame_num as nat, 12) + ue_code(s.id.idr_pic_id as nat) + binary(0, 13) + seq![
        s.tuning.no_output_of_prior_pics == 1,
    ] + seq![s.tuning.long_term_reference == 1] + se_code(s.tuning.slice_qp_delta as int) + ue_code(
        s.tuning.disable_deblocking_filter_idc as nat,
    ) + offsets
}

/// Whether x264 can write this header: an I slice of the first picture parameter set, with flags that
/// are flags, and offsets unless the deblocking filter is off.
pub open spec fn x264_idr_legal(s: IdrSlice) -> bool {
    &&& s.id.slice_type % 5 == 2
    &&& s.id.pps_id == 0
    &&& s.id.frame_num < 16
    &&& s.tuning.no_output_of_prior_pics <= 1
    &&& s.tuning.long_term_reference <= 1
    &&& s.tuning.deblock_offsets is Some <==> s.tuning.disable_deblocking_filter_idc != 1
}

/// Whether bytes spell `code` and then fewer than eight bits, all of them `fill`.
pub open spec fn spells(data: Seq<u8>, code: Seq<bool>, fill: bool) -> bool {
    let bits = bits_of(data);
    &&& code.len() <= bits.len() < code.len() + 8
    &&& forall|i: int| 0 <= i < code.len() ==> #[trigger] bits[i] == code[i]
    &&& forall|i: int| code.len() <= i < bits.len() ==> #[trigger] bits[i] == fill
}

/// Whether bytes are a start code: two or three zero bytes and a one.
pub open spec fn is_start_code(data: Seq<u8>) -> bool {
    data == seq![0u8, 0, 1] || data == seq![0u8, 0, 0, 1]
}

/// Whether 64 zero bits in a row start somewhere before `end`. No number that is written as an
/// Exp-Golomb code has as many.
pub open spec fn long_run_before(bits: Seq<bool>, end: int) -> bool {
    exists|p: int| 0 <= p < end && #[trigger] zeros_at(bits, p) >= 64
}

proof fn lemma_holds_join(bits: Seq<bool>, pos: int, a: Seq<bool>, b: Seq<bool>)
    requires
        holds(bits, pos, a),
        holds(bits, pos + a.len(), b),
    ensures
        holds(bits, pos, a + b),
{
    assert(bits.subrange(pos, pos + (a + b).len()) =~= bits.subrange(pos, pos + a.len())
        + bits.subrange(pos + a.len(), pos + a.len() + b.len()));
}

proof fn lemma_zeros_run(bits: Seq<bool>, pos: int)
    requires
        0 <= pos <= bits.len(),
    ensures
        pos + zeros_at(bits, pos) <= bits.len(),
        forall|i: int| pos <= i < pos + zeros_at(bits, pos) ==> !bits[i],
        pos + zeros_at(bits, pos) < bits.len() ==> bits[pos + zeros_at(bits, pos)],
    decreases bits.len() - pos,
{
    if pos < bits.len() && !bits[pos] {
        lemma_zeros_run(bits, pos + 1);
    }
}

proof fn lemma_binary_of_number(bits: Seq<bool>)
    ensures
        binary(number(bits), bits.len()) == bits,
    decreases bits.len(),
{
    if bits.len() > 0 {
        lemma_binary_of_number(bits.drop_last());
        assert(number(bits) / 2 == number(bits.drop_last()));
        assert(bits.drop_last().push(bits.last()) =~= bits);
    } else {
        assert(binary(number(bits), 0) =~= bits);
    }
}

proof fn lemma_golomb_spelled(bits: Seq<bool>, pos: int)
    requires
        0 <= pos,
        golomb_at(bits, pos) is Some,
        zeros_at(bits, pos) < 64,
    ensures
        ({
            let v = golomb_at(bits, pos)->0;
            &&& v < u64::MAX
            &&& holds(bits, pos, ue_code(v))
            &&& ue_code(v).len() == ue_len(v)
        }),
{
    let z = zeros_at(bits, pos);
    let v = golomb_at(bits, pos)->0;
    let digits = bits.subrange(pos + z, pos + 2 * z + 1);
    let rest = bits.subrange(pos + z + 1, pos + 2 * z + 1);
    lemma_zeros_run(bits, pos);
    lemma_number_bound(rest);
    lemma2_to64();
    lemma_pow2_pos(z);
    vstd::arithmetic::power2::lemma_pow2_unfold(z + 1);
    vstd::arithmetic::power2::lemma_pow2_unfold(64);
    if z < 63 {
        vstd::arithmetic::power2::lemma_pow2_strictly_increases(z, 63);
    }
    assert(digits.skip(1) =~= rest);
    lemma_number_leading_one(digits);
    assert(number(digits) == v + 1);
    lemma_log2_unique(v + 1, z);
    lemma_binary_of_number(digits);
    lemma_ue_code_len(v);
    assert(bits.subrange(pos, pos + 2 * z + 1) =~= run(false, z) + digits);
}

/// A number that is read as an unsigned Exp-Golomb code stands there as such a code, and the reader
/// stops behind it, unless 64 zero bits stand there.
pub proof fn law_ue_stands_where_it_is_read(bits: Seq<bool>, pos: int)
    requires
        0 <= pos,
    ensures
        ue_at(bits, pos) matches Ok(v) ==> zeros_at(bits, pos) >= 64 || holds(
            bits,
            pos,
            ue_code(v as nat),
        ) && ue_end(bits, pos) == pos + ue_code(v as nat).len(),
{
    if ue_at(bits, pos) is Ok && zeros_at(bits, pos) < 64 {
        lemma_golomb_spelled(bits, pos);
    }
}

/// A number that is read as a signed Exp-Golomb code stands there as such a code, and the reader
/// stops behind it, unless 64 zero bits stand there.
pub proof fn law_se_stands_where_it_is_read(bits: Seq<bool>, pos: int)
    requires
        0 <= pos,
    ensures
        se_at(bits, pos) matches Ok(v) ==> zeros_at(bits, pos) >= 64 || holds(
            bits,
            pos,
            se_code(v as int),
        ) && se_end(bits, pos) == pos + se_code(v as int).len(),
{
    if se_at(bits, pos) is Ok && zeros_at(bits, pos) < 64 {
        lemma_golomb_spelled(bits, pos);
        let k = golomb_at(bits, pos)->0;
        assert(se_code_num(se_value(k)) == k);
    }
}

/// A number that is read with so many digits stands there with these digits.
pub proof fn law_u_stands_where_it_is_read(bits: Seq<bool>, pos: int, count: nat)
    requires
        0 <= pos,
        count <= 32,
    ensures
        u_at(bits, pos, count as int) matches Ok(v) ==> v < pow2(count) && holds(
            bits,
            pos,
            binary(v as nat, count),
        ) && u_end(bits, pos, count as int) == pos + count,
{
    if u_at(bits, pos, count as int) is Ok {
        let digits = bits.subrange(pos, pos + count);
        lemma_number_bound(digits);
        lemma_binary_of_number(digits);
        lemma2_to64();
        if count < 32 {
            vstd::arithmetic::power2::lemma_pow2_strictly_increases(count, 32);
        }
    }
}

/// A flag that is read stands there.
pub proof fn law_bit_stands_where_it_is_read(bits: Seq<bool>, pos: int)
    requires
        0 <= pos,
    ensures
        bit_at(bits, pos) matches Ok(b) ==> b <= 1 && holds(bits, pos, seq![b == 1]) && bit_end(
            bits,
            pos,
        ) == pos + 1,
{
    if bit_at(bits, pos) is Ok {
        assert(bits.subrange(pos, pos + 1) =~= seq![bits[pos]]);
    }
}

proof fn lemma_header_byte(header: u8)
    ensures
        header & 0x1f == header % 32,
        header >> 5 == header / 32,
{
    assert(header & 0x1f == header % 32) by (bit_vector);
    assert(header >> 5 == header / 32) by (bit_vector);
}

/// The parts of a NAL unit with this start code, this header byte and these bytes behind it.
proof fn lemma_nal_parts(start: Seq<u8>, header: u8, body: Seq<u8>)
    requires
        is_start_code(start),
    ensures
        ({
            let nal = start + seq![header] + body;
            let n = start.len() as int;
            &&& start_code_len(nal) == Ok::<int, H264FrameBufferError>(n)
            &&& nal.len() > n
            &&& nal[n] == header
            &&& nal.take(n) == start
            &&& nal.skip(n + 1) == body
        }),
{
    let nal = start + seq![header] + body;
    let n = start.len() as int;
    assert(nal.take(n) =~= start);
    assert(nal.skip(n + 1) =~= body);
    if n == 3 {
        assert(nal.len() >= 4 ==> nal.take(4)[2] == 1);
        assert(seq![0u8, 0, 0, 1][2] == 0);
    }
}

proof fn lemma_spells_pack(data: Seq<u8>, code: Seq<bool>, fill: bool)
    requires
        spells(data, code, fill),
    ensures
        data == pack(code + run(fill, padding(code.len() as int))),
        8 * data.len() == code.len() + padding(code.len() as int),
{
    let whole = code + run(fill, padding(code.len() as int));
    assert(bits_of(data).len() == 8 * data.len());
    assert forall|i: int| 0 <= i < 8 * data.len() implies #[trigger] bits_of(data)[i] == (i
        < whole.len() && whole[i]) by {}
    lemma_pack_unique(data, whole);
}

proof fn lemma_spells_front(data: Seq<u8>, code: Seq<bool>, fill: bool, rest: Seq<u8>)
    requires
        spells(data, code, fill),
    ensures
        holds(bits_of(data + rest), 0, code),
        forall|i: int| code.len() <= i < 8 * data.len() ==> bits_of(data + rest)[i] == fill,
{
    let bits = bits_of(data + rest);
    lemma_bits_of_concat(data, rest);
    assert(bits_of(data).len() == 8 * data.len());
    assert forall|i: int| 0 <= i < 8 * data.len() implies bits[i] == bits_of(data)[i] by {}
    assert(bits.subrange(0, code.len() as int) =~= code);
}

spec fn x264_id_syntax(s: SliceId) -> Seq<bool> {
    ue_code(s.first_mb as nat) + ue_code(s.slice_type as nat) + ue_code(s.pps_id as nat) + binary(
        s.frame_num as nat,
        4,
    ) + ue_code(s.idr_pic_id as nat)
}

proof fn lemma_flags(t: SliceTuning)
    requires
        t.no_output_of_prior_pics <= 1,
        t.long_term_reference <= 1,
    ensures
        flag(t.no_output_of_prior_pics) == seq![t.no_output_of_prior_pics == 1],
        flag(t.long_term_reference) == seq![t.long_term_reference == 1],
{
}

proof fn lemma_x264_idr_parts(s: IdrSlice)
    requires
        x264_idr_legal(s),
    ensures
        x264_idr_syntax(s) == x264_id_syntax(s.id) + tuning_code(s.tuning),
        carplay_idr_syntax(s) == carplay_idr_code(s),
{
    lemma_flags(s.tuning);
    assert(x264_idr_syntax(s) =~= x264_id_syntax(s.id) + tuning_code(s.tuning));
    assert(carplay_idr_syntax(s) =~= carplay_idr_code(s));
}

proof fn lemma_x264_id_read(bits: Seq<bool>, s: SliceId)
    requires
        s.slice_type % 5 == 2,
        s.pps_id == 0,
        s.frame_num < 16,
        holds(bits, 0, x264_id_syntax(s)),
    ensures
        slice_id_at(bits, 0) == Ok::<(SliceId, int), H264FrameBufferError>(
            (s, x264_id_syntax(s).len() as int),
        ),
{
    let c0 = ue_code(s.first_mb as nat);
    let c1 = ue_code(s.slice_type as nat);
    let c2 = ue_code(s.pps_id as nat);
    let c3 = binary(s.frame_num as nat, 4);
    let c4 = ue_code(s.idr_pic_id as nat);
    lemma_holds_split(bits, 0, c0 + c1 + c2 + c3, c4);
    lemma_holds_split(bits, 0, c0 + c1 + c2, c3);
    lemma_holds_split(bits, 0, c0 + c1, c2);
    lemma_holds_split(bits, 0, c0, c1);
    lemma2_to64();
    lemma_number_binary(s.frame_num as nat, 4);
    law_ue_reads_back(bits, 0, s.first_mb);
    let p1 = c0.len() as int;
    law_ue_reads_back(bits, p1, s.slice_type);
    let p2 = p1 + c1.len();
    law_ue_reads_back(bits, p2, s.pps_id);
    let p3 = p2 + c2.len();
    law_u_reads_back(bits, p3, s.frame_num, 4);
    law_ue_reads_back(bits, p3 + 4, s.idr_pic_id);
}

proof fn lemma_x264_source(source: Seq<u8>, code: Seq<bool>, cabac: Seq<u8>)
    requires
        spells(source, code, true),
    ensures
        holds(bits_of(source + cabac), 0, code),
        cabac_start_at(bits_of(source + cabac), code.len() as int) == Ok::<
            int,
            H264FrameBufferError,
        >(source.len() as int),
        (source + cabac).skip(source.len() as int) == cabac,
{
    lemma_spells_front(source, code, true, cabac);
    lemma_spells_pack(source, code, true);
    assert((source + cabac).skip(source.len() as int) =~= cabac);
}

proof fn lemma_x264_header_read(bits: Seq<bool>, s: IdrSlice)
    requires
        x264_idr_legal(s),
        deltas_encodable(s),
        holds(bits, 0, x264_id_syntax(s.id) + tuning_code(s.tuning)),
    ensures
        ({
            let p1 = x264_id_syntax(s.id).len() as int;
            &&& slice_id_at(bits, 0) == Ok::<(SliceId, int), H264FrameBufferError>((s.id, p1))
            &&& tuning_at(bits, p1) == Ok::<(SliceTuning, int), H264FrameBufferError>(
                (s.tuning, p1 + tuning_code(s.tuning).len()),
            )
        }),
{
    lemma_holds_split(bits, 0, x264_id_syntax(s.id), tuning_code(s.tuning));
    lemma_x264_id_read(bits, s.id);
    lemma_tuning_reads_back(bits, x264_id_syntax(s.id).len() as int, s);
}

proof fn lemma_x264_idr_read(s: IdrSlice, source: Seq<u8>, cabac: Seq<u8>)
    requires
        x264_idr_legal(s),
        deltas_encodable(s),
        spells(source, x264_idr_syntax(s), true),
    ensures
        idr_at(bits_of(source + cabac)) == Ok::<(IdrSlice, int), H264FrameBufferError>(
            (s, source.len() as int),
        ),
        (source + cabac).skip(source.len() as int) == cabac,
{
    lemma_x264_idr_parts(s);
    lemma_x264_source(source, x264_idr_syntax(s), cabac);
    lemma_x264_header_read(bits_of(source + cabac), s);
}

/// A slice that x264 writes, whatever its fields are, becomes the slice that CarPlay expects with the
/// same fields: the number of the frame in 12 digits in place of four, the number of the picture and
/// every other field as they are, and behind the header the same CABAC data. The start code and the
/// header byte stay.
pub proof fn law_idr_of_x264_becomes_that_of_carplay(
    start: Seq<u8>,
    header: u8,
    body: Seq<u8>,
    s: IdrSlice,
    source: Seq<u8>,
    target: Seq<u8>,
    cabac: Seq<u8>,
)
    requires
        is_start_code(start),
        header % 32 == 5,
        header / 32 != 0,
        x264_idr_legal(s),
        s.tuning.slice_qp_delta > i32::MIN,
        s.tuning.deblock_offsets matches Some(o) ==> o.alpha_c0_div2 > i32::MIN && o.beta_div2
            > i32::MIN,
        spells(source, x264_idr_syntax(s), true),
        spells(target, carplay_idr_syntax(s), true),
        unescaped(body, 0) == source + cabac,
    ensures
        idr_encodable(start + seq![header] + body),
        idr_rewritten(start + seq![header] + body) == Ok::<Seq<u8>, H264FrameBufferError>(
            start + seq![header] + escaped(target + cabac, 0),
        ),
{
    lemma_header_byte(header);
    lemma_nal_parts(start, header, body);
    lemma_x264_idr_read(s, source, cabac);
    lemma_x264_idr_parts(s);
    lemma_spells_pack(target, carplay_idr_syntax(s), true);
}

/// Whether the bits start with the header of a slice that x264 writes, and one bits up to `end`.
pub open spec fn x264_idr_stands(bits: Seq<bool>, s: IdrSlice, end: int) -> bool {
    let code = x264_idr_syntax(s);
    &&& x264_idr_legal(s)
    &&& holds(bits, 0, code)
    &&& code.len() <= end < code.len() + 8
    &&& end <= bits.len()
    &&& forall|i: int| code.len() <= i < end ==> #[trigger] bits[i]
}

proof fn lemma_id_stands(bits: Seq<bool>)
    requires
        slice_id_at(bits, 0) is Ok,
    ensures
        ({
            let (s, end) = slice_id_at(bits, 0)->Ok_0;
            &&& s.slice_type % 5 == 2
            &&& s.pps_id == 0
            &&& s.frame_num < 16
            &&& end > 0
            &&& long_run_before(bits, end) || holds(bits, 0, x264_id_syntax(s)) && end
                == x264_id_syntax(s).len()
        }),
{
    let (s, end) = slice_id_at(bits, 0)->Ok_0;
    let p1 = ue_end(bits, 0);
    let p2 = ue_end(bits, p1);
    let p3 = ue_end(bits, p2);
    let p4 = u_end(bits, p3, 4);
    lemma_ue_end(bits, 0);
    lemma_ue_end(bits, p1);
    lemma_ue_end(bits, p2);
    lemma_ue_end(bits, p4);
    law_ue_stands_where_it_is_read(bits, 0);
    law_ue_stands_where_it_is_read(bits, p1);
    law_ue_stands_where_it_is_read(bits, p2);
    law_u_stands_where_it_is_read(bits, p3, 4);
    law_ue_stands_where_it_is_read(bits, p4);
    lemma2_to64();
    if !long_run_before(bits, end) {
        assert(zeros_at(bits, 0) < 64);
        assert(zeros_at(bits, p1) < 64);
        assert(zeros_at(bits, p2) < 64);
        assert(zeros_at(bits, p4) < 64);
        let c0 = ue_code(s.first_mb as nat);
        let c1 = ue_code(s.slice_type as nat);
        let c2 = ue_code(s.pps_id as nat);
        let c3 = binary(s.frame_num as nat, 4);
        let c4 = ue_code(s.idr_pic_id as nat);
        lemma_binary_len(s.frame_num as nat, 4);
        lemma_holds_join(bits, 0, c0, c1);
        lemma_holds_join(bits, 0, c0 + c1, c2);
        lemma_holds_join(bits, 0, c0 + c1 + c2, c3);
        lemma_holds_join(bits, 0, c0 + c1 + c2 + c3, c4);
    }
}

/// Reading a number moves on.
proof fn lemma_ue_end(bits: Seq<bool>, pos: int)
    requires
        0 <= pos,
    ensures
        ue_at(bits, pos) is Ok ==> pos < ue_end(bits, pos) <= bits.len(),
        se_at(bits, pos) is Ok ==> pos < se_end(bits, pos) <= bits.len(),
{
    if pos < bits.len() {
        crate::bit_reader::lemma_step_inside(bits, pos);
    }
}

proof fn lemma_tuning_stands(bits: Seq<bool>, pos: int)
    requires
        0 <= pos,
        tuning_at(bits, pos) is Ok,
    ensures
        ({
            let (t, end) = tuning_at(bits, pos)->Ok_0;
            &&& t.no_output_of_prior_pics <= 1
            &&& t.long_term_reference <= 1
            &&& t.deblock_offsets is Some <==> t.disable_deblocking_filter_idc != 1
            &&& pos < end <= bits.len()
            &&& long_run_before(bits, end) || holds(bits, pos, tuning_code(t)) && end == pos
                + tuning_code(t).len()
        }),
{
    let (t, end) = tuning_at(bits, pos)->Ok_0;
    let p1 = bit_end(bits, pos);
    let p2 = bit_end(bits, p1);
    let p3 = se_end(bits, p2);
    let p4 = ue_end(bits, p3);
    law_bit_stands_where_it_is_read(bits, pos);
    law_bit_stands_where_it_is_read(bits, p1);
    law_se_stands_where_it_is_read(bits, p2);
    lemma_ue_end(bits, p2);
    law_ue_stands_where_it_is_read(bits, p3);
    lemma_ue_end(bits, p3);
    law_se_stands_where_it_is_read(bits, p4);
    lemma_ue_end(bits, p4);
    let p5 = se_end(bits, p4);
    if t.deblock_offsets is Some {
        law_se_stands_where_it_is_read(bits, p5);
        lemma_ue_end(bits, p5);
    }
    if !long_run_before(bits, end) {
        assert(zeros_at(bits, p2) < 64);
        assert(zeros_at(bits, p3) < 64);
        lemma_flags(t);
        let c0 = flag(t.no_output_of_prior_pics);
        let c1 = flag(t.long_term_reference);
        let c2 = se_code(t.slice_qp_delta as int);
        let c3 = ue_code(t.disable_deblocking_filter_idc as nat);
        let c4 = offsets_code(t.deblock_offsets);
        lemma_holds_join(bits, pos, c0, c1);
        lemma_holds_join(bits, pos, c0 + c1, c2);
        lemma_holds_join(bits, pos, c0 + c1 + c2, c3);
        if let Some(o) = t.deblock_offsets {
            assert(zeros_at(bits, p4) < 64);
            assert(zeros_at(bits, p5) < 64);
            lemma_holds_join(bits, p4, se_code(o.alpha_c0_div2 as int), se_code(o.beta_div2 as int));
        } else {
            assert(bits.subrange(p4, p4) =~= Seq::<bool>::empty());
        }
        lemma_holds_join(bits, pos, c0 + c1 + c2 + c3, c4);
    }
}

proof fn lemma_idr_stands(rbsp: Seq<u8>)
    requires
        idr_at(bits_of(rbsp)) is Ok,
    ensures
        ({
            let bits = bits_of(rbsp);
            let (s, start) = idr_at(bits)->Ok_0;
            x264_idr_stands(bits, s, 8 * start) || long_run_before(bits, 8 * start)
        }),
{
    let bits = bits_of(rbsp);
    let (s, start) = idr_at(bits)->Ok_0;
    lemma_id_stands(bits);
    let p1 = slice_id_at(bits, 0)->Ok_0.1;
    lemma_tuning_stands(bits, p1);
    let p2 = tuning_at(bits, p1)->Ok_0.1;
    lemma_idr_joined(rbsp, s, p1, p2, start);
}

proof fn lemma_parts_joined(
    bits: Seq<bool>,
    a: Seq<bool>,
    b: Seq<bool>,
    p1: int,
    p2: int,
    end: int,
)
    requires
        0 <= p1 <= p2 <= end,
        long_run_before(bits, p1) || holds(bits, 0, a) && p1 == a.len(),
        long_run_before(bits, p2) || holds(bits, p1, b) && p2 == p1 + b.len(),
    ensures
        long_run_before(bits, end) || holds(bits, 0, a + b) && p2 == (a + b).len(),
{
    if long_run_before(bits, p1) {
        let p = choose|p: int| 0 <= p < p1 && #[trigger] zeros_at(bits, p) >= 64;
        assert(zeros_at(bits, p) >= 64 && p < end);
    } else if long_run_before(bits, p2) {
        let p = choose|p: int| 0 <= p < p2 && #[trigger] zeros_at(bits, p) >= 64;
        assert(zeros_at(bits, p) >= 64 && p < end);
    } else {
        lemma_holds_join(bits, 0, a, b);
    }
}

proof fn lemma_filled_up(rbsp: Seq<u8>, pos: int, start: int)
    requires
        0 <= pos <= bits_of(rbsp).len(),
        cabac_start_at(bits_of(rbsp), pos) == Ok::<int, H264FrameBufferError>(start),
    ensures
        pos <= 8 * start < pos + 8,
        8 * start <= bits_of(rbsp).len(),
        forall|i: int| pos <= i < 8 * start ==> #[trigger] bits_of(rbsp)[i],
{
    assert(bits_of(rbsp).len() == 8 * rbsp.len());
    assert(8 * start == pos + padding(pos));
}

proof fn lemma_idr_joined(rbsp: Seq<u8>, s: IdrSlice, p1: int, p2: int, start: int)
    requires
        x264_idr_legal(s),
        0 <= p1 <= p2 <= bits_of(rbsp).len(),
        cabac_start_at(bits_of(rbsp), p2) == Ok::<int, H264FrameBufferError>(start),
        long_run_before(bits_of(rbsp), p1) || holds(bits_of(rbsp), 0, x264_id_syntax(s.id)) && p1
            == x264_id_syntax(s.id).len(),
        long_run_before(bits_of(rbsp), p2) || holds(bits_of(rbsp), p1, tuning_code(s.tuning)) && p2
            == p1 + tuning_code(s.tuning).len(),
    ensures
        x264_idr_stands(bits_of(rbsp), s, 8 * start) || long_run_before(bits_of(rbsp), 8 * start),
{
    lemma_filled_up(rbsp, p2, start);
    lemma_x264_idr_parts(s);
    lemma_parts_joined(
        bits_of(rbsp),
        x264_id_syntax(s.id),
        tuning_code(s.tuning),
        p1,
        p2,
        8 * start,
    );
}

proof fn lemma_start_code_found(nal: Seq<u8>)
    requires
        start_code_len(nal) is Ok,
    ensures
        ({
            let n = start_code_len(nal)->Ok_0;
            &&& n == 3 || n == 4
            &&& n <= nal.len()
            &&& is_start_code(nal.take(n))
        }),
{
}

/// A slice is rewritten only if x264 can have written it: it has a start code, the header byte of an
/// IDR slice that others refer to, and a payload that starts with a slice header in the syntax of
/// x264, filled up with one bits to the byte at which the CABAC data starts. Left out are headers in
/// which 64 zero bits stand in a row.
pub proof fn law_only_idr_of_x264_is_rewritten(nal: Seq<u8>)
    requires
        idr_header(nal) is Ok,
    ensures
        ({
            let n = start_code_len(nal)->Ok_0;
            let (s, start) = idr_header(nal)->Ok_0;
            let bits = bits_of(unescaped(nal.skip(n + 1), 0));
            &&& is_start_code(nal.take(n))
            &&& n < nal.len()
            &&& nal[n] % 32 == 5
            &&& nal[n] / 32 != 0
            &&& x264_idr_stands(bits, s, 8 * start) || long_run_before(bits, 8 * start)
        }),
{
    let n = start_code_len(nal)->Ok_0;
    lemma_start_code_found(nal);
    lemma_header_byte(nal[n]);
    lemma_idr_stands(unescaped(nal.skip(n + 1), 0));
}

/// A flag that is there or not.
pub open spec fn maybe_flag(bit: Option<u8>) -> Seq<bool> {
    match bit {
        Some(b) => seq![b == 1],
        None => Seq::empty(),
    }
}

/// A parameter set as x264 writes it, up to the VUI parameters: no scaling matrix, a frame number of
/// four digits and picture order type 2.
pub open spec fn x264_sps_syntax(f: SpsFields) -> Seq<bool> {
    let crop = match f.framing.crop {
        Some(c) => ue_code(c.left as nat) + ue_code(c.right as nat) + ue_code(c.top as nat) + ue_code(
            c.bottom as nat,
        ),
        None => Seq::empty(),
    };
    binary(f.format.profile_idc as nat, 8) + binary(f.format.constraint_flags as nat, 8) + binary(
        f.format.level_idc as nat,
        8,
    ) + ue_code(f.format.seq_parameter_set_id as nat) + ue_code(f.format.chroma_format_idc as nat)
        + maybe_flag(f.format.separate_colour_plane) + ue_code(f.format.bit_depth_luma_minus8 as nat)
        + ue_code(f.format.bit_depth_chroma_minus8 as nat) + seq![
        f.format.qpprime_y_zero_transform_bypass == 1,
        false,
    ] + ue_code(0) + ue_code(2) + ue_code(f.picture.max_num_ref_frames as nat) + seq![
        f.picture.gaps_in_frame_num_allowed == 1,
    ] + ue_code(f.picture.pic_width_in_mbs_minus1 as nat) + ue_code(
        f.picture.pic_height_in_map_units_minus1 as nat,
    ) + seq![f.framing.frame_mbs_only == 1] + maybe_flag(f.framing.mb_adaptive_frame_field) + seq![
        f.framing.direct_8x8_inference == 1,
        f.framing.frame_cropping == 1,
    ] + crop + seq![true]
}

/// A parameter set as CarPlay expects it, up to the trailing bits: a frame number of 12 digits,
/// picture order type 0 with 13 digits, and VUI parameters that say nothing but full range video of
/// unspecified format with colour description 1, 13 and 6, and restrictions on the stream.
pub open spec fn carplay_sps_syntax(f: SpsFields) -> Seq<bool> {
    let crop = match f.framing.crop {
        Some(c) => ue_code(c.left as nat) + ue_code(c.right as nat) + ue_code(c.top as nat) + ue_code(
            c.bottom as nat,
        ),
        None => Seq::empty(),
    };
    binary(f.format.profile_idc as nat, 8) + binary(f.format.constraint_flags as nat, 8) + binary(
        f.format.level_idc as nat,
        8,
    ) + ue_code(f.format.seq_parameter_set_id as nat) + ue_code(f.format.chroma_format_idc as nat)
        + maybe_flag(f.format.separate_colour_plane) + ue_code(f.format.bit_depth_luma_minus8 as nat)
        + ue_code(f.format.bit_depth_chroma_minus8 as nat) + seq![
        f.format.qpprime_y_zero_transform_bypass == 1,
        false,
    ] + ue_code(8) + ue_code(0) + ue_code(9) + ue_code(f.picture.max_num_ref_frames as nat) + seq![
        f.picture.gaps_in_frame_num_allowed == 1,
    ] + ue_code(f.picture.pic_width_in_mbs_minus1 as nat) + ue_code(
        f.picture.pic_height_in_map_units_minus1 as nat,
    ) + seq![f.framing.frame_mbs_only == 1] + maybe_flag(f.framing.mb_adaptive_frame_field) + seq![
        f.framing.direct_8x8_inference == 1,
        f.framing.frame_cropping == 1,
    ] + crop + seq![true] + seq![false, false, true] + binary(5, 3) + seq![true, true] + binary(1, 8)
        + binary(13, 8) + binary(6, 8) + seq![false, false, false, false, false, true, true]
        + ue_code(2) + ue_code(1) + ue_code(16) + ue_code(16) + ue_code(0) + ue_code(4)
}

/// Whether x264 can write this parameter set: High Profile with four reference frames, numbers of
/// eight digits, flags that are flags, and optional fields where the syntax has them.
pub open spec fn x264_sps_legal(f: SpsFields) -> bool {
    &&& f.format.profile_idc == 100
    &&& f.format.constraint_flags <= 255
    &&& f.format.level_idc <= 255
    &&& f.format.separate_colour_plane is Some <==> f.format.chroma_format_idc == 3
    &&& f.format.separate_colour_plane matches Some(b) ==> b <= 1
    &&& f.format.qpprime_y_zero_transform_bypass <= 1
    &&& f.picture.max_num_ref_frames == 4
    &&& f.picture.gaps_in_frame_num_allowed <= 1
    &&& f.framing.frame_mbs_only <= 1
    &&& f.framing.mb_adaptive_frame_field is Some <==> f.framing.frame_mbs_only == 0
    &&& f.framing.mb_adaptive_frame_field matches Some(b) ==> b <= 1
    &&& f.framing.direct_8x8_inference <= 1
    &&& f.framing.frame_cropping <= 1
    &&& f.framing.crop is Some <==> f.framing.frame_cropping == 1
}

spec fn x264_picture_syntax(p: SpsPicture) -> Seq<bool> {
    ue_code(0) + ue_code(2) + ue_code(p.max_num_ref_frames as nat) + flag(
        p.gaps_in_frame_num_allowed,
    ) + ue_code(p.pic_width_in_mbs_minus1 as nat) + ue_code(p.pic_height_in_map_units_minus1 as nat)
}

proof fn lemma_flag_of(bit: u8)
    requires
        bit <= 1,
    ensures
        flag(bit) == seq![bit == 1],
        optional_flag(Some(bit)) == maybe_flag(Some(bit)),
        optional_flag(None) == maybe_flag(None),
{
}

proof fn lemma_format_parts(f: SpsFormat)
    requires
        format_valid(f),
    ensures
        format_code(f) == binary(f.profile_idc as nat, 8) + binary(f.constraint_flags as nat, 8)
            + binary(f.level_idc as nat, 8) + ue_code(f.seq_parameter_set_id as nat) + ue_code(
            f.chroma_format_idc as nat,
        ) + maybe_flag(f.separate_colour_plane) + ue_code(f.bit_depth_luma_minus8 as nat) + ue_code(
            f.bit_depth_chroma_minus8 as nat,
        ) + seq![f.qpprime_y_zero_transform_bypass == 1, false],
{
    let front = binary(f.profile_idc as nat, 8) + binary(f.constraint_flags as nat, 8) + binary(
        f.level_idc as nat,
        8,
    ) + ue_code(f.seq_parameter_set_id as nat) + ue_code(f.chroma_format_idc as nat) + maybe_flag(
        f.separate_colour_plane,
    ) + ue_code(f.bit_depth_luma_minus8 as nat) + ue_code(f.bit_depth_chroma_minus8 as nat);
    assert(optional_flag(f.separate_colour_plane) == maybe_flag(f.separate_colour_plane));
    let q = f.qpprime_y_zero_transform_bypass;
    assert(format_code(f) == front + flag(q) + seq![false]);
    assert(front + flag(q) + seq![false] =~= front + seq![q == 1, false]);
}

proof fn lemma_framing_parts(f: SpsFraming)
    requires
        framing_valid(f),
    ensures
        framing_code(f) == seq![f.frame_mbs_only == 1] + maybe_flag(f.mb_adaptive_frame_field) + seq![
            f.direct_8x8_inference == 1,
            f.frame_cropping == 1,
        ] + crop_code(f.crop) + seq![true],
{
    assert(optional_flag(f.mb_adaptive_frame_field) == maybe_flag(f.mb_adaptive_frame_field));
    let front = seq![f.frame_mbs_only == 1] + maybe_flag(f.mb_adaptive_frame_field);
    assert(flag(f.frame_mbs_only) =~= seq![f.frame_mbs_only == 1]);
    assert(front + flag(f.direct_8x8_inference) + flag(f.frame_cropping) =~= front + seq![
        f.direct_8x8_inference == 1,
        f.frame_cropping == 1,
    ]);
}

proof fn lemma_picture_parts(p: SpsPicture)
    requires
        picture_valid(p),
    ensures
        picture_code(p) == ue_code(8) + ue_code(0) + ue_code(9) + ue_code(
            p.max_num_ref_frames as nat,
        ) + seq![p.gaps_in_frame_num_allowed == 1] + ue_code(p.pic_width_in_mbs_minus1 as nat)
            + ue_code(p.pic_height_in_map_units_minus1 as nat),
        x264_picture_syntax(p) == ue_code(0) + ue_code(2) + ue_code(p.max_num_ref_frames as nat)
            + seq![p.gaps_in_frame_num_allowed == 1] + ue_code(p.pic_width_in_mbs_minus1 as nat)
            + ue_code(p.pic_height_in_map_units_minus1 as nat),
{
    lemma_flag_of(p.gaps_in_frame_num_allowed);
}

proof fn lemma_add_is_associative(a: Seq<bool>, b: Seq<bool>, c: Seq<bool>)
    ensures
        a + (b + c) == a + b + c,
{
    assert(a + (b + c) =~= a + b + c);
}

proof fn lemma_append5(a: Seq<bool>, x0: Seq<bool>, x1: Seq<bool>, x2: Seq<bool>, x3: Seq<bool>, x4: Seq<bool>)
    ensures
        a + (x0 + x1 + x2 + x3 + x4) == a + x0 + x1 + x2 + x3 + x4,
{
    lemma_add_is_associative(a, x0 + x1 + x2 + x3, x4);
    lemma_add_is_associative(a, x0 + x1 + x2, x3);
    lemma_add_is_associative(a, x0 + x1, x2);
    lemma_add_is_associative(a, x0, x1);
}

proof fn lemma_append6(a: Seq<bool>, x0: Seq<bool>, x1: Seq<bool>, x2: Seq<bool>, x3: Seq<bool>, x4: Seq<bool>, x5: Seq<bool>)
    ensures
        a + (x0 + x1 + x2 + x3 + x4 + x5) == a + x0 + x1 + x2 + x3 + x4 + x5,
{
    lemma_add_is_associative(a, x0 + x1 + x2 + x3 + x4, x5);
    lemma_add_is_associative(a, x0 + x1 + x2 + x3, x4);
    lemma_add_is_associative(a, x0 + x1 + x2, x3);
    lemma_add_is_associative(a, x0 + x1, x2);
    lemma_add_is_associative(a, x0, x1);
}

proof fn lemma_append7(a: Seq<bool>, x0: Seq<bool>, x1: Seq<bool>, x2: Seq<bool>, x3: Seq<bool>, x4: Seq<bool>, x5: Seq<bool>, x6: Seq<bool>)
    ensures
        a + (x0 + x1 + x2 + x3 + x4 + x5 + x6) == a + x0 + x1 + x2 + x3 + x4 + x5 + x6,
{
    lemma_add_is_associative(a, x0 + x1 + x2 + x3 + x4 + x5, x6);
    lemma_add_is_associative(a, x0 + x1 + x2 + x3 + x4, x5);
    lemma_add_is_associative(a, x0 + x1 + x2 + x3, x4);
    lemma_add_is_associative(a, x0 + x1 + x2, x3);
    lemma_add_is_associative(a, x0 + x1, x2);
    lemma_add_is_associative(a, x0, x1);
}

proof fn lemma_x264_sps_parts(f: SpsFields)
    requires
        x264_sps_legal(f),
    ensures
        x264_sps_syntax(f) == format_code(f.format) + x264_picture_syntax(f.picture) + framing_code(
            f.framing,
        ),
{
    let SpsFields { format, picture, framing } = f;
    lemma_format_parts(format);
    lemma_picture_parts(picture);
    lemma_framing_parts(framing);
    lemma_append6(
        format_code(format),
        ue_code(0),
        ue_code(2),
        ue_code(picture.max_num_ref_frames as nat),
        seq![picture.gaps_in_frame_num_allowed == 1],
        ue_code(picture.pic_width_in_mbs_minus1 as nat),
        ue_code(picture.pic_height_in_map_units_minus1 as nat),
    );
    lemma_append5(
        format_code(format) + x264_picture_syntax(picture),
        seq![framing.frame_mbs_only == 1],
        maybe_flag(framing.mb_adaptive_frame_field),
        seq![framing.direct_8x8_inference == 1, framing.frame_cropping == 1],
        crop_code(framing.crop),
        seq![true],
    );
}

#[verifier::rlimit(40)]
proof fn lemma_carplay_sps_parts(f: SpsFields)
    requires
        x264_sps_legal(f),
    ensures
        carplay_sps_syntax(f) == carplay_sps_code(f),
{
    let SpsFields { format, picture, framing } = f;
    lemma_format_parts(format);
    lemma_picture_parts(picture);
    lemma_framing_parts(framing);
    lemma_append7(
        format_code(format),
        ue_code(8),
        ue_code(0),
        ue_code(9),
        ue_code(picture.max_num_ref_frames as nat),
        seq![picture.gaps_in_frame_num_allowed == 1],
        ue_code(picture.pic_width_in_mbs_minus1 as nat),
        ue_code(picture.pic_height_in_map_units_minus1 as nat),
    );
    let front = format_code(format) + picture_code(picture);
    lemma_append5(
        front,
        seq![framing.frame_mbs_only == 1],
        maybe_flag(framing.mb_adaptive_frame_field),
        seq![framing.direct_8x8_inference == 1, framing.frame_cropping == 1],
        crop_code(framing.crop),
        seq![true],
    );
    let fields = front + framing_code(framing);
    lemma_add_is_associative(fields, vui_colour_code(), vui_restriction_code());
    lemma_append6(
        fields,
        seq![false, false, true],
        binary(5, 3),
        seq![true, true],
        binary(1, 8),
        binary(13, 8),
        binary(6, 8),
    );
    lemma_append7(
        fields + vui_colour_code(),
        seq![false, false, false, false, false, true, true],
        ue_code(2),
        ue_code(1),
        ue_code(16),
        ue_code(16),
        ue_code(0),
        ue_code(4),
    );
}

proof fn lemma_x264_picture_read(bits: Seq<bool>, pos: int, p: SpsPicture)
    requires
        picture_valid(p),
        holds(bits, pos, x264_picture_syntax(p)),
    ensures
        picture_at(bits, pos) == Ok::<(SpsPicture, int), H264FrameBufferError>(
            (p, pos + x264_picture_syntax(p).len()),
        ),
{
    let c0 = ue_code(0);
    let c1 = ue_code(2);
    let c2 = ue_code(p.max_num_ref_frames as nat);
    let c3 = flag(p.gaps_in_frame_num_allowed);
    let c4 = ue_code(p.pic_width_in_mbs_minus1 as nat);
    let c5 = ue_code(p.pic_height_in_map_units_minus1 as nat);
    lemma_holds_split(bits, pos, c0 + c1 + c2 + c3 + c4, c5);
    lemma_holds_split(bits, pos, c0 + c1 + c2 + c3, c4);
    lemma_holds_split(bits, pos, c0 + c1 + c2, c3);
    lemma_holds_split(bits, pos, c0 + c1, c2);
    lemma_holds_split(bits, pos, c0, c1);
    law_ue_reads_back(bits, pos, 0);
    let p1 = pos + c0.len();
    law_ue_reads_back(bits, p1, 2);
    let p2 = p1 + c1.len();
    law_ue_reads_back(bits, p2, p.max_num_ref_frames);
    let p3 = p2 + c2.len();
    law_bit_reads_back(bits, p3, p.gaps_in_frame_num_allowed);
    let p4 = p3 + 1;
    law_ue_reads_back(bits, p4, p.pic_width_in_mbs_minus1);
    law_ue_reads_back(bits, p4 + c4.len(), p.pic_height_in_map_units_minus1);
}

proof fn lemma_x264_sps_read(bits: Seq<bool>, f: SpsFields)
    requires
        x264_sps_legal(f),
        holds(bits, 0, format_code(f.format) + x264_picture_syntax(f.picture) + framing_code(f.framing)),
    ensures
        sps_at(bits) == Ok::<SpsFields, H264FrameBufferError>(f),
{
    let c0 = format_code(f.format);
    let c1 = x264_picture_syntax(f.picture);
    let c2 = framing_code(f.framing);
    lemma_holds_split(bits, 0, c0 + c1, c2);
    lemma_holds_split(bits, 0, c0, c1);
    lemma_format_reads_back(bits, f.format);
    lemma_x264_picture_read(bits, c0.len() as int, f.picture);
    lemma_framing_reads_back(bits, (c0.len() + c1.len()) as int, f.framing);
}

proof fn lemma_carplay_sps_target(target: Seq<u8>, f: SpsFields)
    requires
        x264_sps_legal(f),
        spells(target, carplay_sps_syntax(f).push(true), false),
    ensures
        target == pack(carplay_sps_bits(f)),
{
    let code = carplay_sps_code(f);
    lemma_carplay_sps_parts(f);
    lemma_spells_pack(target, code.push(true), false);
    assert(code.push(true) + run(false, padding((code.len() + 1) as int)) =~= carplay_sps_bits(f));
}

/// A parameter set that x264 writes, whatever its fields and its VUI parameters are, becomes the
/// parameter set that CarPlay expects with the same fields. The start code and the header byte stay.
pub proof fn law_sps_of_x264_becomes_that_of_carplay(
    start: Seq<u8>,
    header: u8,
    body: Seq<u8>,
    f: SpsFields,
    target: Seq<u8>,
)
    requires
        is_start_code(start),
        header % 32 == 7,
        x264_sps_legal(f),
        holds(bits_of(unescaped(body, 0)), 0, x264_sps_syntax(f)),
        spells(target, carplay_sps_syntax(f).push(true), false),
    ensures
        sps_rewritten(start + seq![header] + body) == Ok::<Seq<u8>, H264FrameBufferError>(
            start + seq![header] + escaped(target, 0),
        ),
{
    lemma_header_byte(header);
    lemma_nal_parts(start, header, body);
    lemma_x264_sps_parts(f);
    lemma_x264_sps_read(bits_of(unescaped(body, 0)), f);
    lemma_carplay_sps_target(target, f);
}

proof fn lemma_run_before_more(bits: Seq<bool>, a: int, b: int)
    requires
        a <= b,
        long_run_before(bits, a),
    ensures
        long_run_before(bits, b),
{
    let p = choose|p: int| 0 <= p < a && #[trigger] zeros_at(bits, p) >= 64;
    assert(zeros_at(bits, p) >= 64 && p < b);
}

proof fn lemma_ue_stands(bits: Seq<bool>, pos: int, end: int)
    requires
        0 <= pos < end,
        ue_at(bits, pos) is Ok,
        !long_run_before(bits, end),
    ensures
        holds(bits, pos, ue_code(ue_at(bits, pos)->Ok_0 as nat)),
        ue_end(bits, pos) == pos + ue_code(ue_at(bits, pos)->Ok_0 as nat).len(),
{
    assert(zeros_at(bits, pos) < 64);
    law_ue_stands_where_it_is_read(bits, pos);
}

proof fn lemma_optional_stands(bits: Seq<bool>, pos: int, present: bool)
    requires
        0 <= pos,
        optional_bit(bits, pos, present) is Ok,
        pos <= bits.len(),
    ensures
        ({
            let (bit, end) = optional_bit(bits, pos, present)->Ok_0;
            &&& bit is Some <==> present
            &&& bit matches Some(b) ==> b <= 1
            &&& pos <= end <= bits.len()
            &&& holds(bits, pos, optional_flag(bit))
            &&& end == pos + optional_flag(bit).len()
        }),
{
    law_bit_stands_where_it_is_read(bits, pos);
    if present {
        lemma_flag_of(bit_at(bits, pos)->Ok_0);
    } else {
        assert(bits.subrange(pos, pos) =~= Seq::<bool>::empty());
    }
}

proof fn lemma_format_stands(bits: Seq<bool>)
    requires
        format_at(bits, 0) is Ok,
    ensures
        ({
            let (f, end) = format_at(bits, 0)->Ok_0;
            &&& format_valid(f)
            &&& 0 <= end <= bits.len()
            &&& long_run_before(bits, end) || holds(bits, 0, format_code(f)) && end == format_code(
                f,
            ).len()
        }),
{
    let (f, end) = format_at(bits, 0)->Ok_0;
    lemma2_to64();
    law_u_stands_where_it_is_read(bits, 0, 8);
    law_u_stands_where_it_is_read(bits, 8, 8);
    law_u_stands_where_it_is_read(bits, 16, 8);
    let p3 = 24;
    lemma_ue_end(bits, p3);
    let p4 = ue_end(bits, p3);
    lemma_ue_end(bits, p4);
    let p5 = ue_end(bits, p4);
    lemma_optional_stands(bits, p5, f.chroma_format_idc == 3);
    let p6 = optional_bit(bits, p5, f.chroma_format_idc == 3)->Ok_0.1;
    lemma_ue_end(bits, p6);
    let p7 = ue_end(bits, p6);
    lemma_ue_end(bits, p7);
    let p8 = ue_end(bits, p7);
    law_bit_stands_where_it_is_read(bits, p8);
    law_bit_stands_where_it_is_read(bits, p8 + 1);
    if !long_run_before(bits, end) {
        lemma_ue_stands(bits, p3, end);
        lemma_ue_stands(bits, p4, end);
        lemma_ue_stands(bits, p6, end);
        lemma_ue_stands(bits, p7, end);
        lemma_format_joined(bits, f, p5, p6, p7, p8);
    }
}

proof fn lemma_format_joined(bits: Seq<bool>, f: SpsFormat, p5: int, p6: int, p7: int, p8: int)
    requires
        holds(bits, 0, binary(f.profile_idc as nat, 8)),
        holds(bits, 8, binary(f.constraint_flags as nat, 8)),
        holds(bits, 16, binary(f.level_idc as nat, 8)),
        holds(bits, 24, ue_code(f.seq_parameter_set_id as nat)),
        holds(
            bits,
            24int + ue_code(f.seq_parameter_set_id as nat).len(),
            ue_code(f.chroma_format_idc as nat),
        ),
        p5 == 24 + ue_code(f.seq_parameter_set_id as nat).len() + ue_code(
            f.chroma_format_idc as nat,
        ).len(),
        holds(bits, p5, optional_flag(f.separate_colour_plane)),
        p6 == p5 + optional_flag(f.separate_colour_plane).len(),
        holds(bits, p6, ue_code(f.bit_depth_luma_minus8 as nat)),
        p7 == p6 + ue_code(f.bit_depth_luma_minus8 as nat).len(),
        holds(bits, p7, ue_code(f.bit_depth_chroma_minus8 as nat)),
        p8 == p7 + ue_code(f.bit_depth_chroma_minus8 as nat).len(),
        f.qpprime_y_zero_transform_bypass <= 1,
        holds(bits, p8, seq![f.qpprime_y_zero_transform_bypass == 1]),
        holds(bits, p8 + 1, seq![false]),
    ensures
        holds(bits, 0, format_code(f)),
        p8 + 2 == format_code(f).len(),
{
    lemma_flag_of(f.qpprime_y_zero_transform_bypass);
    lemma_binary_len(f.profile_idc as nat, 8);
    lemma_binary_len(f.constraint_flags as nat, 8);
    lemma_binary_len(f.level_idc as nat, 8);
    let c0 = binary(f.profile_idc as nat, 8);
    let c1 = binary(f.constraint_flags as nat, 8);
    let c2 = binary(f.level_idc as nat, 8);
    let c3 = ue_code(f.seq_parameter_set_id as nat);
    let c4 = ue_code(f.chroma_format_idc as nat);
    let c5 = optional_flag(f.separate_colour_plane);
    let c6 = ue_code(f.bit_depth_luma_minus8 as nat);
    let c7 = ue_code(f.bit_depth_chroma_minus8 as nat);
    let c8 = flag(f.qpprime_y_zero_transform_bypass);
    let c9 = seq![false];
    lemma_holds_join(bits, 0, c0, c1);
    lemma_holds_join(bits, 0, c0 + c1, c2);
    lemma_holds_join(bits, 0, c0 + c1 + c2, c3);
    lemma_holds_join(bits, 0, c0 + c1 + c2 + c3, c4);
    lemma_holds_join(bits, 0, c0 + c1 + c2 + c3 + c4, c5);
    lemma_holds_join(bits, 0, c0 + c1 + c2 + c3 + c4 + c5, c6);
    lemma_holds_join(bits, 0, c0 + c1 + c2 + c3 + c4 + c5 + c6, c7);
    lemma_holds_join(bits, 0, c0 + c1 + c2 + c3 + c4 + c5 + c6 + c7, c8);
    lemma_holds_join(bits, 0, c0 + c1 + c2 + c3 + c4 + c5 + c6 + c7 + c8, c9);
}

proof fn lemma_picture_stands(bits: Seq<bool>, pos: int)
    requires
        0 <= pos,
        picture_at(bits, pos) is Ok,
    ensures
        ({
            let (p, end) = picture_at(bits, pos)->Ok_0;
            &&& picture_valid(p)
            &&& pos <= end <= bits.len()
            &&& long_run_before(bits, end) || holds(bits, pos, x264_picture_syntax(p)) && end == pos
                + x264_picture_syntax(p).len()
        }),
{
    let (p, end) = picture_at(bits, pos)->Ok_0;
    lemma_ue_end(bits, pos);
    let p1 = ue_end(bits, pos);
    lemma_ue_end(bits, p1);
    let p2 = ue_end(bits, p1);
    lemma_ue_end(bits, p2);
    let p3 = ue_end(bits, p2);
    law_bit_stands_where_it_is_read(bits, p3);
    let p4 = p3 + 1;
    lemma_ue_end(bits, p4);
    let p5 = ue_end(bits, p4);
    lemma_ue_end(bits, p5);
    if !long_run_before(bits, end) {
        lemma_ue_stands(bits, pos, end);
        lemma_ue_stands(bits, p1, end);
        lemma_ue_stands(bits, p2, end);
        lemma_ue_stands(bits, p4, end);
        lemma_ue_stands(bits, p5, end);
        lemma_flag_of(p.gaps_in_frame_num_allowed);
        let c0 = ue_code(0);
        let c1 = ue_code(2);
        let c2 = ue_code(p.max_num_ref_frames as nat);
        let c3 = flag(p.gaps_in_frame_num_allowed);
        let c4 = ue_code(p.pic_width_in_mbs_minus1 as nat);
        let c5 = ue_code(p.pic_height_in_map_units_minus1 as nat);
        lemma_holds_join(bits, pos, c0, c1);
        lemma_holds_join(bits, pos, c0 + c1, c2);
        lemma_holds_join(bits, pos, c0 + c1 + c2, c3);
        lemma_holds_join(bits, pos, c0 + c1 + c2 + c3, c4);
        lemma_holds_join(bits, pos, c0 + c1 + c2 + c3 + c4, c5);
    }
}

proof fn lemma_crop_stands(bits: Seq<bool>, pos: int, present: bool)
    requires
        0 <= pos <= bits.len(),
        crop_at(bits, pos, present) is Ok,
    ensures
        ({
            let (crop, end) = crop_at(bits, pos, present)->Ok_0;
            &&& crop is Some <==> present
            &&& pos <= end <= bits.len()
            &&& long_run_before(bits, end) || holds(bits, pos, crop_code(crop)) && end == pos
                + crop_code(crop).len()
        }),
{
    let (crop, end) = crop_at(bits, pos, present)->Ok_0;
    if let Some(c) = crop {
        lemma_ue_end(bits, pos);
        let p1 = ue_end(bits, pos);
        lemma_ue_end(bits, p1);
        let p2 = ue_end(bits, p1);
        lemma_ue_end(bits, p2);
        let p3 = ue_end(bits, p2);
        lemma_ue_end(bits, p3);
        if !long_run_before(bits, end) {
            lemma_ue_stands(bits, pos, end);
            lemma_ue_stands(bits, p1, end);
            lemma_ue_stands(bits, p2, end);
            lemma_ue_stands(bits, p3, end);
            let c0 = ue_code(c.left as nat);
            let c1 = ue_code(c.right as nat);
            let c2 = ue_code(c.top as nat);
            let c3 = ue_code(c.bottom as nat);
            lemma_holds_join(bits, pos, c0, c1);
            lemma_holds_join(bits, pos, c0 + c1, c2);
            lemma_holds_join(bits, pos, c0 + c1 + c2, c3);
        }
    } else {
        assert(bits.subrange(pos, pos) =~= Seq::<bool>::empty());
    }
}

#[verifier::rlimit(40)]
proof fn lemma_framing_stands(bits: Seq<bool>, pos: int)
    requires
        0 <= pos,
        framing_at(bits, pos) is Ok,
    ensures
        ({
            let (f, end) = framing_at(bits, pos)->Ok_0;
            &&& framing_valid(f)
            &&& pos <= end <= bits.len()
            &&& long_run_before(bits, end) || holds(bits, pos, framing_code(f)) && end == pos
                + framing_code(f).len()
        }),
{
    let (f, end) = framing_at(bits, pos)->Ok_0;
    law_bit_stands_where_it_is_read(bits, pos);
    let p1 = pos + 1;
    lemma_optional_stands(bits, p1, f.frame_mbs_only == 0);
    let p2 = optional_bit(bits, p1, f.frame_mbs_only == 0)->Ok_0.1;
    law_bit_stands_where_it_is_read(bits, p2);
    law_bit_stands_where_it_is_read(bits, p2 + 1);
    lemma_crop_stands(bits, p2 + 2, f.frame_cropping != 0);
    let p3 = crop_at(bits, p2 + 2, f.frame_cropping != 0)->Ok_0.1;
    law_bit_stands_where_it_is_read(bits, p3);
    if !long_run_before(bits, end) {
        if long_run_before(bits, p3) {
            lemma_run_before_more(bits, p3, end);
        }
        lemma_flag_of(f.frame_mbs_only);
        lemma_flag_of(f.direct_8x8_inference);
        lemma_flag_of(f.frame_cropping);
        let c0 = flag(f.frame_mbs_only);
        let c1 = optional_flag(f.mb_adaptive_frame_field);
        let c2 = flag(f.direct_8x8_inference);
        let c3 = flag(f.frame_cropping);
        let c4 = crop_code(f.crop);
        let c5 = seq![true];
        lemma_holds_join(bits, pos, c0, c1);
        lemma_holds_join(bits, pos, c0 + c1, c2);
        lemma_holds_join(bits, pos, c0 + c1 + c2, c3);
        lemma_holds_join(bits, pos, c0 + c1 + c2 + c3, c4);
        lemma_holds_join(bits, pos, c0 + c1 + c2 + c3 + c4, c5);
    }
}

proof fn lemma_sps_stands(bits: Seq<bool>)
    requires
        sps_at(bits) is Ok,
    ensures
        ({
            let f = sps_at(bits)->Ok_0;
            &&& x264_sps_legal(f)
            &&& long_run_before(bits, bits.len() as int) || holds(bits, 0, x264_sps_syntax(f))
        }),
{
    let f = sps_at(bits)->Ok_0;
    lemma_format_stands(bits);
    let p1 = format_at(bits, 0)->Ok_0.1;
    lemma_picture_stands(bits, p1);
    let p2 = picture_at(bits, p1)->Ok_0.1;
    lemma_framing_stands(bits, p2);
    let p3 = framing_at(bits, p2)->Ok_0.1;
    lemma_sps_joined(bits, f, p1, p2, p3);
}

proof fn lemma_sps_joined(bits: Seq<bool>, f: SpsFields, p1: int, p2: int, p3: int)
    requires
        x264_sps_legal(f),
        0 <= p1 <= p2 <= p3 <= bits.len(),
        long_run_before(bits, p1) || holds(bits, 0, format_code(f.format)) && p1 == format_code(
            f.format,
        ).len(),
        long_run_before(bits, p2) || holds(bits, p1, x264_picture_syntax(f.picture)) && p2 == p1
            + x264_picture_syntax(f.picture).len(),
        long_run_before(bits, p3) || holds(bits, p2, framing_code(f.framing)),
    ensures
        long_run_before(bits, bits.len() as int) || holds(bits, 0, x264_sps_syntax(f)),
{
    let n = bits.len() as int;
    if long_run_before(bits, p1) {
        lemma_run_before_more(bits, p1, n);
    } else if long_run_before(bits, p2) {
        lemma_run_before_more(bits, p2, n);
    } else if long_run_before(bits, p3) {
        lemma_run_before_more(bits, p3, n);
    } else {
        let c0 = format_code(f.format);
        let c1 = x264_picture_syntax(f.picture);
        let c2 = framing_code(f.framing);
        lemma_holds_join(bits, 0, c0, c1);
        lemma_holds_join(bits, 0, c0 + c1, c2);
        lemma_x264_sps_parts(f);
    }
}

/// A parameter set is rewritten only if x264 can have written it: it has a start code, the header byte
/// of a parameter set, and a payload that starts with one in the syntax of x264. Left out are payloads
/// in which 64 zero bits stand in a row.
pub proof fn law_only_sps_of_x264_is_rewritten(nal: Seq<u8>)
    requires
        sps_rewritten(nal) is Ok,
    ensures
        ({
            let n = start_code_len(nal)->Ok_0;
            let bits = bits_of(unescaped(nal.skip(n + 1), 0));
            &&& is_start_code(nal.take(n))
            &&& n < nal.len()
            &&& nal[n] % 32 == 7
            &&& long_run_before(bits, bits.len() as int) || exists|f: SpsFields|
                x264_sps_legal(f) && #[trigger] holds(bits, 0, x264_sps_syntax(f))
        }),
{
    let n = start_code_len(nal)->Ok_0;
    lemma_start_code_found(nal);
    lemma_header_byte(nal[n]);
    lemma_sps_stands(bits_of(unescaped(nal.skip(n + 1), 0)));
}

/// A start code is found whatever comes behind it, and nothing else is one.
pub proof fn law_start_code_is_found(nal: Seq<u8>, start: Seq<u8>, rest: Seq<u8>)
    ensures
        is_start_code(start) ==> start_code_len(start + rest) == Ok::<int, H264FrameBufferError>(
            start.len() as int,
        ),
        (forall|n: int| 0 <= n <= nal.len() ==> !is_start_code(#[trigger] nal.take(n))) ==> {
            let error = H264FrameBufferError::X264BitstreamRewrite("missing Annex-B start code");
            &&& start_code_len(nal) == Err::<int, H264FrameBufferError>(error)
            &&& sps_rewritten(nal) == Err::<Seq<u8>, H264FrameBufferError>(error)
            &&& idr_rewritten(nal) == Err::<Seq<u8>, H264FrameBufferError>(error)
        },
{
    if is_start_code(start) {
        lemma_start_code_in_front(start, rest);
    }
    if forall|n: int| 0 <= n <= nal.len() ==> !is_start_code(#[trigger] nal.take(n)) {
        lemma_no_start_code(nal);
    }
}

proof fn lemma_start_code_in_front(start: Seq<u8>, rest: Seq<u8>)
    requires
        is_start_code(start),
    ensures
        start_code_len(start + rest) == Ok::<int, H264FrameBufferError>(start.len() as int),
{
    let whole = start + rest;
    assert(whole.take(start.len() as int) =~= start);
    if start.len() == 3 {
        assert(whole.len() >= 4 ==> whole.take(4)[2] == 1);
        assert(seq![0u8, 0, 0, 1][2] == 0);
    }
}

proof fn lemma_no_start_code(nal: Seq<u8>)
    requires
        forall|n: int| 0 <= n <= nal.len() ==> !is_start_code(#[trigger] nal.take(n)),
    ensures
        start_code_len(nal) == Err::<int, H264FrameBufferError>(
            H264FrameBufferError::X264BitstreamRewrite("missing Annex-B start code"),
        ),
{
    if nal.len() >= 3 {
        assert(!is_start_code(nal.take(3)));
    }
    if nal.len() >= 4 {
        assert(!is_start_code(nal.take(4)));
    }
}

/// A NAL unit that ends with its start code, or whose header byte says that it is something else, is
/// not rewritten.
pub proof fn law_other_units_are_refused(start: Seq<u8>, header: u8, body: Seq<u8>)
    requires
        is_start_code(start),
    ensures
        sps_rewritten(start) == Err::<Seq<u8>, H264FrameBufferError>(
            H264FrameBufferError::X264BitstreamRewrite("missing SPS NAL header"),
        ),
        idr_rewritten(start) == Err::<Seq<u8>, H264FrameBufferError>(
            H264FrameBufferError::X264BitstreamRewrite("missing IDR NAL header"),
        ),
        header % 32 != 7 ==> sps_rewritten(start + seq![header] + body) == Err::<
            Seq<u8>,
            H264FrameBufferError,
        >(H264FrameBufferError::X264BitstreamRewrite("expected SPS NAL")),
        header % 32 != 5 || header / 32 == 0 ==> idr_rewritten(start + seq![header] + body) == Err::<
            Seq<u8>,
            H264FrameBufferError,
        >(H264FrameBufferError::X264BitstreamRewrite("expected reference IDR NAL")),
{
    lemma_header_byte(header);
    lemma_nal_parts(start, header, body);
    lemma_start_code_in_front(start, Seq::empty());
    assert(start + Seq::<u8>::empty() =~= start);
}

/// Nothing can be read behind the end, nor a number that the end cuts off.
pub proof fn law_truncated_reads_are_refused(bits: Seq<bool>, pos: int, count: int, zeros: int)
    requires
        0 <= pos,
    ensures
        pos >= bits.len() ==> {
            &&& bit_at(bits, pos) == Err::<u8, H264FrameBufferError>(
                H264FrameBufferError::X264BitstreamRewrite("truncated RBSP"),
            )
            &&& ue_at(bits, pos) == Err::<u32, H264FrameBufferError>(
                H264FrameBufferError::X264BitstreamRewrite("truncated Exp-Golomb value"),
            )
            &&& se_at(bits, pos) == Err::<i32, H264FrameBufferError>(
                H264FrameBufferError::X264BitstreamRewrite("truncated signed Exp-Golomb value"),
            )
        },
        0 <= count <= 32 && pos + count > bits.len() ==> u_at(bits, pos, count) == Err::<
            u32,
            H264FrameBufferError,
        >(H264FrameBufferError::X264BitstreamRewrite("truncated RBSP")),
        count > 32 ==> u_at(bits, pos, count) == Err::<u32, H264FrameBufferError>(
            H264FrameBufferError::X264BitstreamRewrite("bit field is too wide"),
        ),
        pos < bits.len() && 0 <= zeros && pos + zeros <= bits.len() && (forall|i: int|
            pos <= i < pos + zeros ==> !bits[i]) && (zeros > 64 || pos + 2 * zeros + 1 > bits.len())
            ==> {
            &&& ue_at(bits, pos) == Err::<u32, H264FrameBufferError>(
                H264FrameBufferError::X264BitstreamRewrite("invalid Exp-Golomb value"),
            )
            &&& se_at(bits, pos) == Err::<i32, H264FrameBufferError>(
                H264FrameBufferError::X264BitstreamRewrite("invalid signed Exp-Golomb value"),
            )
        },
{
    if pos < bits.len() {
        lemma_zeros_run(bits, pos);
        let z = zeros_at(bits, pos);
        if 0 <= zeros && pos + zeros <= bits.len() && (forall|i: int|
            pos <= i < pos + zeros ==> !bits[i]) {
            assert(z >= zeros);
        }
    }
}

/// Numbers beyond 32 bits are refused.
pub proof fn law_large_numbers_are_refused(bits: Seq<bool>, pos: int, value: nat, signed: int)
    ensures
        holds(bits, pos, ue_code(value)) && u32::MAX < value < u64::MAX ==> ue_at(bits, pos) == Err::<
            u32,
            H264FrameBufferError,
        >(H264FrameBufferError::X264BitstreamRewrite("Exp-Golomb value exceeds u32")),
        holds(bits, pos, se_code(signed)) && (i64::MIN < signed < i32::MIN || i32::MAX < signed
            <= i64::MAX) ==> se_at(bits, pos) == Err::<i32, H264FrameBufferError>(
            H264FrameBufferError::X264BitstreamRewrite("signed Exp-Golomb value exceeds i32"),
        ),
{
    if holds(bits, pos, ue_code(value)) && u32::MAX < value < u64::MAX {
        lemma_golomb_held(bits, pos, value);
    }
    if holds(bits, pos, se_code(signed)) && (i64::MIN < signed < i32::MIN || i32::MAX < signed
        <= i64::MAX) {
        lemma_golomb_held(bits, pos, se_code_num(signed));
    }
}

proof fn lemma_golomb_held(bits: Seq<bool>, pos: int, value: nat)
    requires
        holds(bits, pos, ue_code(value)),
        value < u64::MAX,
    ensures
        golomb_at(bits, pos) == Some(value),
        pos < bits.len(),
{
    let code = ue_code(value);
    lemma_ue_code_len(value);
    let before = bits.take(pos);
    let after = bits.skip(pos + code.len());
    assert(bits =~= before + bits.subrange(pos, pos + code.len()) + after);
    crate::golomb::law_unsigned_code_reads_back(before, value, after);
}

/// Whether a rewrite of `nal` is refused for this reason.
pub open spec fn refused(rewritten: Result<Seq<u8>, H264FrameBufferError>, why: &'static str) -> bool {
    rewritten == Err::<Seq<u8>, H264FrameBufferError>(
        H264FrameBufferError::X264BitstreamRewrite(why),
    )
}

/// A slice of another type, or of another picture parameter set, is refused, whatever follows.
pub proof fn law_other_slices_are_refused(
    start: Seq<u8>,
    header: u8,
    body: Seq<u8>,
    first_mb: u32,
    slice_type: u32,
    pps_id: u32,
)
    requires
        is_start_code(start),
        header % 32 == 5,
        header / 32 != 0,
        slice_type % 5 != 2 || pps_id != 0,
        holds(
            bits_of(unescaped(body, 0)),
            0,
            ue_code(first_mb as nat) + ue_code(slice_type as nat) + ue_code(pps_id as nat),
        ),
    ensures
        refused(idr_rewritten(start + seq![header] + body), "expected I slice using PPS 0"),
{
    lemma_header_byte(header);
    lemma_nal_parts(start, header, body);
    let bits = bits_of(unescaped(body, 0));
    let c0 = ue_code(first_mb as nat);
    let c1 = ue_code(slice_type as nat);
    let c2 = ue_code(pps_id as nat);
    lemma_holds_split(bits, 0, c0 + c1, c2);
    lemma_holds_split(bits, 0, c0, c1);
    law_ue_reads_back(bits, 0, first_mb);
    law_ue_reads_back(bits, c0.len() as int, slice_type);
    law_ue_reads_back(bits, (c0.len() + c1.len()) as int, pps_id);
}

/// A slice header that is not filled up with one bits is refused.
pub proof fn law_unaligned_slices_are_refused(
    start: Seq<u8>,
    header: u8,
    body: Seq<u8>,
    s: IdrSlice,
    at: int,
)
    requires
        is_start_code(start),
        header % 32 == 5,
        header / 32 != 0,
        x264_idr_legal(s),
        s.tuning.slice_qp_delta > i32::MIN,
        s.tuning.deblock_offsets matches Some(o) ==> o.alpha_c0_div2 > i32::MIN && o.beta_div2
            > i32::MIN,
        holds(bits_of(unescaped(body, 0)), 0, x264_idr_syntax(s)),
        x264_idr_syntax(s).len() <= at < bits_of(unescaped(body, 0)).len(),
        at / 8 == (x264_idr_syntax(s).len() - 1) / 8,
        !bits_of(unescaped(body, 0))[at],
    ensures
        refused(idr_rewritten(start + seq![header] + body), "invalid CABAC alignment"),
{
    lemma_header_byte(header);
    lemma_nal_parts(start, header, body);
    let bits = bits_of(unescaped(body, 0));
    lemma_x264_idr_parts(s);
    lemma_x264_header_read(bits, s);
    lemma_not_aligned(bits, x264_idr_syntax(s).len() as int, at);
}

proof fn lemma_not_aligned(bits: Seq<bool>, pos: int, at: int)
    requires
        0 < pos <= at < bits.len(),
        at / 8 == (pos - 1) / 8,
        !bits[at],
    ensures
        cabac_start_at(bits, pos) == Err::<int, H264FrameBufferError>(
            H264FrameBufferError::X264BitstreamRewrite("invalid CABAC alignment"),
        ),
{
    assert(pos <= at < pos + padding(pos));
}

/// A parameter set of another profile is refused, whatever follows.
pub proof fn law_other_profiles_are_refused(
    start: Seq<u8>,
    header: u8,
    body: Seq<u8>,
    f: SpsFormat,
)
    requires
        is_start_code(start),
        header % 32 == 7,
        f.profile_idc <= 255,
        f.profile_idc != 100,
        f.constraint_flags <= 255,
        f.level_idc <= 255,
        holds(
            bits_of(unescaped(body, 0)),
            0,
            binary(f.profile_idc as nat, 8) + binary(f.constraint_flags as nat, 8) + binary(
                f.level_idc as nat,
                8,
            ) + ue_code(f.seq_parameter_set_id as nat),
        ),
    ensures
        refused(sps_rewritten(start + seq![header] + body), "expected High Profile SPS"),
{
    lemma_header_byte(header);
    lemma_nal_parts(start, header, body);
    let bits = bits_of(unescaped(body, 0));
    let c0 = binary(f.profile_idc as nat, 8);
    let c1 = binary(f.constraint_flags as nat, 8);
    let c2 = binary(f.level_idc as nat, 8);
    let c3 = ue_code(f.seq_parameter_set_id as nat);
    lemma_holds_split(bits, 0, c0 + c1 + c2, c3);
    lemma_holds_split(bits, 0, c0 + c1, c2);
    lemma_holds_split(bits, 0, c0, c1);
    lemma2_to64();
    lemma_binary_len(f.profile_idc as nat, 8);
    lemma_binary_len(f.constraint_flags as nat, 8);
    lemma_binary_len(f.level_idc as nat, 8);
    law_u_reads_back(bits, 0, f.profile_idc, 8);
    law_u_reads_back(bits, 8, f.constraint_flags, 8);
    law_u_reads_back(bits, 16, f.level_idc, 8);
    law_ue_reads_back(bits, 24, f.seq_parameter_set_id);
}

/// The fields of a parameter set up to the flag for scaling matrices.
pub open spec fn sps_format_syntax(f: SpsFormat, scaling: bool) -> Seq<bool> {
    binary(f.profile_idc as nat, 8) + binary(f.constraint_flags as nat, 8) + binary(
        f.level_idc as nat,
        8,
    ) + ue_code(f.seq_parameter_set_id as nat) + ue_code(f.chroma_format_idc as nat) + maybe_flag(
        f.separate_colour_plane,
    ) + ue_code(f.bit_depth_luma_minus8 as nat) + ue_code(f.bit_depth_chroma_minus8 as nat) + seq![
        f.qpprime_y_zero_transform_bypass == 1,
        scaling,
    ]
}

/// Whether the first fields of a parameter set are as x264 can write them.
pub open spec fn sps_format_legal(f: SpsFormat) -> bool {
    &&& f.profile_idc == 100
    &&& f.constraint_flags <= 255
    &&& f.level_idc <= 255
    &&& f.separate_colour_plane is Some <==> f.chroma_format_idc == 3
    &&& f.separate_colour_plane matches Some(b) ==> b <= 1
    &&& f.qpprime_y_zero_transform_bypass <= 1
}

/// A parameter set with scaling matrices, with another model of frame numbers and picture order, or
/// with other than four reference frames is refused, whatever follows.
pub proof fn law_other_models_are_refused(
    start: Seq<u8>,
    header: u8,
    body: Seq<u8>,
    f: SpsFormat,
    frame_num: u32,
    poc_type: u32,
    references: u32,
)
    requires
        is_start_code(start),
        header % 32 == 7,
        sps_format_legal(f),
    ensures
        ({
            let bits = bits_of(unescaped(body, 0));
            let rewritten = sps_rewritten(start + seq![header] + body);
            let format = sps_format_syntax(f, false);
            let model = ue_code(frame_num as nat) + ue_code(poc_type as nat);
            &&& holds(bits, 0, sps_format_syntax(f, true)) ==> refused(
                rewritten,
                "custom SPS scaling matrices are unsupported",
            )
            &&& holds(bits, 0, format + model) && (frame_num != 0 || poc_type != 2) ==> refused(
                rewritten,
                "unexpected x264 frame_num/POC model",
            )
            &&& holds(bits, 0, format + model + ue_code(references as nat)) && frame_num == 0
                && poc_type == 2 && references != 4 ==> refused(
                rewritten,
                "expected four decoded reference frames",
            )
        }),
{
    lemma_header_byte(header);
    lemma_nal_parts(start, header, body);
    let bits = bits_of(unescaped(body, 0));
    let format = sps_format_syntax(f, false);
    let a = ue_code(frame_num as nat);
    let b = ue_code(poc_type as nat);
    let c = ue_code(references as nat);
    lemma_format_parts(f);
    let p = format.len() as int;
    if holds(bits, 0, sps_format_syntax(f, true)) {
        lemma_scaling_read(bits, f);
    }
    if holds(bits, 0, format + (a + b)) {
        lemma_holds_split(bits, 0, format, a + b);
        lemma_holds_split(bits, p, a, b);
        lemma_format_reads_back(bits, f);
        law_ue_reads_back(bits, p, frame_num);
        law_ue_reads_back(bits, p + a.len(), poc_type);
    }
    if holds(bits, 0, format + (a + b) + c) {
        lemma_holds_split(bits, 0, format + (a + b), c);
        lemma_holds_split(bits, 0, format, a + b);
        lemma_holds_split(bits, p, a, b);
        lemma_format_reads_back(bits, f);
        law_ue_reads_back(bits, p, frame_num);
        law_ue_reads_back(bits, p + a.len(), poc_type);
        law_ue_reads_back(bits, p + a.len() + b.len(), references);
    }
}

proof fn lemma_scaling_read(bits: Seq<bool>, f: SpsFormat)
    requires
        sps_format_legal(f),
        holds(bits, 0, sps_format_syntax(f, true)),
    ensures
        format_at(bits, 0) == Err::<(SpsFormat, int), H264FrameBufferError>(
            H264FrameBufferError::X264BitstreamRewrite("custom SPS scaling matrices are unsupported"),
        ),
{
    let c0 = binary(f.profile_idc as nat, 8);
    let c1 = binary(f.constraint_flags as nat, 8);
    let c2 = binary(f.level_idc as nat, 8);
    let c3 = ue_code(f.seq_parameter_set_id as nat);
    let c4 = ue_code(f.chroma_format_idc as nat);
    let c5 = maybe_flag(f.separate_colour_plane);
    let c6 = ue_code(f.bit_depth_luma_minus8 as nat);
    let c7 = ue_code(f.bit_depth_chroma_minus8 as nat);
    let c8 = seq![f.qpprime_y_zero_transform_bypass == 1, true];
    lemma_holds_split(bits, 0, c0 + c1 + c2 + c3 + c4 + c5 + c6 + c7, c8);
    lemma_holds_split(bits, 0, c0 + c1 + c2 + c3 + c4 + c5 + c6, c7);
    lemma_holds_split(bits, 0, c0 + c1 + c2 + c3 + c4 + c5, c6);
    lemma_holds_split(bits, 0, c0 + c1 + c2 + c3 + c4, c5);
    lemma_holds_split(bits, 0, c0 + c1 + c2 + c3, c4);
    lemma_holds_split(bits, 0, c0 + c1 + c2, c3);
    lemma_holds_split(bits, 0, c0 + c1, c2);
    lemma_holds_split(bits, 0, c0, c1);
    lemma2_to64();
    lemma_binary_len(f.profile_idc as nat, 8);
    lemma_binary_len(f.constraint_flags as nat, 8);
    lemma_binary_len(f.level_idc as nat, 8);
    law_u_reads_back(bits, 0, f.profile_idc, 8);
    law_u_reads_back(bits, 8, f.constraint_flags, 8);
    law_u_reads_back(bits, 16, f.level_idc, 8);
    let p3 = 24;
    law_ue_reads_back(bits, p3, f.seq_parameter_set_id);
    let p4 = p3 + c3.len();
    law_ue_reads_back(bits, p4, f.chroma_format_idc);
    let p5 = p4 + c4.len();
    assert(c5 == optional_flag(f.separate_colour_plane));
    lemma_optional_reads_back(bits, p5, f.separate_colour_plane);
    let p6 = p5 + c5.len();
    law_ue_reads_back(bits, p6, f.bit_depth_luma_minus8);
    let p7 = p6 + c6.len();
    law_ue_reads_back(bits, p7, f.bit_depth_chroma_minus8);
    let p8 = p7 + c7.len();
    assert(bits.subrange(p8, p8 + 2)[0] == bits[p8]);
    assert(bits.subrange(p8, p8 + 2)[1] == bits[p8 + 1]);
}

proof fn lemma_framing_without_vui(bits: Seq<bool>, pos: int, f: SpsFraming)
    requires
        framing_valid(f),
        holds(
            bits,
            pos,
            flag(f.frame_mbs_only) + optional_flag(f.mb_adaptive_frame_field) + flag(
                f.direct_8x8_inference,
            ) + flag(f.frame_cropping) + crop_code(f.crop) + seq![false],
        ),
    ensures
        framing_at(bits, pos) == Err::<(SpsFraming, int), H264FrameBufferError>(
            H264FrameBufferError::X264BitstreamRewrite("expected VUI parameters"),
        ),
{
    let c0 = flag(f.frame_mbs_only);
    let c1 = optional_flag(f.mb_adaptive_frame_field);
    let c2 = flag(f.direct_8x8_inference);
    let c3 = flag(f.frame_cropping);
    let c4 = crop_code(f.crop);
    let c5 = seq![false];
    lemma_holds_split(bits, pos, c0 + c1 + c2 + c3 + c4, c5);
    lemma_holds_split(bits, pos, c0 + c1 + c2 + c3, c4);
    lemma_holds_split(bits, pos, c0 + c1 + c2, c3);
    lemma_holds_split(bits, pos, c0 + c1, c2);
    lemma_holds_split(bits, pos, c0, c1);
    law_bit_reads_back(bits, pos, f.frame_mbs_only);
    let p1 = pos + 1;
    lemma_optional_reads_back(bits, p1, f.mb_adaptive_frame_field);
    let p2 = p1 + c1.len();
    law_bit_reads_back(bits, p2, f.direct_8x8_inference);
    law_bit_reads_back(bits, p2 + 1, f.frame_cropping);
    lemma_crop_reads_back(bits, p2 + 2, f);
    let p5 = p2 + 2 + c4.len();
    assert(c5 =~= flag(0));
    law_bit_reads_back(bits, p5, 0);
}

proof fn lemma_sps_without_vui(bits: Seq<bool>, f: SpsFields)
    requires
        x264_sps_legal(f),
        holds(bits, 0, x264_sps_syntax(f).drop_last().push(false)),
    ensures
        sps_at(bits) == Err::<SpsFields, H264FrameBufferError>(
            H264FrameBufferError::X264BitstreamRewrite("expected VUI parameters"),
        ),
{
    let SpsFields { format, picture, framing } = f;
    let c0 = format_code(format);
    let c1 = x264_picture_syntax(picture);
    let kept = flag(framing.frame_mbs_only) + optional_flag(framing.mb_adaptive_frame_field) + flag(
        framing.direct_8x8_inference,
    ) + flag(framing.frame_cropping) + crop_code(framing.crop);
    lemma_x264_sps_parts(f);
    lemma_last_flag(c0 + c1, kept);
    lemma_holds_split(bits, 0, c0 + c1, kept + seq![false]);
    lemma_holds_split(bits, 0, c0, c1);
    lemma_format_reads_back(bits, format);
    lemma_x264_picture_read(bits, c0.len() as int, picture);
    lemma_framing_without_vui(bits, (c0.len() + c1.len()) as int, framing);
}

/// A parameter set without VUI parameters is refused.
pub proof fn law_missing_vui_is_refused(start: Seq<u8>, header: u8, body: Seq<u8>, f: SpsFields)
    requires
        is_start_code(start),
        header % 32 == 7,
        x264_sps_legal(f),
        holds(bits_of(unescaped(body, 0)), 0, x264_sps_syntax(f).drop_last().push(false)),
    ensures
        refused(sps_rewritten(start + seq![header] + body), "expected VUI parameters"),
{
    lemma_header_byte(header);
    lemma_nal_parts(start, header, body);
    lemma_sps_without_vui(bits_of(unescaped(body, 0)), f);
}

proof fn lemma_last_flag(a: Seq<bool>, b: Seq<bool>)
    ensures
        (a + (b + seq![true])).drop_last().push(false) == a + (b + seq![false]),
{
    assert((a + (b + seq![true])).drop_last().push(false) =~= a + (b + seq![false]));
}

}
