//! IDR slices: the header that x264 writes, and what CarPlay expects of it.

use crate::bit_reader::{
    bit_at, bit_end, se_at, se_end, u_at, u_end, ue_at, ue_end, BitReader,
};
use crate::bit_writer::{padding, BitWriter};
use crate::bits::{binary, bits_of, pack, run};
use crate::error::{rewrite_error, H264FrameBufferError, RewriteResult};
use crate::golomb::{se_code, ue_code};
use crate::sps::{appends, flag, follows, Parsed};
use vstd::prelude::*;

verus! {

/// Deblocking filter offsets.
#[derive(Debug, Clone, Copy, PartialEq, Eq)]
pub struct DeblockOffsets {
    pub alpha_c0_div2: i32,
    pub beta_div2: i32,
}

/// The first part of a slice header.
#[derive(Debug, Clone, Copy, PartialEq, Eq)]
pub struct SliceId {
    pub first_mb: u32,
    pub slice_type: u32,
    pub pps_id: u32,
    pub frame_num: u32,
    pub idr_pic_id: u32,
}

/// The second part of a slice header.
#[derive(Debug, Clone, Copy, PartialEq, Eq)]
pub struct SliceTuning {
    pub no_output_of_prior_pics: u8,
    pub long_term_reference: u8,
    pub slice_qp_delta: i32,
    pub disable_deblocking_filter_idc: u32,
    pub deblock_offsets: Option<DeblockOffsets>,
}

/// The header of an IDR slice.
#[derive(Debug, Clone, Copy, PartialEq, Eq)]
pub struct IdrSlice {
    pub id: SliceId,
    pub tuning: SliceTuning,
}

/// The fields up to the IDR picture number. The slice has to be an I slice that uses picture
/// parameter set 0, and the frame number has four bits.
pub open spec fn slice_id_at(bits: Seq<bool>, p0: int) -> Parsed<SliceId> {
    match ue_at(bits, p0) {
        Err(e) => Err(e),
        Ok(first_mb) => {
            let p1 = ue_end(bits, p0);
            match ue_at(bits, p1) {
                Err(e) => Err(e),
                Ok(slice_type) => {
                    let p2 = ue_end(bits, p1);
                    match ue_at(bits, p2) {
                        Err(e) => Err(e),
                        Ok(pps_id) => if slice_type % 5 != 2 || pps_id != 0 {
                            Err(rewrite_error("expected I slice using PPS 0"))
                        } else {
                            numbered_slice_at(bits, ue_end(bits, p2), first_mb, slice_type, pps_id)
                        },
                    }
                },
            }
        },
    }
}

/// The frame number and the IDR picture number, after the given fields.
pub open spec fn numbered_slice_at(
    bits: Seq<bool>,
    p0: int,
    first_mb: u32,
    slice_type: u32,
    pps_id: u32,
) -> Parsed<SliceId> {
    match u_at(bits, p0, 4) {
        Err(e) => Err(e),
        Ok(frame_num) => {
            let p1 = u_end(bits, p0, 4);
            match ue_at(bits, p1) {
                Err(e) => Err(e),
                Ok(idr_pic_id) => Ok(
                    (
                        SliceId { first_mb, slice_type, pps_id, frame_num, idr_pic_id },
                        ue_end(bits, p1),
                    ),
                ),
            }
        },
    }
}

/// The deblocking offsets if `present`, else nothing.
pub open spec fn offsets_at(bits: Seq<bool>, p0: int, present: bool) -> Parsed<Option<DeblockOffsets>> {
    if !present {
        Ok((None, p0))
    } else {
        match se_at(bits, p0) {
            Err(e) => Err(e),
            Ok(alpha_c0_div2) => {
                let p1 = se_end(bits, p0);
                match se_at(bits, p1) {
                    Err(e) => Err(e),
                    Ok(beta_div2) => Ok(
                        (Some(DeblockOffsets { alpha_c0_div2, beta_div2 }), se_end(bits, p1)),
                    ),
                }
            },
        }
    }
}

/// The fields after the IDR picture number.
pub open spec fn tuning_at(bits: Seq<bool>, p0: int) -> Parsed<SliceTuning> {
    match bit_at(bits, p0) {
        Err(e) => Err(e),
        Ok(no_output_of_prior_pics) => {
            let p1 = bit_end(bits, p0);
            match bit_at(bits, p1) {
                Err(e) => Err(e),
                Ok(long_term_reference) => {
                    let p2 = bit_end(bits, p1);
                    match se_at(bits, p2) {
                        Err(e) => Err(e),
                        Ok(slice_qp_delta) => {
                            let p3 = se_end(bits, p2);
                            match ue_at(bits, p3) {
                                Err(e) => Err(e),
                                Ok(disable_deblocking_filter_idc) => match offsets_at(
                                    bits,
                                    ue_end(bits, p3),
                                    disable_deblocking_filter_idc != 1,
                                ) {
                                    Err(e) => Err(e),
                                    Ok((deblock_offsets, p4)) => Ok(
                                        (
                                            SliceTuning {
                                                no_output_of_prior_pics,
                                                long_term_reference,
                                                slice_qp_delta,
                                                disable_deblocking_filter_idc,
                                                deblock_offsets,
                                            },
                                            p4,
                                        ),
                                    ),
                                },
                            }
                        },
                    }
                },
            }
        },
    }
}

/// The byte at which the CABAC payload starts after a header that ends at `pos`: one bits fill up
/// the byte.
pub open spec fn cabac_start_at(bits: Seq<bool>, pos: int) -> RewriteResult<int> {
    let end = pos + padding(pos);
    if forall|i: int| pos <= i < end ==> bits[i] {
        Ok(end / 8)
    } else {
        Err(rewrite_error("invalid CABAC alignment"))
    }
}

/// The header of an IDR slice as x264 writes it for CarPlay, and the byte at which its CABAC
/// payload starts.
pub open spec fn idr_at(bits: Seq<bool>) -> Parsed<IdrSlice> {
    match slice_id_at(bits, 0) {
        Err(e) => Err(e),
        Ok((id, p1)) => match tuning_at(bits, p1) {
            Err(e) => Err(e),
            Ok((tuning, p2)) => match cabac_start_at(bits, p2) {
                Err(e) => Err(e),
                Ok(start) => Ok((IdrSlice { id, tuning }, start)),
            },
        },
    }
}

fn read_slice_id(reader: &mut BitReader) -> (id: RewriteResult<SliceId>)
    requires
        old(reader).wf(),
        old(reader).pos == 0,
    ensures
        follows(slice_id_at(old(reader).stream(), 0), id, *old(reader), *final(reader), 600),
{
    let first_mb = reader.ue()?;
    let slice_type = reader.ue()?;
    let pps_id = reader.ue()?;
    if slice_type % 5 != 2 || pps_id != 0 {
        return Err(H264FrameBufferError::X264BitstreamRewrite("expected I slice using PPS 0"));
    }
    let frame_num = reader.bits(4)?;
    let idr_pic_id = reader.ue()?;
    Ok(SliceId { first_mb, slice_type, pps_id, frame_num, idr_pic_id })
}

fn read_offsets(reader: &mut BitReader, present: bool) -> (offsets: RewriteResult<
    Option<DeblockOffsets>,
>)
    requires
        old(reader).wf(),
        old(reader).pos <= 1000,
    ensures
        follows(
            offsets_at(old(reader).stream(), old(reader).pos as int, present),
            offsets,
            *old(reader),
            *final(reader),
            254,
        ),
{
    if !present {
        return Ok(None);
    }
    let alpha_c0_div2 = reader.se()?;
    let beta_div2 = reader.se()?;
    Ok(Some(DeblockOffsets { alpha_c0_div2, beta_div2 }))
}

fn read_tuning(reader: &mut BitReader) -> (tuning: RewriteResult<SliceTuning>)
    requires
        old(reader).wf(),
        old(reader).pos <= 600,
    ensures
        follows(
            tuning_at(old(reader).stream(), old(reader).pos as int),
            tuning,
            *old(reader),
            *final(reader),
            600,
        ),
{
    let no_output_of_prior_pics = reader.bit()?;
    let long_term_reference = reader.bit()?;
    let slice_qp_delta = reader.se()?;
    let disable_deblocking_filter_idc = reader.ue()?;
    let deblock_offsets = read_offsets(reader, disable_deblocking_filter_idc != 1)?;
    Ok(
        SliceTuning {
            no_output_of_prior_pics,
            long_term_reference,
            slice_qp_delta,
            disable_deblocking_filter_idc,
            deblock_offsets,
        },
    )
}

fn read_alignment(reader: &mut BitReader) -> (start: RewriteResult<usize>)
    requires
        old(reader).wf(),
        old(reader).pos <= 1200,
    ensures
        match cabac_start_at(old(reader).stream(), old(reader).pos as int) {
            Err(e) => start == Err::<usize, H264FrameBufferError>(e),
            Ok(byte) => start is Ok && start->Ok_0 == byte && 8 * byte <= old(reader).stream().len(),
        },
{
    let ghost bits = reader.stream();
    let ghost pos = reader.pos as int;
    let ghost end = pos + padding(pos);
    while reader.pos % 8 != 0
        invariant
            bits == old(reader).stream(),
            bits.len() == 8 * reader.data@.len(),
            pos == old(reader).pos,
            end == pos + padding(pos),
            pos <= reader.pos <= end <= 1207,
            reader.wf(),
            reader.stream() == bits,
            forall|i: int| pos <= i < reader.pos ==> bits[i],
        decreases end - reader.pos,
    {
        let ghost at = reader.pos as int;
        if reader.bit()? != 1 {
            assert(!bits[at]);
            return Err(H264FrameBufferError::X264BitstreamRewrite("invalid CABAC alignment"));
        }
    }
    Ok(reader.pos / 8)
}

impl IdrSlice {
    /// Reads the header and finds where the CABAC payload starts.
    pub fn parse(rbsp: &[u8]) -> (slice: RewriteResult<(IdrSlice, usize)>)
        ensures
            match idr_at(bits_of(rbsp@)) {
                Err(e) => slice == Err::<(IdrSlice, usize), H264FrameBufferError>(e),
                Ok((header, start)) => slice is Ok && slice->Ok_0.0 == header && slice->Ok_0.1 == start
                    && start <= rbsp@.len(),
            },
    {
        let mut reader = BitReader::new(rbsp);
        let id = read_slice_id(&mut reader)?;
        let tuning = read_tuning(&mut reader)?;
        let start = read_alignment(&mut reader)?;
        Ok((IdrSlice { id, tuning }, start))
    }
}

/// The first part of a CarPlay slice header: a frame number of 12 bits and a picture order count of
/// 13 zero bits.
pub open spec fn slice_id_code(s: SliceId) -> Seq<bool> {
    ue_code(s.first_mb as nat) + ue_code(s.slice_type as nat) + ue_code(s.pps_id as nat) + binary(
        s.frame_num as nat,
        12,
    ) + ue_code(s.idr_pic_id as nat) + binary(0, 13)
}

pub open spec fn offsets_code(offsets: Option<DeblockOffsets>) -> Seq<bool> {
    match offsets {
        Some(o) => se_code(o.alpha_c0_div2 as int) + se_code(o.beta_div2 as int),
        None => Seq::empty(),
    }
}

/// The second part of a CarPlay slice header.
pub open spec fn tuning_code(t: SliceTuning) -> Seq<bool> {
    flag(t.no_output_of_prior_pics) + flag(t.long_term_reference) + se_code(t.slice_qp_delta as int)
        + ue_code(t.disable_deblocking_filter_idc as nat) + offsets_code(t.deblock_offsets)
}

/// The header in the syntax that CarPlay expects, up to the alignment.
pub open spec fn carplay_idr_code(s: IdrSlice) -> Seq<bool> {
    slice_id_code(s.id) + tuning_code(s.tuning)
}

/// The bits of the rewritten header, filled up with one bits.
pub open spec fn carplay_idr_bits(s: IdrSlice) -> Seq<bool> {
    let code = carplay_idr_code(s);
    code + run(true, padding(code.len() as int))
}

/// The signed fields have codes whose number fits in 32 bits: none of them is the least `i32`.
pub open spec fn deltas_encodable(s: IdrSlice) -> bool {
    &&& s.tuning.slice_qp_delta > i32::MIN
    &&& s.tuning.deblock_offsets matches Some(o) ==> o.alpha_c0_div2 > i32::MIN && o.beta_div2
        > i32::MIN
}

fn write_slice_id(writer: &mut BitWriter, s: &SliceId)
    requires
        old(writer).wf(),
        old(writer)@.len() <= 100,
    ensures
        appends(*old(writer), *final(writer), slice_id_code(*s), 300),
{
    let ghost before = writer@;
    writer.ue(s.first_mb);
    writer.ue(s.slice_type);
    writer.ue(s.pps_id);
    writer.bits(s.frame_num, 12);
    writer.ue(s.idr_pic_id);
    writer.bits(0, 13);  // pic_order_cnt_lsb of an IDR picture.
    assert(writer@ =~= before + slice_id_code(*s));
}

fn write_tuning(writer: &mut BitWriter, t: &SliceTuning)
    requires
        old(writer).wf(),
        old(writer)@.len() <= 400,
        t.slice_qp_delta > i32::MIN,
        t.deblock_offsets matches Some(o) ==> o.alpha_c0_div2 > i32::MIN && o.beta_div2 > i32::MIN,
    ensures
        appends(*old(writer), *final(writer), tuning_code(*t), 300),
{
    let ghost before = writer@;
    writer.bit(t.no_output_of_prior_pics);
    writer.bit(t.long_term_reference);
    writer.se(t.slice_qp_delta);
    writer.ue(t.disable_deblocking_filter_idc);
    let ghost middle = writer@;
    if let Some(o) = &t.deblock_offsets {
        writer.se(o.alpha_c0_div2);
        writer.se(o.beta_div2);
    }
    assert(writer@ =~= middle + offsets_code(t.deblock_offsets));
    assert(writer@ =~= before + tuning_code(*t));
}

impl IdrSlice {
    /// The bytes of the header that CarPlay expects.
    pub fn to_carplay_header(&self) -> (header: Vec<u8>)
        requires
            deltas_encodable(*self),
        ensures
            header@ == pack(carplay_idr_bits(*self)),
    {
        let mut writer = BitWriter::default();
        write_slice_id(&mut writer, &self.id);
        write_tuning(&mut writer, &self.tuning);
        assert(writer@ =~= carplay_idr_code(*self));
        writer.align_one();
        writer.into_bytes()
    }
}

}
