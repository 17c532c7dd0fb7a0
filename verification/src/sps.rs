//! Sequence parameter sets: the fields of what x264 writes, and what CarPlay expects of them.

use crate::bit_reader::{bit_at, bit_end, u_at, u_end, ue_at, ue_end, BitReader};
use crate::bit_writer::{trailing_bits, BitWriter};
use crate::bits::binary;
use crate::error::{rewrite_error, H264FrameBufferError, RewriteResult};
use crate::golomb::ue_code;
use vstd::prelude::*;

verus! {

/// What a parser takes from a stream and where it stops, or why it cannot.
pub type Parsed<T> = Result<(T, int), H264FrameBufferError>;

/// Profile, level and sample format.
#[derive(Debug, Clone, Copy, PartialEq, Eq)]
pub struct SpsFormat {
    pub profile_idc: u32,
    pub constraint_flags: u32,
    pub level_idc: u32,
    pub seq_parameter_set_id: u32,
    pub chroma_format_idc: u32,
    pub separate_colour_plane: Option<u8>,
    pub bit_depth_luma_minus8: u32,
    pub bit_depth_chroma_minus8: u32,
    pub qpprime_y_zero_transform_bypass: u8,
}

/// Reference frames and picture size.
#[derive(Debug, Clone, Copy, PartialEq, Eq)]
pub struct SpsPicture {
    pub max_num_ref_frames: u32,
    pub gaps_in_frame_num_allowed: u8,
    pub pic_width_in_mbs_minus1: u32,
    pub pic_height_in_map_units_minus1: u32,
}

/// Cropping offsets.
#[derive(Debug, Clone, Copy, PartialEq, Eq)]
pub struct SpsCrop {
    pub left: u32,
    pub right: u32,
    pub top: u32,
    pub bottom: u32,
}

/// Interlacing and cropping.
#[derive(Debug, Clone, Copy, PartialEq, Eq)]
pub struct SpsFraming {
    pub frame_mbs_only: u8,
    pub mb_adaptive_frame_field: Option<u8>,
    pub direct_8x8_inference: u8,
    pub frame_cropping: u8,
    pub crop: Option<SpsCrop>,
}

/// The fields that a rewrite carries over.
#[derive(Debug, Clone, Copy, PartialEq, Eq)]
pub struct SpsFields {
    pub format: SpsFormat,
    pub picture: SpsPicture,
    pub framing: SpsFraming,
}

/// The flag at `pos` if `present`, else nothing.
pub open spec fn optional_bit(bits: Seq<bool>, pos: int, present: bool) -> Parsed<Option<u8>> {
    if present {
        match bit_at(bits, pos) {
            Err(e) => Err(e),
            Ok(flag) => Ok((Some(flag), bit_end(bits, pos))),
        }
    } else {
        Ok((None, pos))
    }
}

/// The fields up to the scaling matrix flag, which has to be zero.
pub open spec fn format_at(bits: Seq<bool>, p0: int) -> Parsed<SpsFormat> {
    match u_at(bits, p0, 8) {
        Err(e) => Err(e),
        Ok(profile_idc) => {
            let p1 = u_end(bits, p0, 8);
            match u_at(bits, p1, 8) {
                Err(e) => Err(e),
                Ok(constraint_flags) => {
                    let p2 = u_end(bits, p1, 8);
                    match u_at(bits, p2, 8) {
                        Err(e) => Err(e),
                        Ok(level_idc) => {
                            let p3 = u_end(bits, p2, 8);
                            match ue_at(bits, p3) {
                                Err(e) => Err(e),
                                Ok(seq_parameter_set_id) => if profile_idc != 100 {
                                    Err(rewrite_error("expected High Profile SPS"))
                                } else {
                                    sample_format_at(
                                        bits,
                                        ue_end(bits, p3),
                                        profile_idc,
                                        constraint_flags,
                                        level_idc,
                                        seq_parameter_set_id,
                                    )
                                },
                            }
                        },
                    }
                },
            }
        },
    }
}

/// The fields from the chroma format up to the scaling matrix flag, after the given ones.
pub open spec fn sample_format_at(
    bits: Seq<bool>,
    p0: int,
    profile_idc: u32,
    constraint_flags: u32,
    level_idc: u32,
    seq_parameter_set_id: u32,
) -> Parsed<SpsFormat> {
    match ue_at(bits, p0) {
        Err(e) => Err(e),
        Ok(chroma_format_idc) => match optional_bit(bits, ue_end(bits, p0), chroma_format_idc == 3) {
            Err(e) => Err(e),
            Ok((separate_colour_plane, p1)) => match ue_at(bits, p1) {
                Err(e) => Err(e),
                Ok(bit_depth_luma_minus8) => {
                    let p2 = ue_end(bits, p1);
                    match ue_at(bits, p2) {
                        Err(e) => Err(e),
                        Ok(bit_depth_chroma_minus8) => {
                            let p3 = ue_end(bits, p2);
                            match bit_at(bits, p3) {
                                Err(e) => Err(e),
                                Ok(qpprime_y_zero_transform_bypass) => {
                                    let p4 = bit_end(bits, p3);
                                    match bit_at(bits, p4) {
                                        Err(e) => Err(e),
                                        Ok(scaling_matrix_present) => if scaling_matrix_present != 0 {
                                            Err(
                                                rewrite_error(
                                                    "custom SPS scaling matrices are unsupported",
                                                ),
                                            )
                                        } else {
                                            Ok(
                                                (
                                                    SpsFormat {
                                                        profile_idc,
                                                        constraint_flags,
                                                        level_idc,
                                                        seq_parameter_set_id,
                                                        chroma_format_idc,
                                                        separate_colour_plane,
                                                        bit_depth_luma_minus8,
                                                        bit_depth_chroma_minus8,
                                                        qpprime_y_zero_transform_bypass,
                                                    },
                                                    bit_end(bits, p4),
                                                ),
                                            )
                                        },
                                    }
                                },
                            }
                        },
                    }
                },
            },
        },
    }
}

/// The picture order model, which has to be the one that x264 uses, and the picture size.
pub open spec fn picture_at(bits: Seq<bool>, p0: int) -> Parsed<SpsPicture> {
    match ue_at(bits, p0) {
        Err(e) => Err(e),
        Ok(frame_num_minus4) => {
            let p1 = ue_end(bits, p0);
            match ue_at(bits, p1) {
                Err(e) => Err(e),
                Ok(poc_type) => if frame_num_minus4 != 0 || poc_type != 2 {
                    Err(rewrite_error("unexpected x264 frame_num/POC model"))
                } else {
                    reference_at(bits, ue_end(bits, p1))
                },
            }
        },
    }
}

/// The number of reference frames, which has to be four, and the picture size.
pub open spec fn reference_at(bits: Seq<bool>, p0: int) -> Parsed<SpsPicture> {
    match ue_at(bits, p0) {
        Err(e) => Err(e),
        Ok(max_num_ref_frames) => if max_num_ref_frames != 4 {
            Err(rewrite_error("expected four decoded reference frames"))
        } else {
            let p1 = ue_end(bits, p0);
            match bit_at(bits, p1) {
                Err(e) => Err(e),
                Ok(gaps_in_frame_num_allowed) => {
                    let p2 = bit_end(bits, p1);
                    match ue_at(bits, p2) {
                        Err(e) => Err(e),
                        Ok(pic_width_in_mbs_minus1) => {
                            let p3 = ue_end(bits, p2);
                            match ue_at(bits, p3) {
                                Err(e) => Err(e),
                                Ok(pic_height_in_map_units_minus1) => Ok(
                                    (
                                        SpsPicture {
                                            max_num_ref_frames,
                                            gaps_in_frame_num_allowed,
                                            pic_width_in_mbs_minus1,
                                            pic_height_in_map_units_minus1,
                                        },
                                        ue_end(bits, p3),
                                    ),
                                ),
                            }
                        },
                    }
                },
            }
        },
    }
}

/// The cropping offsets if `present`, else nothing.
pub open spec fn crop_at(bits: Seq<bool>, p0: int, present: bool) -> Parsed<Option<SpsCrop>> {
    if !present {
        Ok((None, p0))
    } else {
        match ue_at(bits, p0) {
            Err(e) => Err(e),
            Ok(left) => {
                let p1 = ue_end(bits, p0);
                match ue_at(bits, p1) {
                    Err(e) => Err(e),
                    Ok(right) => {
                        let p2 = ue_end(bits, p1);
                        match ue_at(bits, p2) {
                            Err(e) => Err(e),
                            Ok(top) => {
                                let p3 = ue_end(bits, p2);
                                match ue_at(bits, p3) {
                                    Err(e) => Err(e),
                                    Ok(bottom) => Ok(
                                        (
                                            Some(SpsCrop { left, right, top, bottom }),
                                            ue_end(bits, p3),
                                        ),
                                    ),
                                }
                            },
                        }
                    },
                }
            },
        }
    }
}

/// The fields from interlacing up to the VUI flag, which has to be one.
pub open spec fn framing_at(bits: Seq<bool>, p0: int) -> Parsed<SpsFraming> {
    match bit_at(bits, p0) {
        Err(e) => Err(e),
        Ok(frame_mbs_only) => match optional_bit(bits, bit_end(bits, p0), frame_mbs_only == 0) {
            Err(e) => Err(e),
            Ok((mb_adaptive_frame_field, p1)) => match bit_at(bits, p1) {
                Err(e) => Err(e),
                Ok(direct_8x8_inference) => {
                    let p2 = bit_end(bits, p1);
                    match bit_at(bits, p2) {
                        Err(e) => Err(e),
                        Ok(frame_cropping) => match crop_at(
                            bits,
                            bit_end(bits, p2),
                            frame_cropping != 0,
                        ) {
                            Err(e) => Err(e),
                            Ok((crop, p3)) => match bit_at(bits, p3) {
                                Err(e) => Err(e),
                                Ok(vui_present) => if vui_present == 0 {
                                    Err(rewrite_error("expected VUI parameters"))
                                } else {
                                    Ok(
                                        (
                                            SpsFraming {
                                                frame_mbs_only,
                                                mb_adaptive_frame_field,
                                                direct_8x8_inference,
                                                frame_cropping,
                                                crop,
                                            },
                                            bit_end(bits, p3),
                                        ),
                                    )
                                },
                            },
                        },
                    }
                },
            },
        },
    }
}

/// The fields of a sequence parameter set as x264 writes it for CarPlay.
pub open spec fn sps_at(bits: Seq<bool>) -> RewriteResult<SpsFields> {
    match format_at(bits, 0) {
        Err(e) => Err(e),
        Ok((format, p1)) => match picture_at(bits, p1) {
            Err(e) => Err(e),
            Ok((picture, p2)) => match framing_at(bits, p2) {
                Err(e) => Err(e),
                Ok((framing, _)) => Ok(SpsFields { format, picture, framing }),
            },
        },
    }
}

/// A reader follows a parser: it takes the same value and stops at the same place.
pub open spec fn follows<T>(
    parsed: Parsed<T>,
    value: RewriteResult<T>,
    before: BitReader,
    after: BitReader,
    budget: int,
) -> bool {
    &&& after.wf()
    &&& after.stream() == before.stream()
    &&& after.pos <= before.pos + budget
    &&& match parsed {
        Err(e) => value == Err::<T, H264FrameBufferError>(e),
        Ok((v, end)) => value == Ok::<T, H264FrameBufferError>(v) && after.pos == end,
    }
}

fn read_optional_bit(reader: &mut BitReader, present: bool) -> (flag: RewriteResult<Option<u8>>)
    requires
        old(reader).wf(),
        old(reader).pos < usize::MAX,
    ensures
        follows(
            optional_bit(old(reader).stream(), old(reader).pos as int, present),
            flag,
            *old(reader),
            *final(reader),
            1,
        ),
{
    if present {
        Ok(Some(reader.bit()?))
    } else {
        Ok(None)
    }
}

fn read_format(reader: &mut BitReader) -> (format: RewriteResult<SpsFormat>)
    requires
        old(reader).wf(),
        old(reader).pos == 0,
    ensures
        follows(format_at(old(reader).stream(), 0), format, *old(reader), *final(reader), 1000),
{
    let profile_idc = reader.bits(8)?;
    let constraint_flags = reader.bits(8)?;
    let level_idc = reader.bits(8)?;
    let seq_parameter_set_id = reader.ue()?;
    if profile_idc != 100 {
        return Err(H264FrameBufferError::X264BitstreamRewrite("expected High Profile SPS"));
    }
    let chroma_format_idc = reader.ue()?;
    let separate_colour_plane = read_optional_bit(reader, chroma_format_idc == 3)?;
    let bit_depth_luma_minus8 = reader.ue()?;
    let bit_depth_chroma_minus8 = reader.ue()?;
    let qpprime_y_zero_transform_bypass = reader.bit()?;
    let scaling_matrix_present = reader.bit()?;
    if scaling_matrix_present != 0 {
        return Err(
            H264FrameBufferError::X264BitstreamRewrite("custom SPS scaling matrices are unsupported"),
        );
    }
    Ok(
        SpsFormat {
            profile_idc,
            constraint_flags,
            level_idc,
            seq_parameter_set_id,
            chroma_format_idc,
            separate_colour_plane,
            bit_depth_luma_minus8,
            bit_depth_chroma_minus8,
            qpprime_y_zero_transform_bypass,
        },
    )
}

fn read_picture(reader: &mut BitReader) -> (picture: RewriteResult<SpsPicture>)
    requires
        old(reader).wf(),
        old(reader).pos <= 1000,
    ensures
        follows(
            picture_at(old(reader).stream(), old(reader).pos as int),
            picture,
            *old(reader),
            *final(reader),
            1000,
        ),
{
    let frame_num_minus4 = reader.ue()?;
    let poc_type = reader.ue()?;
    if frame_num_minus4 != 0 || poc_type != 2 {
        return Err(H264FrameBufferError::X264BitstreamRewrite("unexpected x264 frame_num/POC model"));
    }
    let max_num_ref_frames = reader.ue()?;
    if max_num_ref_frames != 4 {
        return Err(
            H264FrameBufferError::X264BitstreamRewrite("expected four decoded reference frames"),
        );
    }
    let gaps_in_frame_num_allowed = reader.bit()?;
    let pic_width_in_mbs_minus1 = reader.ue()?;
    let pic_height_in_map_units_minus1 = reader.ue()?;
    Ok(
        SpsPicture {
            max_num_ref_frames,
            gaps_in_frame_num_allowed,
            pic_width_in_mbs_minus1,
            pic_height_in_map_units_minus1,
        },
    )
}

fn read_crop(reader: &mut BitReader, present: bool) -> (crop: RewriteResult<Option<SpsCrop>>)
    requires
        old(reader).wf(),
        old(reader).pos <= 3000,
    ensures
        follows(
            crop_at(old(reader).stream(), old(reader).pos as int, present),
            crop,
            *old(reader),
            *final(reader),
            508,
        ),
{
    if !present {
        return Ok(None);
    }
    let left = reader.ue()?;
    let right = reader.ue()?;
    let top = reader.ue()?;
    let bottom = reader.ue()?;
    Ok(Some(SpsCrop { left, right, top, bottom }))
}

fn read_framing(reader: &mut BitReader) -> (framing: RewriteResult<SpsFraming>)
    requires
        old(reader).wf(),
        old(reader).pos <= 2000,
    ensures
        follows(
            framing_at(old(reader).stream(), old(reader).pos as int),
            framing,
            *old(reader),
            *final(reader),
            1000,
        ),
{
    let frame_mbs_only = reader.bit()?;
    let mb_adaptive_frame_field = read_optional_bit(reader, frame_mbs_only == 0)?;
    let direct_8x8_inference = reader.bit()?;
    let frame_cropping = reader.bit()?;
    let crop = read_crop(reader, frame_cropping != 0)?;
    if reader.bit()? == 0 {
        return Err(H264FrameBufferError::X264BitstreamRewrite("expected VUI parameters"));
    }
    Ok(
        SpsFraming {
            frame_mbs_only,
            mb_adaptive_frame_field,
            direct_8x8_inference,
            frame_cropping,
            crop,
        },
    )
}

impl SpsFields {
    /// Reads the fields from the payload of a sequence parameter set.
    pub fn parse(rbsp: &[u8]) -> (fields: RewriteResult<SpsFields>)
        ensures
            fields == sps_at(crate::bits::bits_of(rbsp@)),
    {
        let mut reader = BitReader::new(rbsp);
        let format = read_format(&mut reader)?;
        let picture = read_picture(&mut reader)?;
        let framing = read_framing(&mut reader)?;
        Ok(SpsFields { format, picture, framing })
    }
}

/// A flag as it stands in a stream; any value but zero counts as one.
pub open spec fn flag(bit: u8) -> Seq<bool> {
    seq![bit != 0]
}

/// A flag that may be absent.
pub open spec fn optional_flag(bit: Option<u8>) -> Seq<bool> {
    match bit {
        Some(bit) => flag(bit),
        None => Seq::empty(),
    }
}

/// Profile, level and sample format in a CarPlay parameter set. There is no scaling matrix.
pub open spec fn format_code(f: SpsFormat) -> Seq<bool> {
    binary(f.profile_idc as nat, 8) + binary(f.constraint_flags as nat, 8) + binary(
        f.level_idc as nat,
        8,
    ) + ue_code(f.seq_parameter_set_id as nat) + ue_code(f.chroma_format_idc as nat) + optional_flag(
        f.separate_colour_plane,
    ) + ue_code(f.bit_depth_luma_minus8 as nat) + ue_code(f.bit_depth_chroma_minus8 as nat) + flag(
        f.qpprime_y_zero_transform_bypass,
    ) + seq![false]
}

/// Picture order and size in a CarPlay parameter set: a frame number of 12 bits, picture order
/// type 0 and 13 bits of picture order count.
pub open spec fn picture_code(p: SpsPicture) -> Seq<bool> {
    ue_code(8) + ue_code(0) + ue_code(9) + ue_code(p.max_num_ref_frames as nat) + flag(
        p.gaps_in_frame_num_allowed,
    ) + ue_code(p.pic_width_in_mbs_minus1 as nat) + ue_code(p.pic_height_in_map_units_minus1 as nat)
}

pub open spec fn crop_code(crop: Option<SpsCrop>) -> Seq<bool> {
    match crop {
        Some(c) => ue_code(c.left as nat) + ue_code(c.right as nat) + ue_code(c.top as nat) + ue_code(
            c.bottom as nat,
        ),
        None => Seq::empty(),
    }
}

/// Interlacing, cropping and the flag that announces VUI parameters.
pub open spec fn framing_code(f: SpsFraming) -> Seq<bool> {
    flag(f.frame_mbs_only) + optional_flag(f.mb_adaptive_frame_field) + flag(f.direct_8x8_inference)
        + flag(f.frame_cropping) + crop_code(f.crop) + seq![true]
}

/// The colour description in the CarPlay VUI parameters: no aspect ratio or overscan; full range
/// video of unspecified format with BT.709 primaries, the sRGB transfer curve and the SMPTE 170M
/// matrix.
pub open spec fn vui_colour_code() -> Seq<bool> {
    seq![false, false, true] + binary(5, 3) + seq![true, true] + binary(1, 8) + binary(13, 8)
        + binary(6, 8)
}

/// The rest of the CarPlay VUI parameters: no chroma location, timing, HRD or picture structure,
/// then the bitstream restrictions.
pub open spec fn vui_restriction_code() -> Seq<bool> {
    seq![false, false, false, false, false, true, true] + ue_code(2) + ue_code(1) + ue_code(16)
        + ue_code(16) + ue_code(0) + ue_code(4)
}

/// The VUI parameters that CarPlay expects.
pub open spec fn carplay_vui_code() -> Seq<bool> {
    vui_colour_code() + vui_restriction_code()
}

/// The fields in the syntax that CarPlay expects, without the trailing bits.
pub open spec fn carplay_sps_code(f: SpsFields) -> Seq<bool> {
    format_code(f.format) + picture_code(f.picture) + framing_code(f.framing) + carplay_vui_code()
}

/// The bits of the rewritten parameter set.
pub open spec fn carplay_sps_bits(f: SpsFields) -> Seq<bool> {
    let code = carplay_sps_code(f);
    code + trailing_bits(code.len() as int)
}

/// A writer appends `code`, at most `budget` bits.
pub open spec fn appends(before: BitWriter, after: BitWriter, code: Seq<bool>, budget: int) -> bool {
    &&& after.wf()
    &&& after@ == before@ + code
    &&& after@.len() <= before@.len() + budget
}

fn write_optional_bit(writer: &mut BitWriter, bit: Option<u8>)
    requires
        old(writer).wf(),
        old(writer)@.len() < usize::MAX,
    ensures
        appends(*old(writer), *final(writer), optional_flag(bit), 1),
{
    let ghost before = writer@;
    if let Some(bit) = bit {
        writer.bit(bit);
    }
    assert(writer@ =~= before + optional_flag(bit));
}

#[verifier::rlimit(40)]
fn write_format(writer: &mut BitWriter, f: &SpsFormat)
    requires
        old(writer).wf(),
        old(writer)@.len() <= 100,
    ensures
        appends(*old(writer), *final(writer), format_code(*f), 300),
{
    let ghost before = writer@;
    writer.bits(f.profile_idc, 8);
    writer.bits(f.constraint_flags, 8);
    writer.bits(f.level_idc, 8);
    writer.ue(f.seq_parameter_set_id);
    writer.ue(f.chroma_format_idc);
    write_optional_bit(writer, f.separate_colour_plane);
    writer.ue(f.bit_depth_luma_minus8);
    writer.ue(f.bit_depth_chroma_minus8);
    writer.bit(f.qpprime_y_zero_transform_bypass);
    writer.bit(0);
    assert(writer@ =~= before + format_code(*f));
}

fn write_picture(writer: &mut BitWriter, p: &SpsPicture)
    requires
        old(writer).wf(),
        old(writer)@.len() <= 1000,
    ensures
        appends(*old(writer), *final(writer), picture_code(*p), 400),
{
    let ghost before = writer@;
    writer.ue(8);
    writer.ue(0);
    writer.ue(9);
    writer.ue(p.max_num_ref_frames);
    writer.bit(p.gaps_in_frame_num_allowed);
    writer.ue(p.pic_width_in_mbs_minus1);
    writer.ue(p.pic_height_in_map_units_minus1);
    assert(writer@ =~= before + picture_code(*p));
}

#[verifier::rlimit(40)]
fn write_framing(writer: &mut BitWriter, f: &SpsFraming)
    requires
        old(writer).wf(),
        old(writer)@.len() <= 1000,
    ensures
        appends(*old(writer), *final(writer), framing_code(*f), 300),
{
    let ghost before = writer@;
    writer.bit(f.frame_mbs_only);
    write_optional_bit(writer, f.mb_adaptive_frame_field);
    writer.bit(f.direct_8x8_inference);
    writer.bit(f.frame_cropping);
    let ghost middle = writer@;
    if let Some(c) = &f.crop {
        writer.ue(c.left);
        writer.ue(c.right);
        writer.ue(c.top);
        writer.ue(c.bottom);
    }
    assert(writer@ =~= middle + crop_code(f.crop));
    writer.bit(1);
    assert(writer@ =~= before + framing_code(*f));
}

/// Appends the VUI parameters that CarPlay expects.
#[verifier::rlimit(40)]
pub(crate) fn write_carplay_vui(writer: &mut BitWriter)
    requires
        old(writer).wf(),
        old(writer)@.len() <= usize::MAX - 500,
    ensures
        appends(*old(writer), *final(writer), carplay_vui_code(), 500),
{
    let ghost before = writer@;
    writer.bit(0);  // aspect_ratio_info_present_flag
    writer.bit(0);  // overscan_info_present_flag
    writer.bit(1);  // video_signal_type_present_flag
    writer.bits(5, 3);  // video_format: unspecified
    writer.bit(1);  // video_full_range_flag
    writer.bit(1);  // colour_description_present_flag
    writer.bits(1, 8);  // colour_primaries: BT.709
    writer.bits(13, 8);  // transfer_characteristics: sRGB
    writer.bits(6, 8);  // matrix_coefficients: SMPTE 170M
    let ghost middle = writer@;
    assert(middle =~= before + vui_colour_code());
    writer.bit(0);  // chroma_loc_info_present_flag
    writer.bit(0);  // timing_info_present_flag
    writer.bit(0);  // nal_hrd_parameters_present_flag
    writer.bit(0);  // vcl_hrd_parameters_present_flag
    writer.bit(0);  // pic_struct_present_flag
    writer.bit(1);  // bitstream_restriction_flag
    writer.bit(1);  // motion_vectors_over_pic_boundaries_flag
    writer.ue(2);  // max_bytes_per_pic_denom
    writer.ue(1);  // max_bits_per_mb_denom
    writer.ue(16);  // log2_max_mv_length_horizontal
    writer.ue(16);  // log2_max_mv_length_vertical
    writer.ue(0);  // num_reorder_frames
    writer.ue(4);  // max_dec_frame_buffering
    assert(writer@ =~= middle + vui_restriction_code());
    assert(writer@ =~= before + carplay_vui_code());
}

impl SpsFields {
    /// The payload of the parameter set that CarPlay expects.
    pub fn to_carplay_rbsp(&self) -> (rbsp: Vec<u8>)
        ensures
            rbsp@ == crate::bits::pack(carplay_sps_bits(*self)),
    {
        let mut writer = BitWriter::default();
        write_format(&mut writer, &self.format);
        write_picture(&mut writer, &self.picture);
        write_framing(&mut writer, &self.framing);
        write_carplay_vui(&mut writer);
        assert(writer@ =~= carplay_sps_code(*self));
        writer.rbsp_trailing_bits();
        writer.into_bytes()
    }
}

}
