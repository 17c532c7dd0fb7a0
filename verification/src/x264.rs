//! Encoder settings for CarPlay, and the way from encoded NAL units to the stream that CarPlay gets.

use crate::buffer::{append, contents};
use crate::error::{H264FrameBufferError, RewriteResult};
use crate::nal_laws::law_rewrites_are_bounded;
use crate::nal_rewriter::{idr_encodable, idr_rewritten, sps_rewritten, CarPlayNalRewriter};
use bytes::BytesMut;
use vstd::prelude::*;

verus! {

/// The level that CarPlay advertises for a picture size and rate, where it has one.
pub open spec fn carplay_level_of(width: i32, height: i32, fps: i32) -> Option<i32> {
    if width == 800 && height == 480 && (fps == 30 || fps == 60) {
        Some(31)
    } else if width == 960 && height == 540 && fps == 30 {
        Some(31)
    } else if width == 960 && height == 540 && fps == 60 {
        Some(32)
    } else if width == 1280 && height == 720 && fps == 30 {
        Some(31)
    } else if width == 1280 && height == 720 && fps == 60 {
        Some(32)
    } else if width == 1920 && height == 720 && fps == 30 {
        Some(40)
    } else if width == 1920 && height == 720 && fps == 60 {
        Some(42)
    } else {
        None
    }
}

/// Picture width, height and rate with their level.
pub const CARPLAY_LEVELS: [((i32, i32, i32), i32); 8] = [
    ((800, 480, 30), 31),
    ((800, 480, 60), 31),
    ((960, 540, 30), 31),
    ((960, 540, 60), 32),
    ((1280, 720, 30), 31),
    ((1280, 720, 60), 32),
    ((1920, 720, 30), 40),
    ((1920, 720, 60), 42),
];

/// Looks up the level that CarPlay advertises.
pub fn carplay_level(width: i32, height: i32, fps: i32) -> (level: Option<i32>)
    ensures
        level == carplay_level_of(width, height, fps),
{
    let levels = CARPLAY_LEVELS;
    let mut i: usize = 0;
    while i < 8
        invariant
            i <= 8,
            levels@ == CARPLAY_LEVELS@,
            forall|j: int| 0 <= j < i ==> levels@[j].0 != (width, height, fps),
        decreases 8 - i,
    {
        let ((candidate_width, candidate_height, candidate_fps), level) = levels[i];
        if candidate_width == width && candidate_height == height && candidate_fps == fps {
            return Some(level);
        }
        i = i + 1;
    }
    None
}

/// How the encoder spends bits.
#[derive(Debug, Clone, Copy, PartialEq, Eq)]
pub enum RateControl {
    /// The same quantiser for every picture.
    ConstantQp,
    /// A method that the encoder library knows by this number.
    Other(i32),
}

/// How pictures are laid out in memory.
#[derive(Debug, Clone, Copy, PartialEq, Eq)]
pub enum ColourSpace {
    /// Planar YUV with chroma at half size.
    I420,
    /// A layout that the encoder library knows by this number.
    Other(i32),
}

/// Rate control settings.
#[derive(Debug, Clone, Copy, PartialEq, Eq)]
pub struct RateParams {
    pub lookahead: i32,
    pub method: RateControl,
    pub qp_constant: i32,
    pub mb_tree: i32,
    pub aq_mode: i32,
}

/// Analysis settings.
#[derive(Debug, Clone, Copy, PartialEq, Eq)]
pub struct AnalyseParams {
    pub intra: u32,
    pub inter: u32,
    pub me_method: i32,
    pub subpel_refine: i32,
    pub trellis: i32,
    pub transform_8x8: i32,
    pub psy: i32,
    pub psnr: i32,
    pub ssim: i32,
    pub direct_mv_pred: i32,
    pub chroma_me: i32,
    pub fast_pskip: i32,
    pub dct_decimate: i32,
    pub mixed_references: i32,
    pub weighted_pred: i32,
    pub weighted_bipred: i32,
}

/// Video usability settings.
#[derive(Debug, Clone, Copy, PartialEq, Eq)]
pub struct VuiParams {
    pub vidformat: i32,
    pub fullrange: i32,
    pub colorprim: i32,
    pub transfer: i32,
    pub colmatrix: i32,
    pub chroma_loc: i32,
    pub sar_width: i32,
    pub sar_height: i32,
}

/// Which frames refer to which.
#[derive(Debug, Clone, Copy, PartialEq, Eq)]
pub struct GopParams {
    pub keyint_max: i32,
    pub keyint_min: i32,
    pub scenecut_threshold: i32,
    pub intra_refresh: i32,
    pub bframe: i32,
    pub bframe_adaptive: i32,
    pub bframe_pyramid: i32,
    pub frame_reference: i32,
    pub dpb_size: i32,
    pub open_gop: i32,
}

/// The encoder parameters that CarPlay depends on.
#[derive(Debug, Clone, Copy, PartialEq, Eq)]
pub struct X264Params {
    pub gop: GopParams,
    pub slice_count: i32,
    pub slice_count_max: i32,
    pub cabac: i32,
    pub aud: i32,
    pub repeat_headers: i32,
    pub annexb: i32,
    pub deblocking_filter: i32,
    pub vfr_input: i32,
    pub interlaced: i32,
    pub fake_interlaced: i32,
    pub tff: i32,
    pub level_idc: i32,
    pub sync_lookahead: i32,
    pub width: i32,
    pub height: i32,
    pub csp: ColourSpace,
    pub threads: i32,
    pub lookahead_threads: i32,
    pub sliced_threads: i32,
    pub timebase_num: u32,
    pub timebase_den: u32,
    pub rc: RateParams,
    pub analyse: AnalyseParams,
    pub vui: VuiParams,
}

/// The parameters for single pictures without delay: one slice, one thread, a constant quantiser
/// and no lookahead.
pub open spec fn single_picture_params(p: X264Params, width: i32, height: i32) -> X264Params {
    X264Params {
        gop: GopParams {
            keyint_max: 60,
            keyint_min: 1,
            scenecut_threshold: 0,
            intra_refresh: 0,
            bframe: 0,
            bframe_adaptive: 0,
            bframe_pyramid: 0,
            frame_reference: 1,
            dpb_size: 1,
            open_gop: 0,
        },
        slice_count: 1,
        slice_count_max: 1,
        cabac: 0,
        aud: 0,
        repeat_headers: 0,
        annexb: 1,
        deblocking_filter: 0,
        vfr_input: 0,
        sync_lookahead: 0,
        width,
        height,
        csp: ColourSpace::I420,
        threads: 1,
        lookahead_threads: 0,
        sliced_threads: 0,
        rc: RateParams {
            lookahead: 0,
            method: RateControl::ConstantQp,
            qp_constant: 26,
            mb_tree: 0,
            aq_mode: 0,
        },
        analyse: AnalyseParams {
            intra: 0,
            inter: 0,
            me_method: 0,
            subpel_refine: 0,
            trellis: 0,
            transform_8x8: 1,
            psy: 0,
            psnr: 0,
            ssim: 0,
            direct_mv_pred: 0,
            chroma_me: 0,
            fast_pskip: 0,
            dct_decimate: 0,
            mixed_references: 0,
            ..p.analyse
        },
        ..p
    }
}

/// The parameters tuned to what Apple devices send: CABAC, four decoded reference slots with one
/// active reference, progressive pictures, the advertised level where there is one, and full range
/// video with BT.709 primaries, the sRGB curve and the SMPTE 170M matrix.
pub open spec fn tuned_params(p: X264Params, width: i32, height: i32, fps: i32) -> X264Params {
    X264Params {
        gop: GopParams {
            keyint_max: 60,
            keyint_min: 1,
            scenecut_threshold: 0,
            intra_refresh: 0,
            bframe: 0,
            bframe_adaptive: 0,
            bframe_pyramid: 0,
            frame_reference: 1,
            dpb_size: 4,
            open_gop: 0,
        },
        cabac: 1,
        interlaced: 0,
        fake_interlaced: 0,
        tff: 0,
        level_idc: match carplay_level_of(width, height, fps) {
            Some(level) => level,
            None => p.level_idc,
        },
        vfr_input: 0,
        deblocking_filter: 0,
        analyse: AnalyseParams { weighted_pred: 0, weighted_bipred: 0, transform_8x8: 1, ..p.analyse },
        vui: VuiParams {
            vidformat: 5,
            fullrange: 1,
            colorprim: 1,
            transfer: 13,
            colmatrix: 6,
            chroma_loc: 0,
            sar_width: 0,
            sar_height: 0,
        },
        ..p
    }
}

/// The parameters without variable frame rate or a timebase.
pub open spec fn untimed_params(p: X264Params) -> X264Params {
    X264Params { vfr_input: 0, timebase_num: 0, timebase_den: 0, ..p }
}

/// A NAL unit as the encoder hands it out.
#[derive(Debug, Clone, Copy)]
pub struct EncodedNal<'a> {
    /// The `nal_unit_type`.
    pub kind: u32,
    /// Start code, header and escaped payload.
    pub payload: &'a [u8],
}

/// What CarPlay gets of a NAL unit: nothing of supplemental information, a rewritten parameter set
/// or IDR slice, and anything else as it is.
#[verifier::opaque]
pub open spec fn nal_for_carplay(kind: u32, payload: Seq<u8>) -> RewriteResult<Seq<u8>> {
    if kind == 6 {
        Ok(Seq::empty())
    } else if kind == 7 {
        sps_rewritten(payload)
    } else if kind == 5 {
        idr_rewritten(payload)
    } else {
        Ok(payload)
    }
}

/// What CarPlay gets of NAL units in a row, up to the first that cannot be rewritten.
pub open spec fn stream_for_carplay(nals: Seq<EncodedNal>) -> Seq<u8>
    decreases nals.len(),
{
    if nals.len() == 0 {
        Seq::empty()
    } else {
        match nal_for_carplay(nals[0].kind, nals[0].payload@) {
            Ok(bytes) => bytes + stream_for_carplay(nals.skip(1)),
            Err(_) => Seq::empty(),
        }
    }
}

/// The error of the first NAL unit that cannot be rewritten.
pub open spec fn stream_error(nals: Seq<EncodedNal>) -> Result<(), H264FrameBufferError>
    decreases nals.len(),
{
    if nals.len() == 0 {
        Ok(())
    } else {
        match nal_for_carplay(nals[0].kind, nals[0].payload@) {
            Ok(_) => stream_error(nals.skip(1)),
            Err(e) => Err(e),
        }
    }
}

/// Whether the signed fields of a NAL unit can be written, if it is an IDR slice.
#[verifier::opaque]
pub open spec fn unit_encodable(kind: u32, payload: Seq<u8>) -> bool {
    kind == 5 ==> idr_encodable(payload)
}

/// Whether the signed fields of every IDR slice can be written, up to the first NAL unit that cannot
/// be rewritten.
pub open spec fn slices_encodable(nals: Seq<EncodedNal>) -> bool
    decreases nals.len(),
{
    nals.len() > 0 ==> {
        &&& unit_encodable(nals[0].kind, nals[0].payload@)
        &&& nal_for_carplay(nals[0].kind, nals[0].payload@) is Ok ==> slices_encodable(
            nals.skip(1),
        )
    }
}

/// A bound on the bytes that CarPlay gets of NAL units in a row.
pub open spec fn delivery_bound(nals: Seq<EncodedNal>) -> int
    decreases nals.len(),
{
    if nals.len() == 0 {
        0
    } else {
        2 * nals[0].payload@.len() + 512 + delivery_bound(nals.skip(1))
    }
}

/// Setup of the encoder and delivery of what it produces. The encoder itself is behind a C
/// interface; these are the decisions around its calls.
pub struct X264FrameBuffer;

impl X264FrameBuffer {
    /// Sets up single pictures without delay.
    fn single_picture(param: &mut X264Params, width: i32, height: i32)
        ensures
            *final(param) == single_picture_params(*old(param), width, height),
    {
        param.gop.keyint_max = 60;
        param.gop.keyint_min = 1;
        param.gop.scenecut_threshold = 0;
        param.gop.intra_refresh = 0;
        param.gop.bframe = 0;
        param.gop.bframe_adaptive = 0;
        param.gop.frame_reference = 1;
        param.slice_count = 1;
        param.slice_count_max = 1;
        param.gop.dpb_size = 1;

        param.cabac = 0;
        param.aud = 0;
        param.repeat_headers = 0;
        param.annexb = 1;
        param.deblocking_filter = 0;
        param.gop.open_gop = 0;
        param.vfr_input = 0;

        param.sync_lookahead = 0;
        param.rc = RateParams {
            lookahead: 0,
            method: RateControl::ConstantQp,
            qp_constant: 26,
            mb_tree: 0,
            aq_mode: 0,
        };

        param.width = width;
        param.height = height;
        param.csp = ColourSpace::I420;
        param.gop.bframe_pyramid = 0;

        param.analyse.intra = 0;
        param.analyse.inter = 0;
        param.analyse.me_method = 0;
        param.analyse.subpel_refine = 0;
        param.analyse.trellis = 0;
        param.analyse.transform_8x8 = 1;
        param.analyse.psy = 0;
        param.analyse.psnr = 0;
        param.analyse.ssim = 0;
        param.analyse.direct_mv_pred = 0;
        param.analyse.chroma_me = 0;
        param.analyse.fast_pskip = 0;
        param.analyse.dct_decimate = 0;
        param.analyse.mixed_references = 0;

        param.threads = 1;
        param.lookahead_threads = 0;
        param.sliced_threads = 0;
    }

    /// Tunes the parameters to what Apple devices send.
    pub fn tune_carplay_match(param: &mut X264Params, width: i32, height: i32, fps: i32)
        ensures
            *final(param) == tuned_params(*old(param), width, height, fps),
    {
        param.cabac = 1;

        // Apple advertises four decoded reference slots in the SPS, but only one default active L0
        // reference in the PPS. The encoder derives those from `dpb_size` and `frame_reference`.
        param.gop.frame_reference = 1;
        param.gop.dpb_size = 4;

        param.gop.bframe = 0;
        param.gop.bframe_adaptive = 0;
        param.gop.bframe_pyramid = 0;

        param.interlaced = 0;
        param.fake_interlaced = 0;
        param.tff = 0;

        if let Some(level) = carplay_level(width, height, fps) {
            param.level_idc = level;
        }
        param.vui = VuiParams {
            vidformat: 5,
            fullrange: 1,
            colorprim: 1,
            transfer: 13,
            colmatrix: 6,
            chroma_loc: 0,
            sar_width: 0,
            sar_height: 0,
        };

        // Variable frame rate would add one frame of delay, which breaks one-shot encoding.
        param.vfr_input = 0;

        param.analyse.weighted_pred = 0;
        param.analyse.weighted_bipred = 0;

        param.deblocking_filter = 0;
        param.analyse.transform_8x8 = 1;

        param.gop.open_gop = 0;
        param.gop.intra_refresh = 0;

        param.gop.keyint_min = 1;
        param.gop.keyint_max = 60;
        param.gop.scenecut_threshold = 0;
    }

    /// What follows the request for a preset: a negative code ends the setup, else the preset is
    /// adapted.
    pub fn after_preset(
        code: i32,
        preset: X264Params,
        width: i32,
        height: i32,
        fps: i32,
    ) -> (params: Result<X264Params, H264FrameBufferError>)
        ensures
            params == (if code < 0 {
                Err::<X264Params, H264FrameBufferError>(H264FrameBufferError::X264DefaultPreset(code))
            } else {
                Ok(tuned_params(single_picture_params(preset, width, height), width, height, fps))
            }),
    {
        if code < 0 {
            return Err(H264FrameBufferError::X264DefaultPreset(code));
        }
        let mut param = preset;
        Self::single_picture(&mut param, width, height);
        Self::tune_carplay_match(&mut param, width, height, fps);
        Ok(param)
    }

    /// What follows the request for a profile: a negative code ends the setup, else the timebase is
    /// cleared.
    pub fn after_profile(code: i32, profiled: X264Params) -> (params: Result<
        X264Params,
        H264FrameBufferError,
    >)
        ensures
            params == (if code < 0 {
                Err::<X264Params, H264FrameBufferError>(H264FrameBufferError::X264ApplyProfile(code))
            } else {
                Ok(untimed_params(profiled))
            }),
    {
        if code < 0 {
            return Err(H264FrameBufferError::X264ApplyProfile(code));
        }
        let mut param = profiled;
        param.vfr_input = 0;
        param.timebase_num = 0;
        param.timebase_den = 0;
        Ok(param)
    }

    /// Whether the encoder opened.
    pub fn after_open(encoder_is_null: bool) -> (opened: Result<(), H264FrameBufferError>)
        ensures
            opened == (if encoder_is_null {
                Err::<(), H264FrameBufferError>(H264FrameBufferError::X264EncoderOpenNull)
            } else {
                Ok(())
            }),
    {
        if encoder_is_null {
            return Err(H264FrameBufferError::X264EncoderOpenNull);
        }
        Ok(())
    }

    /// What follows an attempt to encode a picture: a negative code is an error, else the NAL units
    /// are delivered.
    pub fn after_encode(code: i32, nals: &[EncodedNal], out: &mut BytesMut) -> (done: Result<
        (),
        H264FrameBufferError,
    >)
        requires
            code >= 0 ==> slices_encodable(nals@),
            code >= 0 ==> contents(*old(out)).len() + stream_for_carplay(nals@).len() <= isize::MAX,
        ensures
            code < 0 ==> done == Err::<(), H264FrameBufferError>(
                H264FrameBufferError::X264EncoderEncode(code),
            ) && contents(*final(out)) == contents(*old(out)),
            code >= 0 ==> done == stream_error(nals@) && contents(*final(out)) == contents(*old(out))
                + stream_for_carplay(nals@),
    {
        if code < 0 {
            return Err(H264FrameBufferError::X264EncoderEncode(code));
        }
        Self::transfer_nals(nals, out)
    }

    /// What follows a request for parameter sets: a negative code is an error, else the NAL units
    /// are delivered.
    pub fn after_headers(code: i32, nals: &[EncodedNal], out: &mut BytesMut) -> (done: Result<
        (),
        H264FrameBufferError,
    >)
        requires
            code >= 0 ==> slices_encodable(nals@),
            code >= 0 ==> contents(*old(out)).len() + stream_for_carplay(nals@).len() <= isize::MAX,
        ensures
            code < 0 ==> done == Err::<(), H264FrameBufferError>(
                H264FrameBufferError::X264EncoderHeaders(code),
            ) && contents(*final(out)) == contents(*old(out)),
            code >= 0 ==> done == stream_error(nals@) && contents(*final(out)) == contents(*old(out))
                + stream_for_carplay(nals@),
    {
        if code < 0 {
            return Err(H264FrameBufferError::X264EncoderHeaders(code));
        }
        Self::transfer_nals(nals, out)
    }

    /// Whether the signed fields of a NAL unit can be written, if it is an IDR slice.
    fn is_encodable(nal: EncodedNal) -> (encodable: bool)
        ensures
            encodable == unit_encodable(nal.kind, nal.payload@),
    {
        reveal(unit_encodable);
        nal.kind != 5 || CarPlayNalRewriter::idr_deltas_encodable(nal.payload)
    }

    /// Whether one NAL unit can be rewritten.
    fn can_rewrite(nal: EncodedNal) -> (can: bool)
        requires
            unit_encodable(nal.kind, nal.payload@),
        ensures
            can == (nal_for_carplay(nal.kind, nal.payload@) is Ok),
    {
        reveal(nal_for_carplay);
        reveal(unit_encodable);
        match nal.kind {
            7 => CarPlayNalRewriter::rewrite_sps(nal.payload).is_ok(),
            5 => CarPlayNalRewriter::rewrite_idr(nal.payload).is_ok(),
            _ => true,
        }
    }

    /// Whether the signed fields of every IDR slice can be written, up to the first NAL unit that
    /// cannot be rewritten.
    pub fn deltas_encodable(nals: &[EncodedNal]) -> (encodable: bool)
        ensures
            encodable == slices_encodable(nals@),
    {
        let mut i: usize = 0;
        assert(nals@.skip(0) =~= nals@);
        while i < nals.len()
            invariant
                i <= nals@.len(),
                slices_encodable(nals@) == slices_encodable(nals@.skip(i as int)),
            decreases nals@.len() - i,
        {
            let nal = nals[i];
            assert(nals@.skip(i as int)[0] == nal);
            assert(nals@.skip(i as int).skip(1) =~= nals@.skip(i + 1));
            if !Self::is_encodable(nal) {
                return false;
            }
            // What follows the last unit needs no answer on it.
            if i + 1 < nals.len() && !Self::can_rewrite(nal) {
                return true;
            }
            i = i + 1;
        }
        true
    }

    /// Whether there is room in memory for what CarPlay gets of the NAL units, behind `len` bytes.
    pub fn delivery_fits(nals: &[EncodedNal], len: usize) -> (fits: bool)
        ensures
            fits == (len + delivery_bound(nals@) <= isize::MAX),
            fits ==> len + stream_for_carplay(nals@).len() <= isize::MAX,
    {
        let limit: usize = isize::MAX as usize;
        let mut room: usize = len;
        let mut i: usize = 0;
        assert(nals@.skip(0) =~= nals@);
        proof {
            law_delivery_is_bounded(nals@);
        }
        while i < nals.len()
            invariant
                i <= nals@.len(),
                limit == isize::MAX,
                room <= limit || i == 0,
                len + delivery_bound(nals@) == room + delivery_bound(nals@.skip(i as int)),
            decreases nals@.len() - i,
        {
            proof {
                law_delivery_is_bounded(nals@.skip(i as int));
                law_delivery_is_bounded(nals@.skip(i + 1));
                assert(nals@.skip(i as int).skip(1) =~= nals@.skip(i + 1));
            }
            let payload = nals[i].payload;
            if room > limit || payload.len() > (limit - room) / 2 {
                return false;
            }
            room = room + 2 * payload.len();
            if limit - room < 512 {
                return false;
            }
            room = room + 512;
            i = i + 1;
        }
        room <= limit
    }

    /// Appends to `out` what CarPlay gets of one NAL unit.
    fn transfer_nal(nal: EncodedNal, out: &mut BytesMut) -> (done: Result<(), H264FrameBufferError>)
        requires
            unit_encodable(nal.kind, nal.payload@),
            nal_for_carplay(nal.kind, nal.payload@) matches Ok(bytes) ==> contents(*old(out)).len()
                + bytes.len() <= isize::MAX,
        ensures
            match nal_for_carplay(nal.kind, nal.payload@) {
                Ok(bytes) => done == Ok::<(), H264FrameBufferError>(()) && contents(*final(out))
                    == contents(*old(out)) + bytes,
                Err(e) => done == Err::<(), H264FrameBufferError>(e) && contents(*final(out))
                    == contents(*old(out)),
            },
    {
        reveal(nal_for_carplay);
        reveal(unit_encodable);
        match nal.kind {
            6 => {
                assert(contents(*out) =~= contents(*out) + Seq::<u8>::empty());
            },
            7 => {
                let bytes = CarPlayNalRewriter::rewrite_sps(nal.payload)?;
                append(out, bytes.as_slice());
            },
            5 => {
                let bytes = CarPlayNalRewriter::rewrite_idr(nal.payload)?;
                append(out, bytes.as_slice());
            },
            _ => append(out, nal.payload),
        }
        Ok(())
    }

    /// Appends to `out` what CarPlay gets of the NAL units, up to the first that cannot be rewritten.
    pub fn transfer_nals(nals: &[EncodedNal], out: &mut BytesMut) -> (done: Result<
        (),
        H264FrameBufferError,
    >)
        requires
            slices_encodable(nals@),
            contents(*old(out)).len() + stream_for_carplay(nals@).len() <= isize::MAX,
        ensures
            done == stream_error(nals@),
            contents(*final(out)) == contents(*old(out)) + stream_for_carplay(nals@),
    {
        let mut i: usize = 0;
        let ghost mut sent = Seq::<u8>::empty();
        assert(nals@.skip(0) =~= nals@);
        assert(contents(*out) =~= contents(*out) + sent);
        assert(stream_for_carplay(nals@) =~= sent + stream_for_carplay(nals@));
        while i < nals.len()
            invariant
                i <= nals@.len(),
                slices_encodable(nals@.skip(i as int)),
                contents(*old(out)).len() + stream_for_carplay(nals@).len() <= isize::MAX,
                contents(*out) == contents(*old(out)) + sent,
                stream_for_carplay(nals@) == sent + stream_for_carplay(nals@.skip(i as int)),
                stream_error(nals@) == stream_error(nals@.skip(i as int)),
            decreases nals@.len() - i,
        {
            let nal = nals[i];
            let ghost rest = nals@.skip(i as int);
            let ghost outcome = nal_for_carplay(nal.kind, nal.payload@);
            assert(rest[0] == nal);
            assert(rest.skip(1) =~= nals@.skip(i + 1));
            assert(outcome is Err ==> stream_for_carplay(nals@) =~= sent);
            Self::transfer_nal(nal, out)?;
            proof {
                let bytes = outcome->Ok_0;
                assert(contents(*out) =~= contents(*old(out)) + (sent + bytes));
                assert(stream_for_carplay(nals@) =~= (sent + bytes) + stream_for_carplay(
                    nals@.skip(i + 1),
                ));
                sent = sent + bytes;
            }
            i = i + 1;
        }
        assert(stream_for_carplay(nals@) =~= sent);
        Ok(())
    }
}

/// Delivery at most doubles the NAL units, but for 512 bytes each.
pub proof fn law_delivery_is_bounded(nals: Seq<EncodedNal>)
    ensures
        0 <= stream_for_carplay(nals).len() <= delivery_bound(nals),
    decreases nals.len(),
{
    if nals.len() > 0 {
        law_delivery_is_bounded(nals.skip(1));
        let payload = nals[0].payload@;
        assert(nal_for_carplay(nals[0].kind, payload) matches Ok(bytes) ==> bytes.len() <= 2
            * payload.len() + 512) by {
            reveal(nal_for_carplay);
            law_rewrites_are_bounded(payload);
        }
    }
}

/// Supplemental information never reaches CarPlay: the stream, and the error if there is one, are
/// those of the other NAL units alone.
pub proof fn law_no_supplemental_information(nals: Seq<EncodedNal>)
    ensures
        stream_for_carplay(nals) == stream_for_carplay(
            nals.filter(|nal: EncodedNal| nal.kind != 6),
        ),
        stream_error(nals) == stream_error(nals.filter(|nal: EncodedNal| nal.kind != 6)),
    decreases nals.len(),
{
    let wanted = |nal: EncodedNal| nal.kind != 6;
    if nals.len() == 0 {
        assert(nals.filter(wanted) =~= nals) by {
            reveal(Seq::filter);
        }
    } else {
        let head = nals[0];
        let rest = nals.skip(1);
        law_no_supplemental_information(rest);
        assert(nals =~= seq![head] + rest);
        assert(seq![head].filter(wanted) =~= if wanted(head) {
            seq![head]
        } else {
            Seq::<EncodedNal>::empty()
        }) by {
            reveal(Seq::filter);
            assert(seq![head].drop_last() =~= Seq::<EncodedNal>::empty());
            assert(seq![head].drop_last().filter(wanted) =~= Seq::<EncodedNal>::empty());
        }
        Seq::filter_distributes_over_add(seq![head], rest, wanted);
        let kept = nals.filter(wanted);
        if wanted(head) {
            assert(kept =~= seq![head] + rest.filter(wanted));
            assert(kept.skip(1) =~= rest.filter(wanted));
        } else {
            assert(kept =~= rest.filter(wanted));
            reveal(nal_for_carplay);
            assert(stream_for_carplay(nals) =~= stream_for_carplay(rest));
        }
    }
}

/// Delivering NAL units in two calls gives what one call gives, if the first call succeeds.
pub proof fn law_delivery_in_parts(first: Seq<EncodedNal>, second: Seq<EncodedNal>)
    requires
        stream_error(first) is Ok,
    ensures
        stream_for_carplay(first + second) == stream_for_carplay(first) + stream_for_carplay(second),
        stream_error(first + second) == stream_error(second),
    decreases first.len(),
{
    if first.len() == 0 {
        assert(first + second =~= second);
        assert(stream_for_carplay(first) + stream_for_carplay(second) =~= stream_for_carplay(second));
    } else {
        law_delivery_in_parts(first.skip(1), second);
        assert((first + second).skip(1) =~= first.skip(1) + second);
        let head = nal_for_carplay(first[0].kind, first[0].payload@)->Ok_0;
        assert(head + (stream_for_carplay(first.skip(1)) + stream_for_carplay(second)) =~= (head
            + stream_for_carplay(first.skip(1))) + stream_for_carplay(second));
    }
}

/// Tuning twice changes nothing more.
pub proof fn law_tuning_is_idempotent(p: X264Params, width: i32, height: i32, fps: i32)
    ensures
        tuned_params(tuned_params(p, width, height, fps), width, height, fps) == tuned_params(
            p,
            width,
            height,
            fps,
        ),
{
}

proof fn lemma_stream_push(nals: Seq<EncodedNal>, nal: EncodedNal)
    ensures
        stream_error(nals) is Err ==> stream_for_carplay(nals.push(nal)) == stream_for_carplay(nals)
            && stream_error(nals.push(nal)) == stream_error(nals),
        stream_error(nals) is Ok ==> match nal_for_carplay(nal.kind, nal.payload@) {
            Ok(bytes) => stream_for_carplay(nals.push(nal)) == stream_for_carplay(nals) + bytes
                && stream_error(nals.push(nal)) is Ok,
            Err(e) => stream_for_carplay(nals.push(nal)) == stream_for_carplay(nals)
                && stream_error(nals.push(nal)) == Err::<(), H264FrameBufferError>(e),
        },
    decreases nals.len(),
{
    let all = nals.push(nal);
    if nals.len() == 0 {
        assert(all.skip(1) =~= nals);
        assert(all[0] == nal);
        if let Ok(bytes) = nal_for_carplay(nal.kind, nal.payload@) {
            assert(bytes + stream_for_carplay(nals) =~= stream_for_carplay(nals) + bytes);
        }
    } else {
        lemma_stream_push(nals.skip(1), nal);
        assert(all.skip(1) =~= nals.skip(1).push(nal));
        assert(all[0] == nals[0]);
        if let Ok(head) = nal_for_carplay(nals[0].kind, nals[0].payload@) {
            if let Ok(bytes) = nal_for_carplay(nal.kind, nal.payload@) {
                let sent = stream_for_carplay(nals.skip(1));
                assert(head + (sent + bytes) =~= (head + sent) + bytes);
            }
        }
    }
}

/// What CarPlay gets of one more NAL unit, where all before it could be rewritten: nothing of
/// supplemental information, the rewritten unit of a parameter set or of an IDR slice, and the unit
/// itself, byte for byte, of every other kind. After a unit that cannot be rewritten, CarPlay gets
/// nothing more and the error stays.
pub proof fn law_each_unit_is_delivered(nals: Seq<EncodedNal>, nal: EncodedNal)
    ensures
        ({
            let sent = stream_for_carplay(nals);
            let with = stream_for_carplay(nals.push(nal));
            let error = stream_error(nals.push(nal));
            &&& stream_error(nals) is Err ==> with == sent && error == stream_error(nals)
            &&& stream_error(nals) is Ok ==> {
                &&& nal.kind == 6 ==> with == sent && error is Ok
                &&& nal.kind != 5 && nal.kind != 6 && nal.kind != 7 ==> with == sent + nal.payload@
                    && error is Ok
                &&& nal.kind == 7 ==> match sps_rewritten(nal.payload@) {
                    Ok(bytes) => with == sent + bytes && error is Ok,
                    Err(e) => with == sent && error == Err::<(), H264FrameBufferError>(e),
                }
                &&& nal.kind == 5 ==> match idr_rewritten(nal.payload@) {
                    Ok(bytes) => with == sent + bytes && error is Ok,
                    Err(e) => with == sent && error == Err::<(), H264FrameBufferError>(e),
                }
            }
        }),
{
    lemma_stream_push(nals, nal);
    assert(stream_for_carplay(nals) + Seq::<u8>::empty() =~= stream_for_carplay(nals));
    reveal(nal_for_carplay);
}

/// The largest number of macroblocks that H.264 allows at a level: in a picture, and in a second.
pub open spec fn level_limits(level: i32) -> (int, int) {
    if level == 30 {
        (1620, 40500)
    } else if level == 31 {
        (3600, 108000)
    } else if level == 32 {
        (5120, 216000)
    } else if level == 40 {
        (8192, 245760)
    } else {
        (8704, 522240)
    }
}

/// Whether pictures of this size and rate keep to the limits of a level.
pub open spec fn fits_level(width: i32, height: i32, fps: i32, level: i32) -> bool {
    let (size, rate) = level_limits(level);
    let macroblocks = macroblocks_of(width, height);
    macroblocks <= size && macroblocks * fps <= rate
}

/// The macroblocks of 16 by 16 pixels that cover a picture.
pub open spec fn macroblocks_of(width: i32, height: i32) -> int {
    (width as int + 15) / 16 * ((height as int + 15) / 16)
}

/// The level of a picture size and rate is the lowest that H.264 allows for it. Four sizes have one,
/// each at 30 and at 60 pictures in a second.
pub proof fn law_level_is_the_lowest_allowed(width: i32, height: i32, fps: i32)
    ensures
        carplay_level_of(width, height, fps) is Some <==> {
            &&& fps == 30 || fps == 60
            &&& (width, height) == (800i32, 480i32) || (width, height) == (960i32, 540i32) || (
                width,
                height,
            ) == (1280i32, 720i32) || (width, height) == (1920i32, 720i32)
        },
        carplay_level_of(width, height, fps) matches Some(level) ==> {
            &&& level == 31 || level == 32 || level == 40 || level == 42
            &&& fits_level(width, height, fps, level)
            &&& level == 31 ==> !fits_level(width, height, fps, 30)
            &&& level == 32 ==> !fits_level(width, height, fps, 31)
            &&& level == 40 ==> !fits_level(width, height, fps, 32)
            &&& level == 42 ==> !fits_level(width, height, fps, 40)
        },
{
    if width == 800 && height == 480 {
        assert(macroblocks_of(width, height) == 1500) by (nonlinear_arith)
            requires
                width == 800,
                height == 480,
        ;
    }
    if width == 960 && height == 540 {
        assert(macroblocks_of(width, height) == 2040) by (nonlinear_arith)
            requires
                width == 960,
                height == 540,
        ;
    }
    if width == 1280 && height == 720 {
        assert(macroblocks_of(width, height) == 3600) by (nonlinear_arith)
            requires
                width == 1280,
                height == 720,
        ;
    }
    if width == 1920 && height == 720 {
        assert(macroblocks_of(width, height) == 5400) by (nonlinear_arith)
            requires
                width == 1920,
                height == 720,
        ;
    }
    let macroblocks = macroblocks_of(width, height);
    assert(fps == 30 ==> macroblocks * fps == 30 * macroblocks) by (nonlinear_arith);
    assert(fps == 60 ==> macroblocks * fps == 60 * macroblocks) by (nonlinear_arith);
}

/// The encoder is set up, from any preset, for one picture at a time and for what Apple devices send:
/// each setting that matters has one value, and every other setting stays as the preset had it.
pub proof fn law_every_preset_is_set_up(p: X264Params, width: i32, height: i32, fps: i32)
    ensures
        ({
            let t = tuned_params(single_picture_params(p, width, height), width, height, fps);
            let u = untimed_params(t);
            &&& t.gop.keyint_max == 60 && t.gop.keyint_min == 1 && t.gop.scenecut_threshold == 0
            &&& t.gop.intra_refresh == 0 && t.gop.open_gop == 0
            &&& t.gop.bframe == 0 && t.gop.bframe_adaptive == 0 && t.gop.bframe_pyramid == 0
            &&& t.gop.frame_reference == 1 && t.gop.dpb_size == 4
            &&& t.slice_count == 1 && t.slice_count_max == 1
            &&& t.cabac == 1 && t.aud == 0 && t.repeat_headers == 0 && t.annexb == 1
            &&& t.deblocking_filter == 0 && t.vfr_input == 0
            &&& t.interlaced == 0 && t.fake_interlaced == 0 && t.tff == 0
            &&& t.sync_lookahead == 0 && t.threads == 1 && t.lookahead_threads == 0
            &&& t.sliced_threads == 0
            &&& t.width == width && t.height == height && t.csp == ColourSpace::I420
            &&& t.rc.lookahead == 0 && t.rc.method == RateControl::ConstantQp
            &&& t.rc.qp_constant == 26 && t.rc.mb_tree == 0 && t.rc.aq_mode == 0
            &&& t.analyse.intra == 0 && t.analyse.inter == 0 && t.analyse.me_method == 0
            &&& t.analyse.subpel_refine == 0 && t.analyse.trellis == 0
            &&& t.analyse.transform_8x8 == 1 && t.analyse.psy == 0
            &&& t.analyse.psnr == 0 && t.analyse.ssim == 0 && t.analyse.direct_mv_pred == 0
            &&& t.analyse.chroma_me == 0 && t.analyse.fast_pskip == 0
            &&& t.analyse.dct_decimate == 0 && t.analyse.mixed_references == 0
            &&& t.analyse.weighted_pred == 0 && t.analyse.weighted_bipred == 0
            &&& t.vui.vidformat == 5 && t.vui.fullrange == 1 && t.vui.colorprim == 1
            &&& t.vui.transfer == 13 && t.vui.colmatrix == 6 && t.vui.chroma_loc == 0
            &&& t.vui.sar_width == 0 && t.vui.sar_height == 0
            &&& t.timebase_num == p.timebase_num && t.timebase_den == p.timebase_den
            &&& t.level_idc == (match carplay_level_of(width, height, fps) {
                Some(level) => level,
                None => p.level_idc,
            })
            &&& u == (X264Params { vfr_input: 0, timebase_num: 0, timebase_den: 0, ..t })
        }),
{
}

/// Tuning alone leaves what it does not speak of: picture size, slices, threads, rate control, framing
/// of the stream and the timebase, and of the analysis all but the weights and the transform.
pub proof fn law_tuning_leaves_the_rest(p: X264Params, width: i32, height: i32, fps: i32)
    ensures
        ({
            let t = tuned_params(p, width, height, fps);
            &&& t == (X264Params {
                gop: t.gop,
                cabac: t.cabac,
                interlaced: t.interlaced,
                fake_interlaced: t.fake_interlaced,
                tff: t.tff,
                level_idc: t.level_idc,
                vfr_input: t.vfr_input,
                deblocking_filter: t.deblocking_filter,
                analyse: t.analyse,
                vui: t.vui,
                ..p
            })
            &&& t.analyse == (AnalyseParams {
                weighted_pred: 0,
                weighted_bipred: 0,
                transform_8x8: 1,
                ..p.analyse
            })
        }),
{
}

/// Only an IDR slice can be one whose fields cannot be written: any other kind of unit can be delivered as
/// far as its fields go.
pub proof fn law_only_slices_can_be_unwritable(nals: Seq<EncodedNal>)
    requires
        forall|i: int| 0 <= i < nals.len() ==> (#[trigger] nals[i]).kind != 5 || idr_encodable(
            nals[i].payload@,
        ),
    ensures
        slices_encodable(nals),
    decreases nals.len(),
{
    if nals.len() > 0 {
        reveal(unit_encodable);
        assert(nals[0].kind != 5 || idr_encodable(nals[0].payload@));
        let rest = nals.skip(1);
        assert forall|i: int| 0 <= i < rest.len() implies (#[trigger] rest[i]).kind != 5
            || idr_encodable(rest[i].payload@) by {
            assert(rest[i] == nals[i + 1]);
        }
        law_only_slices_can_be_unwritable(rest);
    }
}

/// The bound on a delivery is twice the bytes of the units and 512 bytes for each.
pub proof fn law_delivery_bound_adds_up(nals: Seq<EncodedNal>, nal: EncodedNal)
    ensures
        delivery_bound(Seq::empty()) == 0,
        delivery_bound(nals.push(nal)) == delivery_bound(nals) + 2 * nal.payload@.len() + 512,
    decreases nals.len(),
{
    let all = nals.push(nal);
    if nals.len() == 0 {
        assert(all.skip(1) =~= Seq::<EncodedNal>::empty());
        assert(delivery_bound(all.skip(1)) == 0);
        assert(all[0] == nal);
    } else {
        law_delivery_bound_adds_up(nals.skip(1), nal);
        assert(all.skip(1) =~= nals.skip(1).push(nal));
        assert(all[0] == nals[0]);
    }
}

}
