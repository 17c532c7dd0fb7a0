use catplay::error::H264FrameBufferError;
use catplay::x264::{
    carplay_level, AnalyseParams, ColourSpace, GopParams, RateControl, RateParams, VuiParams, X264FrameBuffer, X264Params,
    CARPLAY_LEVELS,
};

/// Settings that CarPlay never has.
fn preset() -> X264Params {
    X264Params {
        gop: GopParams {
            keyint_max: 9,
            keyint_min: 9,
            scenecut_threshold: 9,
            intra_refresh: 9,
            bframe: 9,
            bframe_adaptive: 9,
            bframe_pyramid: 9,
            frame_reference: 9,
            dpb_size: 9,
            open_gop: 9,
        },
        slice_count: 9,
        slice_count_max: 9,
        cabac: 9,
        aud: 9,
        repeat_headers: 9,
        annexb: 9,
        deblocking_filter: 9,
        vfr_input: 9,
        interlaced: 9,
        fake_interlaced: 9,
        tff: 9,
        level_idc: 9,
        sync_lookahead: 9,
        width: 9,
        height: 9,
        csp: ColourSpace::Other(9),
        threads: 9,
        lookahead_threads: 9,
        sliced_threads: 9,
        timebase_num: 9,
        timebase_den: 9,
        rc: RateParams {
            lookahead: 9,
            method: RateControl::Other(9),
            qp_constant: 9,
            mb_tree: 9,
            aq_mode: 9,
        },
        analyse: AnalyseParams {
            intra: 9,
            inter: 9,
            me_method: 9,
            subpel_refine: 9,
            trellis: 9,
            transform_8x8: 9,
            psy: 9,
            psnr: 9,
            ssim: 9,
            direct_mv_pred: 9,
            chroma_me: 9,
            fast_pskip: 9,
            dct_decimate: 9,
            mixed_references: 9,
            weighted_pred: 9,
            weighted_bipred: 9,
        },
        vui: VuiParams {
            vidformat: 9,
            fullrange: 9,
            colorprim: 9,
            transfer: 9,
            colmatrix: 9,
            chroma_loc: 9,
            sar_width: 9,
            sar_height: 9,
        },
    }
}

#[test]
fn levels_are_those_of_the_table() {
    for ((width, height, fps), level) in CARPLAY_LEVELS {
        assert_eq!(carplay_level(width, height, fps), Some(level));
    }
    assert_eq!(carplay_level(1920, 720, 60), Some(42));
    assert_eq!(carplay_level(1920, 720, 50), None);
    assert_eq!(carplay_level(480, 800, 30), None);
}

#[test]
fn setup_replaces_every_setting_that_matters() {
    let tuned = X264FrameBuffer::after_preset(0, preset(), 1280, 720, 60).unwrap();
    assert_eq!(tuned.level_idc, 32);
    assert_eq!((tuned.width, tuned.height), (1280, 720));
    assert_eq!((tuned.cabac, tuned.gop.frame_reference, tuned.gop.dpb_size), (1, 1, 4));
    assert_eq!((tuned.gop.keyint_max, tuned.gop.keyint_min), (60, 1));
    assert_eq!((tuned.slice_count, tuned.slice_count_max, tuned.threads), (1, 1, 1));
    assert_eq!((tuned.annexb, tuned.repeat_headers, tuned.aud), (1, 0, 0));
    assert_eq!(tuned.csp, ColourSpace::I420);
    assert_eq!((tuned.rc.method, tuned.rc.qp_constant), (RateControl::ConstantQp, 26));
    assert_eq!((tuned.analyse.transform_8x8, tuned.analyse.weighted_pred, tuned.analyse.weighted_bipred), (1, 0, 0));
    assert_eq!((tuned.vui.vidformat, tuned.vui.fullrange), (5, 1));
    assert_eq!((tuned.vui.colorprim, tuned.vui.transfer, tuned.vui.colmatrix), (1, 13, 6));
    assert_eq!((tuned.timebase_num, tuned.timebase_den), (9, 9));
    let ready = X264FrameBuffer::after_profile(0, tuned).unwrap();
    assert_eq!((ready.vfr_input, ready.timebase_num, ready.timebase_den), (0, 0, 0));
    assert_eq!(X264FrameBuffer::after_open(false), Ok(()));
}

#[test]
fn unlisted_sizes_keep_the_level() {
    let mut params = preset();
    X264FrameBuffer::tune_carplay_match(&mut params, 640, 480, 30);
    assert_eq!(params.level_idc, 9);
    assert_eq!(params.threads, 9);
    let once = params;
    X264FrameBuffer::tune_carplay_match(&mut params, 640, 480, 30);
    assert_eq!(params, once);
}

#[test]
fn setup_fails_where_the_encoder_does() {
    assert_eq!(
        X264FrameBuffer::after_preset(-1, preset(), 800, 480, 30),
        Err(H264FrameBufferError::X264DefaultPreset(-1))
    );
    assert_eq!(
        X264FrameBuffer::after_profile(-7, preset()),
        Err(H264FrameBufferError::X264ApplyProfile(-7))
    );
    assert_eq!(X264FrameBuffer::after_open(true), Err(H264FrameBufferError::X264EncoderOpenNull));
}
