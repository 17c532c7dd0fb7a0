//! Errors of the H.264 encoder front end.

use vstd::prelude::*;

verus! {

/// Why an H.264 frame could not be produced.
#[derive(Debug, Clone, Copy, PartialEq, Eq)]
pub enum H264FrameBufferError {
    /// x264 rejected the preset; carries its return code.
    X264DefaultPreset(i32),
    /// x264 rejected the profile; carries its return code.
    X264ApplyProfile(i32),
    /// x264 did not hand out an encoder.
    X264EncoderOpenNull,
    /// x264 failed to encode a picture; carries its return code.
    X264EncoderEncode(i32),
    /// x264 failed to produce parameter sets; carries its return code.
    X264EncoderHeaders(i32),
    /// A NAL unit does not have the syntax that the rewriter adapts.
    X264BitstreamRewrite(&'static str),
}

/// Result of reading or rewriting a NAL unit.
pub type RewriteResult<T> = Result<T, H264FrameBufferError>;

/// The error that a rewrite gives for the reason `why`.
pub open spec fn rewrite_error(why: &'static str) -> H264FrameBufferError {
    H264FrameBufferError::X264BitstreamRewrite(why)
}

}
