//! Verified core of a CarPlay bridge.

pub mod ascii;
pub mod audio;
pub mod bit_reader;
pub mod bit_writer;
pub mod bits;
pub mod buffer;
pub mod endian;
pub mod error;
pub mod float;
pub mod golomb;
pub mod i2c;
pub mod idr;
pub mod info;
pub mod mfi;
pub mod nal_laws;
pub mod nal_rewriter;
pub mod pcm_proxy;
pub mod rtp_sink;
pub mod screen_frame;
pub mod screen_tx;
pub mod sps;
pub mod syntax_laws;
pub mod text;
pub mod time;
pub mod x264;
