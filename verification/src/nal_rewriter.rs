//! Rewriting of NAL units from the syntax that x264 writes to the one that CarPlay expects.

use crate::bit_writer::BitWriter;
use crate::bits::{bits_of, pack};
use crate::error::{rewrite_error, H264FrameBufferError, RewriteResult};
use crate::idr::{carplay_idr_bits, deltas_encodable, idr_at, IdrSlice};
use crate::sps::{appends, carplay_sps_bits, carplay_vui_code, sps_at, SpsFields};
use vstd::prelude::*;
use vstd::slice::slice_subrange;

verus! {

/// Number of zero bytes in a row after `byte` comes behind `zeros` of them. Counting stops at two.
pub open spec fn next_zeros(zeros: int, byte: u8) -> int {
    if byte != 0 {
        0
    } else if zeros >= 2 {
        2
    } else {
        zeros + 1
    }
}

/// The payload with an emulation prevention byte 3 before every byte up to 3 that comes behind two
/// zero bytes. `zeros` zero bytes come before `data`.
pub open spec fn escaped(data: Seq<u8>, zeros: int) -> Seq<u8>
    decreases data.len(),
{
    if data.len() == 0 {
        Seq::empty()
    } else if zeros >= 2 && data[0] <= 3 {
        seq![3u8, data[0]] + escaped(data.skip(1), next_zeros(0, data[0]))
    } else {
        seq![data[0]] + escaped(data.skip(1), next_zeros(zeros, data[0]))
    }
}

/// The payload without the bytes 3 that come behind two zero bytes. `zeros` zero bytes come before
/// `data`.
pub open spec fn unescaped(data: Seq<u8>, zeros: int) -> Seq<u8>
    decreases data.len(),
{
    if data.len() == 0 {
        Seq::empty()
    } else if zeros >= 2 && data[0] == 3 {
        unescaped(data.skip(1), 0)
    } else {
        seq![data[0]] + unescaped(data.skip(1), next_zeros(zeros, data[0]))
    }
}

/// The three bytes at `i` are such that a decoder takes them for the start of a NAL unit or rejects
/// them: two zero bytes and a byte below 3.
pub open spec fn start_code_at(data: Seq<u8>, i: int) -> bool {
    0 <= i && i + 2 < data.len() && data[i] == 0 && data[i + 1] == 0 && data[i + 2] <= 2
}

/// `data` holds what a decoder takes for the start of a NAL unit or rejects.
pub open spec fn has_start_code(data: Seq<u8>) -> bool {
    exists|i: int| start_code_at(data, i)
}

/// Length of the start code that a NAL unit begins with.
pub open spec fn start_code_len(nal: Seq<u8>) -> RewriteResult<int> {
    if nal.len() >= 4 && nal.take(4) == seq![0u8, 0, 0, 1] {
        Ok(4)
    } else if nal.len() >= 3 && nal.take(3) == seq![0u8, 0, 1] {
        Ok(3)
    } else {
        Err(rewrite_error("missing Annex-B start code"))
    }
}

/// A NAL unit: the first `prefix_len` bytes of `nal`, the header and the escaped payload.
pub open spec fn assembled(nal: Seq<u8>, prefix_len: int, header: u8, rbsp: Seq<u8>) -> Seq<u8> {
    nal.take(prefix_len) + seq![header] + escaped(rbsp, 0)
}

/// The payload of a NAL unit whose start code has `prefix_len` bytes.
pub open spec fn payload(nal: Seq<u8>, prefix_len: int) -> Seq<u8> {
    unescaped(nal.skip(prefix_len + 1), 0)
}

/// What a sequence parameter set of x264 becomes.
pub open spec fn sps_rewritten(nal: Seq<u8>) -> RewriteResult<Seq<u8>> {
    match start_code_len(nal) {
        Err(e) => Err(e),
        Ok(n) => if nal.len() <= n {
            Err(rewrite_error("missing SPS NAL header"))
        } else if nal[n] & 0x1f != 7 {
            Err(rewrite_error("expected SPS NAL"))
        } else {
            match sps_at(bits_of(payload(nal, n))) {
                Err(e) => Err(e),
                Ok(fields) => Ok(assembled(nal, n, nal[n], pack(carplay_sps_bits(fields)))),
            }
        },
    }
}

/// The slice header of an IDR NAL unit of x264, and the byte of the payload at which CABAC data
/// starts.
pub open spec fn idr_header(nal: Seq<u8>) -> Result<(IdrSlice, int), H264FrameBufferError> {
    match start_code_len(nal) {
        Err(e) => Err(e),
        Ok(n) => if nal.len() <= n {
            Err(rewrite_error("missing IDR NAL header"))
        } else if nal[n] & 0x1f != 5 || nal[n] >> 5 == 0 {
            Err(rewrite_error("expected reference IDR NAL"))
        } else {
            idr_at(bits_of(payload(nal, n)))
        },
    }
}

/// What an IDR slice of x264 becomes: a new header, and the CABAC data as it was.
pub open spec fn idr_rewritten(nal: Seq<u8>) -> RewriteResult<Seq<u8>> {
    match idr_header(nal) {
        Err(e) => Err(e),
        Ok((slice, start)) => {
            let n = start_code_len(nal)->Ok_0;
            let rbsp = pack(carplay_idr_bits(slice)) + payload(nal, n).skip(start);
            Ok(assembled(nal, n, nal[n], rbsp))
        },
    }
}

/// No signed field of the slice header, where the NAL unit has one, is the least `i32`.
pub open spec fn idr_encodable(nal: Seq<u8>) -> bool {
    idr_header(nal) matches Ok((slice, _)) ==> deltas_encodable(slice)
}

/// Adapts the SPS and IDR slice syntax of x264 to the parameter-set contract of CarPlay, while the
/// encoded CABAC payload stays as it is.
pub struct CarPlayNalRewriter;

impl CarPlayNalRewriter {
    /// Length of the Annex-B start code at the front of a NAL unit.
    pub fn annexb_prefix_len(nal: &[u8]) -> (len: RewriteResult<usize>)
        ensures
            match start_code_len(nal@) {
                Err(e) => len == Err::<usize, H264FrameBufferError>(e),
                Ok(n) => len is Ok && len->Ok_0 == n,
            },
    {
        if nal.len() >= 4 && nal[0] == 0 && nal[1] == 0 && nal[2] == 0 && nal[3] == 1 {
            assert(nal@.take(4) =~= seq![0u8, 0, 0, 1]);
            return Ok(4);
        }
        assert(nal@.len() >= 4 ==> nal@.take(4)[0] == nal@[0] && nal@.take(4)[1] == nal@[1]
            && nal@.take(4)[2] == nal@[2] && nal@.take(4)[3] == nal@[3]);
        if nal.len() >= 3 && nal[0] == 0 && nal[1] == 0 && nal[2] == 1 {
            assert(nal@.take(3) =~= seq![0u8, 0, 1]);
            return Ok(3);
        }
        assert(nal@.len() >= 3 ==> nal@.take(3)[0] == nal@[0] && nal@.take(3)[1] == nal@[1]
            && nal@.take(3)[2] == nal@[2]);
        Err(H264FrameBufferError::X264BitstreamRewrite("missing Annex-B start code"))
    }

    /// Drops the emulation prevention bytes.
    pub fn remove_emulation_prevention(data: &[u8]) -> (out: Vec<u8>)
        ensures
            out@ == unescaped(data@, 0),
    {
        let mut out: Vec<u8> = Vec::with_capacity(data.len());
        let mut zeros: usize = 0;
        let mut i: usize = 0;
        assert(data@.skip(0) =~= data@);
        assert(out@ + unescaped(data@, 0) =~= unescaped(data@, 0));
        while i < data.len()
            invariant
                i <= data@.len(),
                zeros <= 2,
                out@ + unescaped(data@.skip(i as int), zeros as int) == unescaped(data@, 0),
            decreases data@.len() - i,
        {
            let byte: u8 = data[i];
            let ghost rest = data@.skip(i as int);
            let ghost done = out@;
            assert(rest.skip(1) =~= data@.skip(i + 1));
            if zeros >= 2 && byte == 3 {
                zeros = 0;
            } else {
                out.push(byte);
                let ghost tail = unescaped(rest.skip(1), next_zeros(zeros as int, byte));
                assert(done + (seq![byte] + tail) =~= out@ + tail);
                zeros = if byte != 0 {
                    0
                } else if zeros >= 2 {
                    2
                } else {
                    zeros + 1
                };
            }
            i = i + 1;
        }
        assert(out@ + unescaped(data@.skip(i as int), zeros as int) =~= out@);
        out
    }

    /// Inserts the emulation prevention bytes.
    pub fn add_emulation_prevention(data: &[u8]) -> (out: Vec<u8>)
        ensures
            out@ == escaped(data@, 0),
    {
        let mut out: Vec<u8> = Vec::with_capacity(data.len());
        let mut zeros: usize = 0;
        let mut i: usize = 0;
        assert(data@.skip(0) =~= data@);
        assert(out@ + escaped(data@, 0) =~= escaped(data@, 0));
        while i < data.len()
            invariant
                i <= data@.len(),
                zeros <= 2,
                out@ + escaped(data@.skip(i as int), zeros as int) == escaped(data@, 0),
            decreases data@.len() - i,
        {
            let byte: u8 = data[i];
            let ghost rest = data@.skip(i as int);
            let ghost done = out@;
            let ghost before = zeros as int;
            assert(rest.skip(1) =~= data@.skip(i + 1));
            if zeros >= 2 && byte <= 3 {
                out.push(3);
                zeros = 0;
            }
            out.push(byte);
            let ghost tail = escaped(rest.skip(1), next_zeros(zeros as int, byte));
            assert(done + escaped(rest, before) =~= out@ + tail);
            zeros = if byte != 0 {
                0
            } else if zeros >= 2 {
                2
            } else {
                zeros + 1
            };
            i = i + 1;
        }
        assert(out@ + escaped(data@.skip(i as int), zeros as int) =~= out@);
        out
    }

    /// Puts a NAL unit together from the start code of `nal`, a header and a payload.
    pub fn rebuild_nal(nal: &[u8], prefix_len: usize, header: u8, rbsp: &[u8]) -> (out: Vec<u8>)
        requires
            prefix_len <= nal@.len(),
        ensures
            out@ == assembled(nal@, prefix_len as int, header, rbsp@),
    {
        let escaped = Self::add_emulation_prevention(rbsp);
        let mut out: Vec<u8> = Vec::with_capacity(escaped.len());
        out.extend_from_slice(slice_subrange(nal, 0, prefix_len));
        out.push(header);
        out.extend_from_slice(escaped.as_slice());
        assert(out@ =~= assembled(nal@, prefix_len as int, header, rbsp@));
        out
    }

    /// Appends the VUI parameters that CarPlay expects.
    pub fn write_carplay_vui(writer: &mut BitWriter)
        requires
            old(writer).wf(),
            old(writer)@.len() <= usize::MAX - 500,
        ensures
            appends(*old(writer), *final(writer), carplay_vui_code(), 500),
    {
        crate::sps::write_carplay_vui(writer)
    }

    /// Rewrites a sequence parameter set.
    pub fn rewrite_sps(nal: &[u8]) -> (out: RewriteResult<Vec<u8>>)
        ensures
            match sps_rewritten(nal@) {
                Err(e) => out == Err::<Vec<u8>, H264FrameBufferError>(e),
                Ok(bytes) => out is Ok && out->Ok_0@ == bytes,
            },
    {
        let prefix_len = Self::annexb_prefix_len(nal)?;
        if nal.len() <= prefix_len {
            return Err(H264FrameBufferError::X264BitstreamRewrite("missing SPS NAL header"));
        }
        let header = nal[prefix_len];
        if header & 0x1f != 7 {
            return Err(H264FrameBufferError::X264BitstreamRewrite("expected SPS NAL"));
        }
        let rest = slice_subrange(nal, prefix_len + 1, nal.len());
        assert(rest@ =~= nal@.skip(prefix_len + 1));
        let rbsp = Self::remove_emulation_prevention(rest);
        let fields = SpsFields::parse(rbsp.as_slice())?;
        let rewritten = fields.to_carplay_rbsp();
        Ok(Self::rebuild_nal(nal, prefix_len, header, rewritten.as_slice()))
    }

    /// The payload, the slice header and the start of the CABAC data of an IDR NAL unit.
    fn parse_idr(nal: &[u8]) -> (parsed: RewriteResult<(usize, Vec<u8>, IdrSlice, usize)>)
        ensures
            match idr_header(nal@) {
                Err(e) => parsed == Err::<(usize, Vec<u8>, IdrSlice, usize), H264FrameBufferError>(e),
                Ok((slice, start)) => {
                    &&& parsed is Ok
                    &&& start_code_len(nal@) == Ok::<int, H264FrameBufferError>(
                        parsed->Ok_0.0 as int,
                    )
                    &&& parsed->Ok_0.0 < nal@.len()
                    &&& parsed->Ok_0.1@ == payload(nal@, parsed->Ok_0.0 as int)
                    &&& parsed->Ok_0.2 == slice
                    &&& parsed->Ok_0.3 == start
                    &&& start <= parsed->Ok_0.1@.len()
                },
            },
    {
        let prefix_len = Self::annexb_prefix_len(nal)?;
        if nal.len() <= prefix_len {
            return Err(H264FrameBufferError::X264BitstreamRewrite("missing IDR NAL header"));
        }
        let header = nal[prefix_len];
        if header & 0x1f != 5 || header >> 5 == 0 {
            return Err(H264FrameBufferError::X264BitstreamRewrite("expected reference IDR NAL"));
        }
        let rest = slice_subrange(nal, prefix_len + 1, nal.len());
        assert(rest@ =~= nal@.skip(prefix_len + 1));
        let rbsp = Self::remove_emulation_prevention(rest);
        let (slice, start) = IdrSlice::parse(rbsp.as_slice())?;
        Ok((prefix_len, rbsp, slice, start))
    }

    /// Whether the rewriter can write the signed fields of an IDR slice header.
    pub fn idr_deltas_encodable(nal: &[u8]) -> (encodable: bool)
        ensures
            encodable == idr_encodable(nal@),
    {
        match Self::parse_idr(nal) {
            Ok((_, _, slice, _)) => slice.tuning.slice_qp_delta > i32::MIN
                && match &slice.tuning.deblock_offsets {
                Some(o) => o.alpha_c0_div2 > i32::MIN && o.beta_div2 > i32::MIN,
                None => true,
            },
            Err(_) => true,
        }
    }

    /// Rewrites an IDR slice.
    pub fn rewrite_idr(nal: &[u8]) -> (out: RewriteResult<Vec<u8>>)
        requires
            idr_encodable(nal@),
        ensures
            match idr_rewritten(nal@) {
                Err(e) => out == Err::<Vec<u8>, H264FrameBufferError>(e),
                Ok(bytes) => out is Ok && out->Ok_0@ == bytes,
            },
    {
        let (prefix_len, rbsp, slice, start) = Self::parse_idr(nal)?;
        let mut rewritten = slice.to_carplay_header();
        let ghost header = rewritten@;
        let cabac = slice_subrange(rbsp.as_slice(), start, rbsp.len());
        rewritten.extend_from_slice(cabac);
        assert(rewritten@ =~= header + rbsp@.skip(start as int));
        Ok(Self::rebuild_nal(nal, prefix_len, nal[prefix_len], rewritten.as_slice()))
    }
}

}
