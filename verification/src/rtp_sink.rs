//! The sink that feeds recorded samples to the RTP encoder.

use vstd::arithmetic::div_mod::lemma_fundamental_div_mod;
use vstd::arithmetic::mul::{lemma_mul_inequality, lemma_mul_is_commutative};
use vstd::prelude::*;

use crate::audio::{RingStats, WriteReport};

verus! {

/// The samples that a write put into the ring, out of `len`.
pub open spec fn samples_written(report: WriteReport, len: usize) -> usize {
    match report {
        WriteReport::Complete => len,
        WriteReport::Partial { written } => written,
    }
}

/// The room in a ring: its capacity without the samples that were written and not consumed.
pub open spec fn room_in(stat: RingStats) -> int {
    let backlog = if stat.written >= stat.consumed {
        stat.written - stat.consumed
    } else {
        0
    };
    if stat.capacity >= backlog {
        stat.capacity - backlog
    } else {
        0
    }
}

/// What a write to the sink came to.
#[derive(Debug, Clone, Copy, PartialEq, Eq, Structural)]
pub struct SinkWrite {
    /// The samples that were written.
    pub written: usize,
    /// Whether samples were left out.
    pub partial: bool,
    /// Whether the encoder is to be woken.
    pub wake: bool,
}

/// Counts what goes into the ring `G` and wakes the encoder by `N` for each packet that fills up.
#[derive(Debug)]
pub struct RtpSink<G, N> {
    pub ring: G,
    pub samples_per_packet: usize,
    pub written_samples: usize,
    pub notify: N,
}

impl<G, N> RtpSink<G, N> {
    /// Packets hold samples.
    pub open spec fn wf(self) -> bool {
        self.samples_per_packet != 0
    }

    /// A sink to which nothing was written yet.
    pub fn new(ring: G, samples_per_packet: usize, notify: N) -> (sink: Self)
        requires
            samples_per_packet != 0,
        ensures
            sink.wf(),
            sink == (RtpSink { ring, samples_per_packet, written_samples: 0, notify }),
    {
        RtpSink { ring, samples_per_packet, written_samples: 0, notify }
    }

    /// Whether counting up to `after` samples completes a packet.
    pub open spec fn completes_packet(self, after: int) -> bool {
        let size = self.samples_per_packet as int;
        self.written_samples as int / size < after / size
    }

    /// Counts a write of `len` samples that the ring answered with `report`.
    pub fn wrote(&mut self, len: usize, report: WriteReport) -> (outcome: SinkWrite)
        requires
            old(self).wf(),
            old(self).written_samples + samples_written(report, len) <= usize::MAX,
        ensures
            final(self).wf(),
            *final(self) == (RtpSink {
                written_samples: (old(self).written_samples + samples_written(
                    report,
                    len,
                )) as usize,
                ..*old(self)
            }),
            outcome == (SinkWrite {
                written: samples_written(report, len),
                partial: samples_written(report, len) < len,
                wake: old(self).completes_packet(
                    old(self).written_samples + samples_written(report, len),
                ),
            }),
    {
        let written: usize = match report {
            WriteReport::Complete => len,
            WriteReport::Partial { written } => written,
        };
        let before: usize = self.written_samples;
        self.written_samples = before + written;
        let wake = before / self.samples_per_packet < self.written_samples
            / self.samples_per_packet;
        SinkWrite { written, partial: written < len, wake }
    }

    /// The room in the ring. It goes by the logical backlog, with samples that were overwritten and
    /// that the reader has not skipped yet. A reader that runs meanwhile only frees more.
    pub fn writable(&self, stat: RingStats) -> (room: usize)
        ensures
            room == room_in(stat),
    {
        stat.capacity.saturating_sub(stat.written.saturating_sub(stat.consumed))
    }
}

/// The encoder is woken exactly when the samples written reach or pass the end of a packet.
pub proof fn law_wakes_at_packet_ends<G, N>(sink: RtpSink<G, N>, more: nat)
    requires
        sink.wf(),
    ensures
        sink.completes_packet(sink.written_samples + more) <==> exists|packet: int|
            sink.written_samples < #[trigger] (packet * sink.samples_per_packet)
                <= sink.written_samples + more,
{
    let size = sink.samples_per_packet as int;
    let before = sink.written_samples as int;
    let after = before + more;
    lemma_fundamental_div_mod(before, size);
    lemma_fundamental_div_mod(after, size);
    lemma_mul_is_commutative(before / size, size);
    lemma_mul_is_commutative(after / size, size);
    if sink.completes_packet(after) {
        let packet = after / size;
        lemma_mul_inequality(before / size + 1, packet, size);
        assert((before / size + 1) * size == before / size * size + size) by (nonlinear_arith);
        assert(before < packet * size <= after);
    }
    if exists|packet: int| before < #[trigger] (packet * size) <= after {
        let packet = choose|packet: int| before < #[trigger] (packet * size) <= after;
        if packet <= before / size {
            lemma_mul_inequality(packet, before / size, size);
        }
        if packet > after / size {
            lemma_mul_inequality(after / size + 1, packet, size);
            assert((after / size + 1) * size == after / size * size + size) by (nonlinear_arith);
        }
    }
}

/// A write that stays within the room never overwrites samples that were not consumed, and takes
/// exactly its own length off the room.
pub proof fn law_room_is_honest(stat: RingStats, len: usize)
    requires
        len <= room_in(stat),
        stat.consumed <= stat.written,
        stat.written + len <= usize::MAX,
    ensures
        len > 0 ==> stat.written + len - stat.consumed <= stat.capacity,
        room_in((RingStats { written: (stat.written + len) as usize, ..stat })) == room_in(stat)
            - len,
{
}

/// Consuming samples never takes room away.
pub proof fn law_consuming_frees_room(stat: RingStats, consumed: usize)
    requires
        stat.consumed <= consumed,
    ensures
        room_in(stat) <= room_in((RingStats { consumed, ..stat })) <= stat.capacity,
{
}

/// The room in a ring and the samples that were written and not consumed make up its capacity. A ring
/// from which more was read than written is empty, and one with more than its capacity is full.
pub proof fn law_room_and_backlog_make_up_the_capacity(stat: RingStats)
    ensures
        stat.consumed >= stat.written ==> room_in(stat) == stat.capacity,
        stat.consumed <= stat.written <= stat.consumed + stat.capacity ==> room_in(stat) + (
        stat.written - stat.consumed) == stat.capacity,
        stat.written >= stat.consumed + stat.capacity ==> room_in(stat) == 0,
{
}

/// A complete write counts all samples, and a partial one those that the ring says.
pub proof fn law_reports_are_believed(len: usize, written: usize)
    ensures
        samples_written(WriteReport::Complete, len) == len,
        samples_written(WriteReport::Partial { written }, len) == written,
{
}

/// Writes in a row wake the encoder as one write of all their samples does: if and only if one of them
/// completes a packet.
pub proof fn law_wakes_add_up<G, N>(sink: RtpSink<G, N>, first: usize, second: usize)
    requires
        sink.wf(),
        sink.written_samples + first + second <= usize::MAX,
    ensures
        ({
            let between = RtpSink {
                written_samples: (sink.written_samples + first) as usize,
                ..sink
            };
            sink.completes_packet(sink.written_samples + first + second) <==> sink.completes_packet(
                sink.written_samples + first,
            ) || between.completes_packet(between.written_samples + second)
        }),
{
    let size = sink.samples_per_packet as int;
    let a = sink.written_samples as int;
    vstd::arithmetic::div_mod::lemma_div_is_ordered(a, a + first, size);
    vstd::arithmetic::div_mod::lemma_div_is_ordered(a + first, a + first + second, size);
}

}
