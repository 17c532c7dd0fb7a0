//! Pacing of PCM samples from a player's source to a recorder's sink.

use vstd::arithmetic::div_mod::{
    lemma_div_is_ordered, lemma_fundamental_div_mod, lemma_mod_multiples_basic, lemma_small_mod,
};
use vstd::arithmetic::mul::{lemma_mul_inequality, lemma_mul_is_commutative};
use vstd::prelude::*;

use crate::audio::{larger, least, most, smaller, RingStats};
use crate::time::{Duration, Instant, MAX_NANOS};

verus! {

/// How far the sink may be ahead of the clock: 150 ms.
pub const READ_AHEAD_NANOS: u128 = 150_000_000;

/// How many chunks one tick moves at most, so that no tick drains the whole lead.
pub const CHUNKS_PER_TICK: usize = 2;

/// The time between ticks: 10 ms.
pub const INTERVAL_NANOS: u128 = 10_000_000;

/// How many intervals the ring holds.
pub const RING_INTERVAL_MULTIPLIER: usize = 50;

/// The time between reports: 5 s.
pub const REPORT_NANOS: u128 = 5_000_000_000;

/// The frames that play in a span, rounded down.
pub open spec fn frames_in(nanos: int, rate: int) -> int {
    nanos * rate / 1_000_000_000
}

/// The frames that may have been handed over once `elapsed` has passed.
pub open spec fn lead_frames(elapsed: Duration, rate: u32) -> int {
    frames_in(elapsed.nanos + READ_AHEAD_NANOS, rate as int)
}

/// The samples that may have been handed over once `elapsed` has passed.
pub open spec fn allowed_samples(elapsed: Duration, rate: u32, channels: usize) -> int {
    least(lead_frames(elapsed, rate) * channels, usize::MAX as int)
}

/// The samples that play in a span, with no more frames than fit in a `u32`.
pub open spec fn samples_in(span: Duration, rate: u32, channels: usize) -> int {
    least(frames_in(span.nanos as int, rate as int), u32::MAX as int) * channels
}

/// Whether the lead can be computed.
pub open spec fn lead_fits(elapsed: Duration, rate: u32, channels: usize) -> bool {
    &&& elapsed.nanos + READ_AHEAD_NANOS <= MAX_NANOS
    &&& lead_frames(elapsed, rate) * channels <= u128::MAX
}

/// The samples that were written, are not consumed, and may be handed over.
pub open spec fn eligible_of(
    elapsed: Duration,
    rate: u32,
    channels: usize,
    written: usize,
    consumed: usize,
) -> int {
    most(least(allowed_samples(elapsed, rate, channels), written as int) - consumed, 0)
}

/// The most samples within three limits that make up whole frames.
pub open spec fn chunk_of(eligible: int, writable: int, capacity: int, channels: int) -> int {
    least(least(eligible, writable), capacity) / channels * channels
}

proof fn lemma_frames_bound(nanos: int, rate: int)
    requires
        0 <= nanos <= MAX_NANOS,
        0 <= rate <= u32::MAX,
    ensures
        0 <= nanos * rate <= u128::MAX,
        0 <= frames_in(nanos, rate),
{
    assert(0 <= nanos * rate <= MAX_NANOS * u32::MAX) by (nonlinear_arith)
        requires
            0 <= nanos <= MAX_NANOS,
            0 <= rate <= u32::MAX,
    ;
}

/// Whether the samples that may be handed over can be counted.
fn lead_can_be_computed(elapsed: Duration, rate: u32, channels: usize) -> (fits: bool)
    requires
        elapsed.wf(),
    ensures
        fits == lead_fits(elapsed, rate, channels),
{
    if elapsed.nanos > MAX_NANOS - READ_AHEAD_NANOS {
        return false;
    }
    let nanos: u128 = elapsed.nanos + READ_AHEAD_NANOS;
    proof {
        lemma_frames_bound(nanos as int, rate as int);
    }
    let frames: u128 = nanos * rate as u128 / 1_000_000_000;
    let samples = frames.checked_mul(channels as u128);
    samples.is_some()
}

/// The samples that were written, are not consumed, and may be handed over. There is no narrowing
/// on the way: a stream may run for long.
pub fn eligible_samples(
    elapsed: Duration,
    rate: u32,
    channels: usize,
    written: usize,
    consumed: usize,
) -> (samples: usize)
    requires
        lead_fits(elapsed, rate, channels),
    ensures
        samples == eligible_of(elapsed, rate, channels, written, consumed),
{
    let nanos: u128 = elapsed.nanos + READ_AHEAD_NANOS;
    proof {
        lemma_frames_bound(nanos as int, rate as int);
    }
    let frames: u128 = nanos * rate as u128 / 1_000_000_000;
    assert(frames * channels >= 0) by (nonlinear_arith)
        requires
            frames >= 0,
            channels >= 0,
    ;
    let lead: u128 = frames * channels as u128;
    let allowed: usize = if lead > usize::MAX as u128 {
        usize::MAX
    } else {
        lead as usize
    };
    smaller(allowed, written).saturating_sub(consumed)
}

/// The most samples within three limits that make up whole frames.
pub fn chunk_samples(eligible: usize, writable: usize, capacity: usize, channels: usize) -> (samples:
    usize)
    requires
        channels != 0,
    ensures
        samples == chunk_of(eligible as int, writable as int, capacity as int, channels as int),
{
    let samples: usize = smaller(smaller(eligible, writable), capacity);
    proof {
        lemma_fundamental_div_mod(samples as int, channels as int);
        lemma_mul_is_commutative(samples as int / channels as int, channels as int);
    }
    samples / channels * channels
}

/// The frames that play in a span, rounded down, and no more than fit.
pub fn duration_to_frames_u32_saturating(d: Duration, freq: usize) -> (frames: u32)
    requires
        d.nanos * freq <= u128::MAX,
    ensures
        frames == least(frames_in(d.nanos as int, freq as int), u32::MAX as int),
{
    assert(d.nanos * freq >= 0) by (nonlinear_arith)
        requires
            d.nanos >= 0,
            freq >= 0,
    ;
    let samples: u128 = d.nanos * freq as u128 / 1_000_000_000;
    if samples > u32::MAX as u128 {
        u32::MAX
    } else {
        samples as u32
    }
}

/// What happened since the last report.
#[derive(Debug, Clone, Copy, PartialEq, Eq, Structural)]
pub struct PacingStats {
    pub ticks: usize,
    pub samples: usize,
    pub chunks: usize,
    /// Reads that the source could not serve in full.
    pub xruns: usize,
    /// Ticks that ended with samples waiting for the sink.
    pub blocked: usize,
    pub max_gap: Duration,
    pub ring_high_water: usize,
    pub eligible_high_water: usize,
    pub max_tick_samples: usize,
}

impl PacingStats {
    /// Nothing happened yet.
    pub open spec fn none() -> Self {
        PacingStats {
            ticks: 0,
            samples: 0,
            chunks: 0,
            xruns: 0,
            blocked: 0,
            max_gap: Duration { nanos: 0 },
            ring_high_water: 0,
            eligible_high_water: 0,
            max_tick_samples: 0,
        }
    }

    /// Whether `chunks` more chunks of at most `capacity` samples can be counted.
    pub open spec fn room(self, chunks: int, capacity: int) -> bool {
        &&& self.samples + CHUNKS_PER_TICK * capacity <= usize::MAX
        &&& self.chunks + chunks <= usize::MAX
        &&& self.xruns + chunks <= usize::MAX
        &&& self.blocked < usize::MAX
    }
}

impl Default for PacingStats {
    fn default() -> (stats: Self)
        ensures
            stats == PacingStats::none(),
    {
        PacingStats {
            ticks: 0,
            samples: 0,
            chunks: 0,
            xruns: 0,
            blocked: 0,
            max_gap: Duration::zero(),
            ring_high_water: 0,
            eligible_high_water: 0,
            max_tick_samples: 0,
        }
    }
}

/// What is logged from time to time.
#[derive(Debug, Clone, Copy, PartialEq, Eq, Structural)]
pub struct PacingReport {
    pub sample_rate: u32,
    pub channels: usize,
    /// The time that the report covers.
    pub window: Duration,
    pub stats: PacingStats,
}

/// Where in a tick the pacer is.
#[derive(Debug, Clone, Copy, PartialEq, Eq, Structural)]
pub enum PacerPhase {
    /// Waiting for the sink to arrive.
    AwaitingSink,
    /// Waiting for the next tick.
    BetweenTicks,
    /// About to choose the size of a chunk.
    Choosing { chunk: usize },
    /// Waiting for a chunk to be moved.
    Moving { chunk: usize, count: usize },
}

/// What the pacer asks for.
#[derive(Debug, Clone, Copy, PartialEq, Eq, Structural)]
pub enum PacerAction {
    /// Read so many samples from the source and write them to the sink.
    Move(usize),
    /// Let other tasks run, then look at source and sink again.
    Yield,
    /// Wait for the next tick.
    Wait,
    /// Log this, then wait for the next tick.
    Report(PacingReport),
}

/// Decides how many samples move from source to sink at each tick.
#[derive(Debug, Clone, Copy, PartialEq, Eq, Structural)]
pub struct Pacer {
    pub sample_rate: u32,
    pub interval: Duration,
    pub channels: usize,
    /// How many samples a chunk holds at most.
    pub capacity: usize,
    /// When the sink arrived.
    pub start: Instant,
    pub previous_tick: Instant,
    pub report_at: Instant,
    pub tick_samples: usize,
    pub stats: PacingStats,
    pub phase: PacerPhase,
}

impl Pacer {
    /// The samples that play in an interval.
    pub open spec fn interval_samples(self) -> int {
        samples_in(self.interval, self.sample_rate, self.channels)
    }

    /// A pacer whose sink has arrived: its chunks hold an interval, and fit in memory.
    pub open spec fn paces(self) -> bool {
        &&& self.channels != 0
        &&& self.capacity == self.interval_samples()
        &&& 2 * self.capacity <= isize::MAX
        &&& self.start.wf() && self.previous_tick.wf() && self.report_at.wf()
    }

    /// The pacer counts in range and has not moved more than its chunks hold.
    pub open spec fn wf(self) -> bool {
        &&& self.interval.wf()
        &&& self.phase is AwaitingSink || self.paces()
        &&& match self.phase {
            PacerPhase::AwaitingSink => self.capacity == 0,
            PacerPhase::BetweenTicks => true,
            PacerPhase::Choosing { chunk } => {
                &&& chunk < CHUNKS_PER_TICK
                &&& self.tick_samples <= chunk * self.capacity
                &&& self.stats.room(CHUNKS_PER_TICK - chunk, self.capacity as int)
                &&& self.lead_in_range()
            },
            PacerPhase::Moving { chunk, count } => {
                &&& chunk < CHUNKS_PER_TICK
                &&& 0 < count <= self.capacity
                &&& self.tick_samples <= chunk * self.capacity
                &&& self.stats.room(CHUNKS_PER_TICK - chunk, self.capacity as int)
                &&& self.lead_in_range()
            },
        }
    }

    /// A pacer that waits for its sink.
    pub open spec fn fresh(sample_rate: u32, interval: Duration, channels: usize) -> Pacer {
        Pacer {
            sample_rate,
            interval,
            channels,
            capacity: 0,
            start: Duration { nanos: 0 },
            previous_tick: Duration { nanos: 0 },
            report_at: Duration { nanos: 0 },
            tick_samples: 0,
            stats: PacingStats::none(),
            phase: PacerPhase::AwaitingSink,
        }
    }

    /// The pacer after its sink arrived at `now`.
    pub open spec fn joined(self, now: Instant) -> Pacer {
        Pacer {
            capacity: self.interval_samples() as usize,
            start: now,
            previous_tick: now,
            report_at: now,
            phase: PacerPhase::BetweenTicks,
            ..self
        }
    }

    /// The time since the start, at the latest tick.
    pub open spec fn elapsed(self) -> Duration {
        self.previous_tick.spec_since(self.start)
    }

    /// Whether the lead at the latest tick can be computed.
    pub open spec fn lead_in_range(self) -> bool {
        lead_fits(self.elapsed(), self.sample_rate, self.channels)
    }

    /// Whether a tick at `now` can be counted.
    pub open spec fn tick_in_range(self, now: Instant) -> bool {
        &&& now.wf()
        &&& self.stats.ticks < usize::MAX
        &&& self.stats.room(CHUNKS_PER_TICK as int, self.capacity as int)
        &&& lead_fits(now.spec_since(self.start), self.sample_rate, self.channels)
    }

    /// The pacer after a tick at `now`.
    pub open spec fn ticked(self, now: Instant) -> Pacer {
        let gap = now.spec_since(self.previous_tick);
        Pacer {
            stats: PacingStats {
                ticks: (self.stats.ticks + 1) as usize,
                max_gap: if self.stats.max_gap.nanos >= gap.nanos {
                    self.stats.max_gap
                } else {
                    gap
                },
                ..self.stats
            },
            previous_tick: now,
            tick_samples: 0,
            phase: PacerPhase::Choosing { chunk: 0 },
            ..self
        }
    }

    /// The samples that the source has for the sink.
    pub open spec fn eligible(self, source: RingStats) -> int {
        eligible_of(self.elapsed(), self.sample_rate, self.channels, source.written, source.consumed)
    }

    /// The size of the next chunk.
    pub open spec fn next_chunk(self, source: RingStats, writable: usize) -> int {
        chunk_of(
            self.eligible(source),
            writable as int,
            self.capacity as int,
            self.channels as int,
        )
    }

    /// The pacer at the end of a tick, and what it asks for.
    pub open spec fn tick_ended(self) -> (Pacer, PacerAction) {
        let window = self.previous_tick.spec_since(self.report_at);
        let stats = PacingStats {
            samples: (self.stats.samples + self.tick_samples) as usize,
            max_tick_samples: most(
                self.stats.max_tick_samples as int,
                self.tick_samples as int,
            ) as usize,
            ..self.stats
        };
        if window.nanos >= REPORT_NANOS {
            (
                Pacer {
                    stats: PacingStats::none(),
                    report_at: self.previous_tick,
                    phase: PacerPhase::BetweenTicks,
                    ..self
                },
                PacerAction::Report(
                    PacingReport {
                        sample_rate: self.sample_rate,
                        channels: self.channels,
                        window,
                        stats,
                    },
                ),
            )
        } else {
            (Pacer { stats, phase: PacerPhase::BetweenTicks, ..self }, PacerAction::Wait)
        }
    }

    /// The pacer after a look at source and sink, and what it asks for.
    pub open spec fn looked(self, source: RingStats, writable: usize) -> (Pacer, PacerAction) {
        let eligible = self.eligible(source);
        let count = self.next_chunk(source, writable);
        let stats = PacingStats {
            ring_high_water: most(
                self.stats.ring_high_water as int,
                source.readable as int,
            ) as usize,
            eligible_high_water: most(self.stats.eligible_high_water as int, eligible) as usize,
            blocked: if count == 0 && eligible >= self.channels {
                (self.stats.blocked + 1) as usize
            } else {
                self.stats.blocked
            },
            ..self.stats
        };
        let seen = Pacer { stats, ..self };
        if count == 0 {
            seen.tick_ended()
        } else {
            (
                Pacer {
                    phase: PacerPhase::Moving {
                        chunk: self.phase->Choosing_chunk,
                        count: count as usize,
                    },
                    ..seen
                },
                PacerAction::Move(count as usize),
            )
        }
    }

    /// The pacer after a chunk was moved, and what it asks for.
    pub open spec fn moved(self, complete: bool) -> (Pacer, PacerAction) {
        let chunk = self.phase->Moving_chunk;
        let counted = Pacer {
            stats: PacingStats {
                xruns: if complete {
                    self.stats.xruns
                } else {
                    (self.stats.xruns + 1) as usize
                },
                chunks: (self.stats.chunks + 1) as usize,
                ..self.stats
            },
            tick_samples: (self.tick_samples + self.phase->Moving_count) as usize,
            ..self
        };
        if chunk + 1 < CHUNKS_PER_TICK {
            (
                Pacer { phase: PacerPhase::Choosing { chunk: (chunk + 1) as usize }, ..counted },
                PacerAction::Yield,
            )
        } else {
            counted.tick_ended()
        }
    }

    /// A pacer that waits for its sink.
    pub fn new(sample_rate: u32, interval: Duration, channels: usize) -> (pacer: Self)
        requires
            interval.wf(),
        ensures
            pacer.wf(),
            pacer == Pacer::fresh(sample_rate, interval, channels),
    {
        Pacer {
            sample_rate,
            interval,
            channels,
            capacity: 0,
            start: Duration::zero(),
            previous_tick: Duration::zero(),
            report_at: Duration::zero(),
            tick_samples: 0,
            stats: PacingStats::default(),
            phase: PacerPhase::AwaitingSink,
        }
    }

    /// Starts the clock when the sink arrives. Chunks hold one interval.
    pub fn sink_arrived(&mut self, now: Instant)
        requires
            old(self).wf(),
            old(self).phase is AwaitingSink,
            old(self).channels != 0,
            2 * old(self).interval_samples() <= isize::MAX,
            now.wf(),
        ensures
            final(self).wf(),
            *final(self) == old(self).joined(now),
    {
        proof {
            lemma_frames_bound(self.interval.nanos as int, self.sample_rate as int);
        }
        let frames: u32 = duration_to_frames_u32_saturating(
            self.interval,
            self.sample_rate as usize,
        );
        assert(0 <= frames * self.channels) by (nonlinear_arith)
            requires
                frames >= 0,
                self.channels >= 0,
        ;
        self.capacity = frames as usize * self.channels;
        self.start = now;
        self.previous_tick = now;
        self.report_at = now;
        self.phase = PacerPhase::BetweenTicks;
    }

    /// Whether a tick at `now` can be counted.
    pub fn can_tick(&self, now: Instant) -> (can: bool)
        requires
            self.wf(),
            now.wf(),
        ensures
            can == self.tick_in_range(now),
    {
        let two: usize = CHUNKS_PER_TICK;
        self.stats.ticks < usize::MAX && self.stats.samples <= usize::MAX - two * self.capacity
            && self.stats.chunks <= usize::MAX - two && self.stats.xruns <= usize::MAX - two
            && self.stats.blocked < usize::MAX && lead_can_be_computed(
            now.since(self.start),
            self.sample_rate,
            self.channels,
        )
    }

    /// Begins a tick.
    pub fn tick(&mut self, now: Instant)
        requires
            old(self).wf(),
            old(self).phase is BetweenTicks,
            old(self).tick_in_range(now),
        ensures
            final(self).wf(),
            *final(self) == old(self).ticked(now),
    {
        self.stats.ticks = self.stats.ticks + 1;
        self.stats.max_gap = self.stats.max_gap.longer(now.since(self.previous_tick));
        self.previous_tick = now;
        self.tick_samples = 0;
        self.phase = PacerPhase::Choosing { chunk: 0 };
    }

    /// Ends a tick.
    fn end_tick(&mut self) -> (action: PacerAction)
        requires
            old(self).interval.wf(),
            old(self).paces(),
            old(self).stats.samples + old(self).tick_samples <= usize::MAX,
        ensures
            final(self).wf(),
            (*final(self), action) == old(self).tick_ended(),
    {
        self.stats.samples = self.stats.samples + self.tick_samples;
        self.stats.max_tick_samples = larger(self.stats.max_tick_samples, self.tick_samples);
        self.phase = PacerPhase::BetweenTicks;
        let window = self.previous_tick.since(self.report_at);
        if window.nanos >= REPORT_NANOS {
            let stats = self.stats;
            self.stats = PacingStats::default();
            self.report_at = self.previous_tick;
            PacerAction::Report(
                PacingReport {
                    sample_rate: self.sample_rate,
                    channels: self.channels,
                    window,
                    stats,
                },
            )
        } else {
            PacerAction::Wait
        }
    }

    /// Chooses the next chunk, from the counters of the source and what the sink can take.
    pub fn look(&mut self, source: RingStats, writable: usize) -> (action: PacerAction)
        requires
            old(self).wf(),
            old(self).phase is Choosing,
        ensures
            final(self).wf(),
            (*final(self), action) == old(self).looked(source, writable),
    {
        let elapsed = self.previous_tick.since(self.start);
        let eligible: usize = eligible_samples(
            elapsed,
            self.sample_rate,
            self.channels,
            source.written,
            source.consumed,
        );
        self.stats.ring_high_water = larger(self.stats.ring_high_water, source.readable);
        self.stats.eligible_high_water = larger(self.stats.eligible_high_water, eligible);
        let count: usize = chunk_samples(eligible, writable, self.capacity, self.channels);
        proof {
            lemma_chunk_bounds(
                eligible as int,
                writable as int,
                self.capacity as int,
                self.channels as int,
            );
        }
        if count == 0 {
            if eligible >= self.channels {
                self.stats.blocked = self.stats.blocked + 1;
            }
            return self.end_tick();
        }
        if let PacerPhase::Choosing { chunk } = self.phase {
            self.phase = PacerPhase::Moving { chunk, count };
        }
        PacerAction::Move(count)
    }

    /// Counts a chunk that was moved; `complete` says whether the source had all of its samples.
    pub fn chunk_moved(&mut self, complete: bool) -> (action: PacerAction)
        requires
            old(self).wf(),
            old(self).phase is Moving,
        ensures
            final(self).wf(),
            (*final(self), action) == old(self).moved(complete),
    {
        if let PacerPhase::Moving { chunk, count } = self.phase {
            if !complete {
                self.stats.xruns = self.stats.xruns + 1;
            }
            self.stats.chunks = self.stats.chunks + 1;
            assert(chunk * self.capacity <= self.capacity) by (nonlinear_arith)
                requires
                    chunk <= 1,
                    self.capacity >= 0,
            ;
            self.tick_samples = self.tick_samples + count;
            assert((chunk + 1) * self.capacity == chunk * self.capacity + self.capacity)
                by (nonlinear_arith);
            if chunk + 1 < CHUNKS_PER_TICK {
                self.phase = PacerPhase::Choosing { chunk: chunk + 1 };
                return PacerAction::Yield;
            }
        }
        self.end_tick()
    }
}

/// The samples that the ring of a loopback pair holds.
pub open spec fn ring_samples(sample_rate: u32, channels_per_frame: usize) -> int {
    samples_in(Duration { nanos: INTERVAL_NANOS }, sample_rate, channels_per_frame)
        * RING_INTERVAL_MULTIPLIER
}

/// Together with [PcmProxyRecorder] a loopback pair of player and recorder that exchange PCM samples
/// through a ring at the pace of a clock. It keeps the ring `G`, the source `S`, the channel end `R`
/// that delivers the sink, and the running task `T` of its caller.
#[derive(Debug)]
pub struct PcmProxyPlayer<G, S, R, T> {
    pub ring: Option<G>,
    pub source: Option<S>,
    pub task: Option<T>,
    pub sample_rate: u32,
    pub channels_per_frame: usize,
    pub interval: Duration,
    pub receiver: Option<R>,
    pub limit: usize,
}

/// The recorder of a loopback pair. It keeps the channel end `C` that accepts the sink.
#[derive(Debug)]
pub struct PcmProxyRecorder<C> {
    pub sender: C,
}

impl<C> PcmProxyRecorder<C> {
    /// A recorder that sends its sink into `sender`.
    pub fn new(sender: C) -> (recorder: Self)
        ensures
            recorder.sender == sender,
    {
        PcmProxyRecorder { sender }
    }
}

impl<G, S, R, T> PcmProxyPlayer<G, S, R, T> {
    /// The ring is given up when the source arrives, and the receiver goes to the task together
    /// with the source.
    pub open spec fn wf(self) -> bool {
        &&& self.ring is Some ==> self.source is None && self.task is None && self.receiver is Some
        &&& self.source is Some ==> self.receiver is Some
    }

    /// A player that has no source yet.
    pub fn new(
        ring: G,
        sample_rate: u32,
        interval: Duration,
        channels_per_frame: usize,
        receiver: R,
        limit: usize,
    ) -> (player: Self)
        ensures
            player.wf(),
            player == (PcmProxyPlayer::<G, S, R, T> {
                ring: Some(ring),
                source: None,
                task: None,
                sample_rate,
                channels_per_frame,
                interval,
                receiver: Some(receiver),
                limit,
            }),
    {
        PcmProxyPlayer {
            ring: Some(ring),
            source: None,
            task: None,
            sample_rate,
            channels_per_frame,
            interval,
            receiver: Some(receiver),
            limit,
        }
    }

    /// How many samples the ring of a pair holds: 500 ms in intervals of 10 ms.
    pub fn ring_size_samples(sample_rate: u32, channels_per_frame: usize) -> (samples: usize)
        requires
            ring_samples(sample_rate, channels_per_frame) <= usize::MAX,
        ensures
            samples == ring_samples(sample_rate, channels_per_frame),
    {
        let interval = Duration { nanos: INTERVAL_NANOS };
        proof {
            lemma_frames_bound(interval.nanos as int, sample_rate as int);
        }
        let frames: u32 = duration_to_frames_u32_saturating(interval, sample_rate as usize);
        assert(0 <= frames * channels_per_frame <= frames * channels_per_frame
            * RING_INTERVAL_MULTIPLIER) by (nonlinear_arith)
            requires
                frames >= 0,
                channels_per_frame >= 0,
                RING_INTERVAL_MULTIPLIER == 50,
        ;
        frames as usize * channels_per_frame * RING_INTERVAL_MULTIPLIER
    }

    /// A player and a recorder at the two ends of a channel, around a ring of
    /// [ring_size_samples](Self::ring_size_samples) samples.
    pub fn pair<C>(
        sample_rate: u32,
        channels_per_frame: usize,
        ring: G,
        sender: C,
        receiver: R,
    ) -> (pair: (Self, PcmProxyRecorder<C>))
        requires
            ring_samples(sample_rate, channels_per_frame) <= usize::MAX,
        ensures
            pair.0.wf(),
            pair.0 == (PcmProxyPlayer::<G, S, R, T> {
                ring: Some(ring),
                source: None,
                task: None,
                sample_rate,
                channels_per_frame,
                interval: Duration { nanos: INTERVAL_NANOS },
                receiver: Some(receiver),
                limit: ring_samples(sample_rate, channels_per_frame) as usize,
            }),
            pair.1.sender == sender,
    {
        let limit: usize = Self::ring_size_samples(sample_rate, channels_per_frame);
        let interval = Duration { nanos: INTERVAL_NANOS };
        let player = Self::new(ring, sample_rate, interval, channels_per_frame, receiver, limit);
        (player, PcmProxyRecorder::new(sender))
    }

    /// Takes the source, once, and gives up the ring.
    pub fn init(&mut self, source: S)
        requires
            old(self).wf(),
            old(self).ring is Some,
        ensures
            final(self).wf(),
            *final(self) == (PcmProxyPlayer { ring: None, source: Some(source), ..*old(self) }),
    {
        self.ring = None;
        self.source = Some(source);
    }

    /// What a new task needs, or nothing where a task runs already or there is no source.
    pub fn start(&mut self) -> (parts: Option<(S, R)>)
        requires
            old(self).wf(),
        ensures
            final(self).wf(),
            old(self).task is Some || old(self).source is None ==> parts is None && *final(self)
                == *old(self),
            old(self).task is None && old(self).source is Some ==> parts == Some(
                (old(self).source->0, old(self).receiver->0),
            ) && *final(self) == (PcmProxyPlayer { source: None, receiver: None, ..*old(self) }),
    {
        if self.task.is_some() {
            return None;
        }
        match self.source.take() {
            None => None,
            Some(source) => match self.receiver.take() {
                None => None,
                Some(receiver) => Some((source, receiver)),
            },
        }
    }

    /// Keeps the task that was made of what [start](Self::start) gave.
    pub fn started(&mut self, task: T)
        requires
            old(self).wf(),
            old(self).ring is None,
        ensures
            final(self).wf(),
            *final(self) == (PcmProxyPlayer { task: Some(task), ..*old(self) }),
    {
        self.task = Some(task);
    }

    /// The task to abort, if one runs. Dropping a player stops it too.
    pub fn stop(&mut self, drain: bool) -> (task: Option<T>)
        requires
            old(self).wf(),
        ensures
            final(self).wf(),
            task == old(self).task,
            *final(self) == (PcmProxyPlayer { task: None, ..*old(self) }),
    {
        self.task.take()
    }
}

proof fn lemma_chunk_bounds(eligible: int, writable: int, capacity: int, channels: int)
    requires
        0 <= eligible,
        0 <= writable,
        0 <= capacity,
        0 < channels,
    ensures
        0 <= chunk_of(eligible, writable, capacity, channels) <= least(
            least(eligible, writable),
            capacity,
        ),
        least(least(eligible, writable), capacity) - chunk_of(
            eligible,
            writable,
            capacity,
            channels,
        ) < channels,
        chunk_of(eligible, writable, capacity, channels) % channels == 0,
{
    let limit = least(least(eligible, writable), capacity);
    lemma_fundamental_div_mod(limit, channels);
    lemma_mul_is_commutative(limit / channels, channels);
    lemma_mod_multiples_basic(limit / channels, channels);
    assert(limit / channels * channels >= 0) by (nonlinear_arith)
        requires
            limit >= 0,
            channels > 0,
    ;
}

/// What happens to a pacer.
#[derive(Debug, Clone, Copy, PartialEq, Eq, Structural)]
pub enum PacerEvent {
    SinkArrived { now: Instant },
    Tick { now: Instant },
    /// Source and sink are looked at: the counters of the one, and what the other can take.
    Look { source: RingStats, writable: usize },
    /// A chunk was read from the source and written to the sink.
    Moved { complete: bool },
}

impl Pacer {
    /// Whether the event can come now.
    pub open spec fn expects(self, event: PacerEvent) -> bool {
        match event {
            PacerEvent::SinkArrived { now } => {
                &&& self.phase is AwaitingSink
                &&& self.channels != 0
                &&& 2 * self.interval_samples() <= isize::MAX
                &&& now.wf()
            },
            PacerEvent::Tick { now } => self.phase is BetweenTicks && self.tick_in_range(now),
            PacerEvent::Look { .. } => self.phase is Choosing,
            PacerEvent::Moved { .. } => self.phase is Moving,
        }
    }

    /// The pacer after an event.
    pub open spec fn next(self, event: PacerEvent) -> Pacer {
        match event {
            PacerEvent::SinkArrived { now } => self.joined(now),
            PacerEvent::Tick { now } => self.ticked(now),
            PacerEvent::Look { source, writable } => self.looked(source, writable).0,
            PacerEvent::Moved { complete } => self.moved(complete).0,
        }
    }

    /// How many samples the pacer asks to be moved at an event. Only a look at source and sink makes
    /// it ask.
    pub open spec fn asks(self, event: PacerEvent) -> Option<usize> {
        match event {
            PacerEvent::Look { source, writable } => match self.looked(source, writable).1 {
                PacerAction::Move(count) => Some(count),
                _ => None,
            },
            _ => None,
        }
    }

    /// The pacer after a run of events.
    pub open spec fn after(self, events: Seq<PacerEvent>) -> Pacer
        decreases events.len(),
    {
        if events.len() == 0 {
            self
        } else {
            self.after(events.drop_last()).next(events.last())
        }
    }

    /// Whether each event of a run comes when it can.
    pub open spec fn allows(self, events: Seq<PacerEvent>) -> bool
        decreases events.len(),
    {
        events.len() > 0 ==> {
            &&& self.allows(events.drop_last())
            &&& self.after(events.drop_last()).expects(events.last())
        }
    }

    /// How many chunks a run asked for since its latest tick.
    pub open spec fn chunks_in_tick(self, events: Seq<PacerEvent>) -> nat
        decreases events.len(),
    {
        if events.len() == 0 || events.last() is Tick {
            0
        } else {
            self.chunks_in_tick(events.drop_last()) + if self.after(events.drop_last()).asks(
                events.last(),
            ) is Some {
                1nat
            } else {
                0
            }
        }
    }
}

/// When the sink arrived in a run.
pub open spec fn arrival(events: Seq<PacerEvent>) -> Option<Instant>
    decreases events.len(),
{
    if events.len() == 0 {
        None
    } else {
        match events.last() {
            PacerEvent::SinkArrived { now } => Some(now),
            _ => arrival(events.drop_last()),
        }
    }
}

/// When the latest tick of a run was.
pub open spec fn latest_tick(events: Seq<PacerEvent>) -> Option<Instant>
    decreases events.len(),
{
    if events.len() == 0 {
        None
    } else {
        match events.last() {
            PacerEvent::Tick { now } => Some(now),
            _ => latest_tick(events.drop_last()),
        }
    }
}

/// What is promised of the event at `i` in a run: samples move only once the sink has arrived and a
/// tick has come, in one of the two chunks of that tick; they are whole frames within the buffer, the
/// sink and what is eligible at the tick; the move comes before anything else; and a look that finds
/// no whole frame ends the tick.
pub open spec fn paced_at(pacer: Pacer, events: Seq<PacerEvent>, i: int) -> bool {
    let before = events.take(i);
    let state = pacer.after(before);
    let (rate, channels) = (pacer.sample_rate, pacer.channels);
    &&& state.asks(events[i]) matches Some(count) ==> {
        &&& arrival(before) is Some
        &&& latest_tick(before) is Some
        &&& pacer.chunks_in_tick(before) < CHUNKS_PER_TICK
        &&& 0 < count <= pacer.interval_samples()
        &&& count as int % channels as int == 0
        &&& events[i] matches PacerEvent::Look { source, writable } && {
            &&& count <= writable
            &&& count <= eligible_of(
                latest_tick(before)->0.spec_since(arrival(before)->0),
                rate,
                channels,
                source.written,
                source.consumed,
            )
            &&& source.consumed + count <= source.written
        }
        &&& i + 1 < events.len() ==> events[i + 1] is Moved
    }
    &&& events[i] matches PacerEvent::Look { source, writable } ==> {
        let elapsed = latest_tick(before)->0.spec_since(arrival(before)->0);
        let eligible = eligible_of(elapsed, rate, channels, source.written, source.consumed);
        let count = chunk_of(
            eligible,
            writable as int,
            pacer.interval_samples(),
            channels as int,
        );
        &&& count == 0 ==> state.asks(events[i]) is None && pacer.after(
            events.take(i + 1),
        ).phase is BetweenTicks
        &&& count != 0 ==> state.asks(events[i]) == Some(count as usize)
    }
}

/// What a run keeps.
spec fn run_kept(pacer: Pacer, events: Seq<PacerEvent>) -> bool {
    let state = pacer.after(events);
    &&& state.wf()
    &&& state.sample_rate == pacer.sample_rate
    &&& state.interval == pacer.interval
    &&& state.channels == pacer.channels
    &&& match arrival(events) {
        None => state.phase is AwaitingSink,
        Some(start) => state.start == start && !(state.phase is AwaitingSink),
    }
    &&& match state.phase {
        PacerPhase::Choosing { chunk } => latest_tick(events) == Some(state.previous_tick)
            && pacer.chunks_in_tick(events) == chunk,
        PacerPhase::Moving { chunk, .. } => latest_tick(events) == Some(state.previous_tick)
            && pacer.chunks_in_tick(events) == chunk + 1,
        _ => true,
    }
    &&& events.len() > 0 && pacer.after(events.drop_last()).asks(events.last()) is Some
        ==> state.phase is Moving
}

proof fn lemma_step_keeps_wf(pacer: Pacer, event: PacerEvent)
    requires
        pacer.wf(),
        pacer.expects(event),
    ensures
        pacer.next(event).wf(),
        pacer.asks(event) is Some <==> pacer.next(event).phase is Moving,
        match event {
            PacerEvent::SinkArrived { .. } => pacer.next(event).phase is BetweenTicks,
            PacerEvent::Tick { .. } => pacer.next(event).phase == (PacerPhase::Choosing { chunk: 0 }),
            PacerEvent::Look { .. } => pacer.next(event).phase is BetweenTicks || {
                &&& pacer.next(event).phase is Moving
                &&& pacer.next(event).phase->Moving_chunk == pacer.phase->Choosing_chunk
            },
            PacerEvent::Moved { .. } => pacer.next(event).phase is BetweenTicks || pacer.next(
                event,
            ).phase == (PacerPhase::Choosing { chunk: (pacer.phase->Moving_chunk + 1) as usize }),
        },
{
    match event {
        PacerEvent::SinkArrived { .. } => {
            lemma_frames_bound(pacer.interval.nanos as int, pacer.sample_rate as int);
            assert(pacer.interval_samples() >= 0) by (nonlinear_arith)
                requires
                    pacer.interval_samples() == least(
                        frames_in(pacer.interval.nanos as int, pacer.sample_rate as int),
                        u32::MAX as int,
                    ) * pacer.channels,
                    frames_in(pacer.interval.nanos as int, pacer.sample_rate as int) >= 0,
                    pacer.channels >= 0,
            ;
        },
        PacerEvent::Look { source, writable } => {
            lemma_chunk_bounds(
                pacer.eligible(source),
                writable as int,
                pacer.capacity as int,
                pacer.channels as int,
            );
        },
        PacerEvent::Moved { .. } => {
            let chunk = pacer.phase->Moving_chunk;
            assert((chunk + 1) * pacer.capacity == chunk * pacer.capacity + pacer.capacity)
                by (nonlinear_arith);
        },
        _ => {},
    }
}

proof fn lemma_run_kept(pacer: Pacer, events: Seq<PacerEvent>)
    requires
        pacer == Pacer::fresh(pacer.sample_rate, pacer.interval, pacer.channels),
        pacer.interval.wf(),
        pacer.allows(events),
    ensures
        run_kept(pacer, events),
    decreases events.len(),
{
    if events.len() > 0 {
        let front = events.drop_last();
        lemma_run_kept(pacer, front);
        lemma_step_keeps_wf(pacer.after(front), events.last());
    }
}

proof fn lemma_allows_front(pacer: Pacer, events: Seq<PacerEvent>, count: int)
    requires
        pacer.allows(events),
        0 <= count <= events.len(),
    ensures
        pacer.allows(events.take(count)),
    decreases events.len() - count,
{
    if count < events.len() {
        lemma_allows_front(pacer, events, count + 1);
        assert(events.take(count + 1).drop_last() =~= events.take(count));
    } else {
        assert(events.take(count) =~= events);
    }
}

/// Over any run of ticks and looks, from a player without a sink on: nothing is read before the sink
/// arrives; each tick moves at most two chunks; and each chunk consists of whole frames and keeps to
/// the buffer, to what the sink takes and to what is eligible at that tick. Where no whole frame is
/// within these limits, the tick ends without a read.
pub proof fn law_every_run_is_paced(
    sample_rate: u32,
    interval: Duration,
    channels: usize,
    events: Seq<PacerEvent>,
)
    requires
        interval.wf(),
        Pacer::fresh(sample_rate, interval, channels).allows(events),
    ensures
        forall|i: int|
            0 <= i < events.len() ==> #[trigger] paced_at(
                Pacer::fresh(sample_rate, interval, channels),
                events,
                i,
            ),
{
    let pacer = Pacer::fresh(sample_rate, interval, channels);
    assert forall|i: int| 0 <= i < events.len() implies #[trigger] paced_at(pacer, events, i) by {
        let before = events.take(i);
        let upto = events.take(i + 1);
        lemma_allows_front(pacer, events, i);
        lemma_allows_front(pacer, events, i + 1);
        lemma_run_kept(pacer, before);
        lemma_run_kept(pacer, upto);
        assert(upto.drop_last() =~= before);
        assert(upto.last() == events[i]);
        let state = pacer.after(before);
        if let PacerEvent::Look { source, writable } = events[i] {
            lemma_chunk_bounds(
                state.eligible(source),
                writable as int,
                state.capacity as int,
                state.channels as int,
            );
        }
        if i + 1 < events.len() {
            let longer = events.take(i + 2);
            lemma_allows_front(pacer, events, i + 2);
            assert(longer.drop_last() =~= upto);
            assert(longer.last() == events[i + 1]);
        }
    }
}

/// A chunk consists of whole frames, fits in the buffer and in the sink, was written by the
/// source, and keeps the sink within its lead.
pub proof fn law_chunks_keep_all_limits(pacer: Pacer, source: RingStats, writable: usize)
    requires
        pacer.wf(),
        pacer.phase is Choosing,
    ensures
        pacer.looked(source, writable).1 matches PacerAction::Move(count) ==> {
            &&& 0 < count <= pacer.capacity
            &&& count as int % pacer.channels as int == 0
            &&& count <= writable
            &&& source.consumed + count <= source.written
            &&& source.consumed + count <= allowed_samples(
                pacer.elapsed(),
                pacer.sample_rate,
                pacer.channels,
            )
        },
{
    let eligible = pacer.eligible(source);
    lemma_chunk_bounds(
        eligible,
        writable as int,
        pacer.capacity as int,
        pacer.channels as int,
    );
}

/// A chunk moves if and only if source, sink and buffer all have a whole frame.
pub proof fn law_a_whole_frame_moves(pacer: Pacer, source: RingStats, writable: usize)
    requires
        pacer.wf(),
        pacer.phase is Choosing,
    ensures
        pacer.looked(source, writable).1 is Move <==> {
            &&& pacer.eligible(source) >= pacer.channels
            &&& writable >= pacer.channels
            &&& pacer.capacity >= pacer.channels
        },
{
    let eligible = pacer.eligible(source);
    let limit = least(least(eligible, writable as int), pacer.capacity as int);
    lemma_chunk_bounds(
        eligible,
        writable as int,
        pacer.capacity as int,
        pacer.channels as int,
    );
    if limit < pacer.channels {
        lemma_small_mod(limit as nat, pacer.channels as nat);
        lemma_fundamental_div_mod(limit, pacer.channels as int);
        lemma_mul_is_commutative(limit / pacer.channels as int, pacer.channels as int);
    }
}

/// Each tick moves at most two chunks, with other tasks let in between, and the time of the tick
/// is the same for both.
pub proof fn law_catching_up_is_bounded(
    pacer: Pacer,
    now: Instant,
    first: RingStats,
    first_writable: usize,
    first_complete: bool,
    second: RingStats,
    second_writable: usize,
    second_complete: bool,
)
    requires
        pacer.wf(),
        pacer.phase is BetweenTicks,
        pacer.tick_in_range(now),
    ensures
        ({
            let looked = pacer.ticked(now).looked(first, first_writable);
            let moved = looked.0.moved(first_complete);
            let again = moved.0.looked(second, second_writable);
            let done = again.0.moved(second_complete);
            &&& looked.1 !is Move ==> looked.0.phase is BetweenTicks
            &&& looked.1 is Move ==> moved.1 is Yield && moved.0.previous_tick == now
            &&& looked.1 is Move && again.1 !is Move ==> again.0.phase is BetweenTicks
            &&& looked.1 is Move && again.1 is Move ==> {
                &&& done.0.phase is BetweenTicks
                &&& done.0.tick_samples <= 2 * pacer.capacity
            }
        }),
{
    let looked = pacer.ticked(now).looked(first, first_writable);
    if looked.1 is Move {
        law_chunks_keep_all_limits(pacer.ticked(now), first, first_writable);
        let moved = looked.0.moved(first_complete);
        let again = moved.0.looked(second, second_writable);
        if again.1 is Move {
            assert(moved.0.tick_samples <= moved.0.capacity);
            law_chunks_keep_all_limits(moved.0, second, second_writable);
        }
    }
}

/// More time, or more samples written, never makes fewer samples eligible.
pub proof fn law_eligible_grows(
    elapsed: Duration,
    later: Duration,
    rate: u32,
    channels: usize,
    written: usize,
    more: usize,
    consumed: usize,
)
    requires
        elapsed.nanos <= later.nanos,
        written <= more,
    ensures
        eligible_of(elapsed, rate, channels, written, consumed) <= eligible_of(
            later,
            rate,
            channels,
            more,
            consumed,
        ),
{
    let a = elapsed.nanos + READ_AHEAD_NANOS;
    let b = later.nanos + READ_AHEAD_NANOS;
    lemma_mul_inequality(a, b, rate as int);
    lemma_div_is_ordered(a * rate, b * rate, 1_000_000_000);
    lemma_mul_inequality(lead_frames(elapsed, rate), lead_frames(later, rate), channels as int);
}

proof fn lemma_frames(nanos: int, rate: int)
    requires
        0 <= nanos,
        0 <= rate,
    ensures
        0 <= frames_in(nanos, rate),
        frames_in(nanos, rate) * 1_000_000_000 <= nanos * rate < (frames_in(nanos, rate) + 1)
            * 1_000_000_000,
{
    assert(0 <= nanos * rate) by (nonlinear_arith)
        requires
            0 <= nanos,
            0 <= rate,
    ;
    lemma_fundamental_div_mod(nanos * rate, 1_000_000_000);
}

/// The sink may be as many whole frames ahead of the start as play in the time that has passed and 150
/// ms more, all channels of each, and no sample more.
pub proof fn law_lead_is_150_ms(elapsed: Duration, rate: u32, channels: usize)
    ensures
        ({
            let frames = lead_frames(elapsed, rate);
            let allowed = allowed_samples(elapsed, rate, channels);
            &&& 0 <= frames
            &&& frames * 1_000_000_000 <= (elapsed.nanos + 150_000_000) * rate < (frames + 1)
                * 1_000_000_000
            &&& frames * channels <= usize::MAX ==> allowed == frames * channels
            &&& frames * channels > usize::MAX ==> allowed == usize::MAX
        }),
{
    lemma_frames(elapsed.nanos + READ_AHEAD_NANOS, rate as int);
}

/// What is eligible reaches exactly up to the last sample that was written or that the lead allows,
/// whichever comes first, and nothing is eligible where that many are consumed.
pub proof fn law_eligible_reaches_to_the_first_limit(
    elapsed: Duration,
    rate: u32,
    channels: usize,
    written: usize,
    consumed: usize,
)
    ensures
        ({
            let eligible = eligible_of(elapsed, rate, channels, written, consumed);
            let allowed = allowed_samples(elapsed, rate, channels);
            &&& consumed >= written || consumed >= allowed ==> eligible == 0
            &&& consumed < written <= allowed ==> consumed + eligible == written
            &&& consumed < allowed <= written ==> consumed + eligible == allowed
        }),
{
}

/// A chunk consists of whole frames, keeps to each of three limits, and one more frame would not keep to
/// all of them.
pub proof fn law_chunk_is_the_largest(eligible: int, writable: int, capacity: int, channels: int)
    requires
        0 <= eligible,
        0 <= writable,
        0 <= capacity,
        0 < channels,
    ensures
        ({
            let chunk = chunk_of(eligible, writable, capacity, channels);
            &&& 0 <= chunk
            &&& chunk % channels == 0
            &&& chunk <= eligible && chunk <= writable && chunk <= capacity
            &&& chunk + channels > eligible || chunk + channels > writable || chunk + channels
                > capacity
        }),
{
    lemma_chunk_bounds(eligible, writable, capacity, channels);
}

/// A span holds the frames that play in it, rounded down, with all their channels, up to the most frames
/// that a `u32` counts.
pub proof fn law_span_holds_whole_frames(span: Duration, rate: u32, channels: usize)
    ensures
        ({
            let frames = frames_in(span.nanos as int, rate as int);
            &&& frames * 1_000_000_000 <= span.nanos * rate < (frames + 1) * 1_000_000_000
            &&& frames <= u32::MAX ==> samples_in(span, rate, channels) == frames * channels
            &&& frames > u32::MAX ==> samples_in(span, rate, channels) == u32::MAX * channels
        }),
{
    lemma_frames(span.nanos as int, rate as int);
}

/// The ring holds fifty times the whole frames that play in 10 ms, which a hundred of make up no more
/// than a second.
pub proof fn law_ring_holds_half_a_second(rate: u32, channels: usize, frames: int)
    requires
        frames * 100 <= rate < (frames + 1) * 100,
    ensures
        ring_samples(rate, channels) == frames * channels * 50,
{
    lemma_frames(INTERVAL_NANOS as int, rate as int);
    let counted = frames_in(INTERVAL_NANOS as int, rate as int);
    assert(INTERVAL_NANOS * rate == 10_000_000 * rate);
    assert(counted == frames);
}

/// A tick is counted, and the longest time between ticks is kept.
pub proof fn law_ticks_are_counted(pacer: Pacer, now: Instant)
    requires
        pacer.stats.ticks < usize::MAX,
        pacer.previous_tick.nanos <= now.nanos,
    ensures
        ({
            let ticked = pacer.ticked(now);
            let gap = now.nanos - pacer.previous_tick.nanos;
            &&& ticked.stats.ticks == pacer.stats.ticks + 1
            &&& ticked.stats.max_gap.nanos >= gap
            &&& ticked.stats.max_gap.nanos >= pacer.stats.max_gap.nanos
            &&& ticked.stats.max_gap.nanos == gap || ticked.stats.max_gap == pacer.stats.max_gap
            &&& ticked.stats == (PacingStats {
                ticks: ticked.stats.ticks,
                max_gap: ticked.stats.max_gap,
                ..pacer.stats
            })
            &&& ticked.previous_tick == now
            &&& ticked.tick_samples == 0
        }),
{
}

/// The statistics at the end of a tick: with the samples of the tick, and with the most that a tick had.
/// They are reported, and start over, once 5 s have passed since the last report; else they go on.
pub proof fn law_reports_come_every_5_s(pacer: Pacer)
    requires
        pacer.stats.samples + pacer.tick_samples <= usize::MAX,
        pacer.report_at.nanos <= pacer.previous_tick.nanos,
    ensures
        ({
            let (ended, action) = pacer.tick_ended();
            let window = pacer.previous_tick.nanos - pacer.report_at.nanos;
            let stats = match action {
                PacerAction::Report(report) => report.stats,
                _ => ended.stats,
            };
            &&& action is Report <==> window >= 5_000_000_000
            &&& action is Report || action is Wait
            &&& stats.samples == pacer.stats.samples + pacer.tick_samples
            &&& stats.max_tick_samples >= pacer.tick_samples
            &&& stats.max_tick_samples >= pacer.stats.max_tick_samples
            &&& stats.max_tick_samples == pacer.tick_samples || stats.max_tick_samples
                == pacer.stats.max_tick_samples
            &&& stats == (PacingStats {
                samples: stats.samples,
                max_tick_samples: stats.max_tick_samples,
                ..pacer.stats
            })
            &&& action matches PacerAction::Report(report) ==> {
                &&& report.window.nanos == window
                &&& report.sample_rate == pacer.sample_rate
                &&& report.channels == pacer.channels
                &&& ended.stats.ticks == 0 && ended.stats.samples == 0 && ended.stats.chunks == 0
                &&& ended.stats.xruns == 0 && ended.stats.blocked == 0
                &&& ended.stats.max_gap.nanos == 0 && ended.stats.ring_high_water == 0
                &&& ended.stats.eligible_high_water == 0 && ended.stats.max_tick_samples == 0
                &&& ended.report_at == pacer.previous_tick
            }
            &&& action is Wait ==> ended.report_at == pacer.report_at
            &&& ended.phase is BetweenTicks
        }),
{
}

/// A look at source and sink that moves something keeps the fullest that the ring and the lead were. One
/// that moves nothing ends the tick, as blocked where a whole frame was eligible.
pub proof fn law_looks_are_counted(pacer: Pacer, source: RingStats, writable: usize)
    requires
        pacer.wf(),
        pacer.phase is Choosing,
    ensures
        ({
            let (looked, action) = pacer.looked(source, writable);
            let eligible = pacer.eligible(source);
            let ring = if source.readable >= pacer.stats.ring_high_water {
                source.readable
            } else {
                pacer.stats.ring_high_water
            };
            let lead = if eligible >= pacer.stats.eligible_high_water {
                eligible
            } else {
                pacer.stats.eligible_high_water as int
            };
            let seen = PacingStats {
                ring_high_water: ring,
                eligible_high_water: lead as usize,
                ..pacer.stats
            };
            &&& action is Move ==> looked.stats == seen && looked.tick_samples == pacer.tick_samples
            &&& action !is Move ==> (looked, action) == (Pacer {
                stats: if eligible >= pacer.channels {
                    PacingStats { blocked: (pacer.stats.blocked + 1) as usize, ..seen }
                } else {
                    seen
                },
                ..pacer
            }).tick_ended()
        }),
{
    lemma_chunk_bounds(
        pacer.eligible(source),
        writable as int,
        pacer.capacity as int,
        pacer.channels as int,
    );
}

/// A chunk that was moved is counted with its samples, and as an underrun where the source did not have
/// all of them. After the first of a tick others are let in; the second ends the tick.
pub proof fn law_moves_are_counted(pacer: Pacer, complete: bool)
    requires
        pacer.wf(),
        pacer.phase is Moving,
    ensures
        ({
            let (moved, action) = pacer.moved(complete);
            let counted = Pacer {
                stats: PacingStats {
                    chunks: (pacer.stats.chunks + 1) as usize,
                    xruns: (pacer.stats.xruns + if complete {
                        0int
                    } else {
                        1
                    }) as usize,
                    ..pacer.stats
                },
                tick_samples: (pacer.tick_samples + pacer.phase->Moving_count) as usize,
                ..pacer
            };
            &&& pacer.phase->Moving_chunk == 0 ==> (moved, action) == (
                Pacer { phase: PacerPhase::Choosing { chunk: 1 }, ..counted },
                PacerAction::Yield,
            )
            &&& pacer.phase->Moving_chunk != 0 ==> (moved, action) == counted.tick_ended()
        }),
{
}

/// The sink starts the clock: from then on a chunk holds what plays in an interval, and nothing has been
/// handed over or reported yet. A tick can be counted as long as the counters have room for it and the
/// lead is a number.
pub proof fn law_sink_starts_the_clock(
    rate: u32,
    interval: Duration,
    channels: usize,
    arrived: Instant,
    now: Instant,
)
    requires
        interval.wf(),
        2 * samples_in(interval, rate, channels) <= isize::MAX,
        channels != 0,
        arrived.wf() && now.wf(),
        arrived.nanos <= now.nanos,
        now.nanos + 150_000_000 <= MAX_NANOS,
        lead_frames(now.spec_since(arrived), rate) * channels <= u128::MAX,
    ensures
        ({
            let waiting = Pacer::fresh(rate, interval, channels);
            let pacer = waiting.joined(arrived);
            &&& waiting.wf() && waiting.phase is AwaitingSink
            &&& pacer.wf() && pacer.phase is BetweenTicks
            &&& pacer.capacity == samples_in(interval, rate, channels)
            &&& pacer.start == arrived && pacer.previous_tick == arrived && pacer.report_at == arrived
            &&& pacer.sample_rate == rate && pacer.channels == channels
            &&& pacer.stats.ticks == 0 && pacer.stats.samples == 0 && pacer.stats.chunks == 0
            &&& pacer.stats.xruns == 0 && pacer.stats.blocked == 0
            &&& pacer.tick_in_range(now)
            &&& pacer.ticked(now).wf()
            &&& pacer.ticked(now).phase is Choosing
            &&& pacer.ticked(now).elapsed().nanos == now.nanos - arrived.nanos
        }),
{
    let waiting = Pacer::fresh(rate, interval, channels);
    lemma_step_keeps_wf(waiting, PacerEvent::SinkArrived { now: arrived });
    let pacer = waiting.joined(arrived);
    lemma_step_keeps_wf(pacer, PacerEvent::Tick { now });
}

}
