use std::sync::{Arc, Mutex};
use std::time::Duration as StdDuration;

use catplay::audio::{RingStats, WriteReport};
use catplay::pcm_proxy::{
    chunk_samples, duration_to_frames_u32_saturating, eligible_samples, Pacer, PacerAction, PacerPhase, PacingStats,
    PcmProxyPlayer, PcmProxyRecorder,
};
use catplay::rtp_sink::RtpSink;
use catplay::time::Duration;
use tokio::sync::mpsc;
use tokio::task::JoinHandle;
use tokio::time::{Instant, MissedTickBehavior};

#[derive(Default)]
struct Progress {
    consumed: usize,
    written: usize,
    writable: usize,
    reads: Vec<usize>,
    writes: Vec<usize>,
    buffer_addresses: Vec<usize>,
}

trait AudioSink: Send {
    fn writable(&mut self) -> usize;
    fn write(&mut self, buf: &[i16]);
}

struct Source(Arc<Mutex<Progress>>);

impl Source {
    fn stat_raw(&mut self) -> RingStats {
        let p = self.0.lock().unwrap();
        RingStats {
            capacity: 48_000,
            written: p.written,
            consumed: p.consumed,
            readable: p.written.saturating_sub(p.consumed),
            overflow: 0,
            underflow: 0,
        }
    }

    fn read(&mut self, buf: &mut [i16]) -> bool {
        let mut p = self.0.lock().unwrap();
        assert!(p.consumed + buf.len() <= p.written);
        buf.fill(123);
        p.consumed += buf.len();
        p.reads.push(buf.len());
        p.buffer_addresses.push(buf.as_ptr() as usize);
        true
    }
}

struct Sink(Arc<Mutex<Progress>>);

impl AudioSink for Sink {
    fn writable(&mut self) -> usize {
        self.0.lock().unwrap().writable
    }

    fn write(&mut self, buf: &[i16]) {
        let mut p = self.0.lock().unwrap();
        assert!(buf.iter().all(|sample| *sample == 123));
        assert!(buf.len() <= p.writable);
        p.writable -= buf.len();
        p.writes.push(buf.len());
    }
}

#[derive(Default)]
struct Ring {
    samples: Vec<i16>,
    written: usize,
    consumed: usize,
    overflow: usize,
}

const RING_CAPACITY: usize = 1024;

impl Ring {
    fn stat(&self) -> RingStats {
        RingStats {
            capacity: RING_CAPACITY,
            written: self.written,
            consumed: self.consumed,
            readable: self.samples.len(),
            overflow: self.overflow,
            underflow: 0,
        }
    }

    fn write(&mut self, buf: &[i16]) -> WriteReport {
        self.samples.extend_from_slice(buf);
        self.written += buf.len();
        while self.samples.len() > RING_CAPACITY {
            self.samples.remove(0);
            self.overflow += 1;
        }
        WriteReport::Complete
    }

    fn read(&mut self, buf: &mut [i16]) {
        for sample in buf.iter_mut() {
            *sample = self.samples.remove(0);
        }
        self.consumed += buf.len();
    }
}

impl AudioSink for RtpSink<Arc<Mutex<Ring>>, fn()> {
    fn writable(&mut self) -> usize {
        let stat = self.ring.lock().unwrap().stat();
        RtpSink::writable(self, stat)
    }

    fn write(&mut self, buf: &[i16]) {
        let report = self.ring.lock().unwrap().write(buf);
        if self.wrote(buf.len(), report).wake {
            (self.notify)();
        }
    }
}

type Player = PcmProxyPlayer<(), Source, mpsc::Receiver<Box<dyn AudioSink>>, JoinHandle<()>>;
type Recorder = PcmProxyRecorder<mpsc::Sender<Box<dyn AudioSink>>>;

fn pair(sample_rate: u32, channels: usize) -> (Player, Recorder) {
    let (sender, receiver) = mpsc::channel(1);
    PcmProxyPlayer::pair(sample_rate, channels, (), sender, receiver)
}

fn span(d: StdDuration) -> Duration {
    Duration { nanos: d.as_nanos() }
}

async fn run(
    mut source: Source,
    mut receiver: mpsc::Receiver<Box<dyn AudioSink>>,
    sample_rate: u32,
    interval: Duration,
    channels: usize,
) {
    let mut pacer = Pacer::new(sample_rate, interval, channels);
    let Some(mut sink) = receiver.recv().await else { return };
    let start = Instant::now();
    let mut ticks = tokio::time::interval_at(start, StdDuration::from_nanos(interval.nanos as u64));
    ticks.set_missed_tick_behavior(MissedTickBehavior::Skip);
    pacer.sink_arrived(Duration::zero());
    let mut buf = vec![0i16; pacer.capacity];
    loop {
        ticks.tick().await;
        let now = span(Instant::now() - start);
        assert!(pacer.can_tick(now));
        pacer.tick(now);
        while pacer.phase != PacerPhase::BetweenTicks {
            let stat = source.stat_raw();
            let writable = sink.writable();
            if let PacerAction::Move(count) = pacer.look(stat, writable) {
                let complete = source.read(&mut buf[..count]);
                sink.write(&buf[..count]);
                if pacer.chunk_moved(complete) == PacerAction::Yield {
                    tokio::task::yield_now().await;
                }
            }
        }
    }
}

fn start(player: &mut Player) {
    let (rate, interval, channels) = (player.sample_rate, player.interval, player.channels_per_frame);
    if let Some((source, receiver)) = player.start() {
        player.started(tokio::spawn(run(source, receiver, rate, interval, channels)));
    }
}

fn stop(player: &mut Player) {
    if let Some(task) = player.stop(false) {
        task.abort();
    }
}

fn init(recorder: &mut Recorder, sink: Box<dyn AudioSink>) {
    assert!(recorder.sender.try_send(sink).is_ok());
}

fn runtime() -> tokio::runtime::Runtime {
    tokio::runtime::Builder::new_current_thread().enable_time().start_paused(true).build().unwrap()
}

async fn settle() {
    for _ in 0..8 {
        tokio::task::yield_now().await;
    }
}

#[test]
fn delayed_ticks_have_bounded_catchup_reuse_storage_and_skip_missed_ticks() {
    runtime().block_on(async {
        let p = Arc::new(Mutex::new(Progress {
            written: 48_000,
            writable: 48_000,
            ..Default::default()
        }));
        let (mut player, mut recorder) = pair(48_000, 2);
        player.init(Source(p.clone()));
        init(&mut recorder, Box::new(Sink(p.clone())));
        start(&mut player);
        let observer = {
            let p = p.clone();
            tokio::spawn(async move { p.lock().unwrap().writes.len() })
        };
        settle().await;
        assert_eq!(observer.await.unwrap(), 1, "another runnable task progresses between chunks");
        assert_eq!(p.lock().unwrap().writes, [960, 960]);

        tokio::time::advance(StdDuration::from_millis(174)).await;
        settle().await;
        assert_eq!(p.lock().unwrap().writes.len(), 4, "only one bounded turn after a long stall");
        tokio::time::advance(StdDuration::from_millis(5)).await;
        settle().await;
        assert_eq!(p.lock().unwrap().writes.len(), 4);
        tokio::time::advance(StdDuration::from_millis(1)).await;
        settle().await;
        assert_eq!(p.lock().unwrap().writes.len(), 6, "next tick stays anchored at 180ms, not 184ms");
        {
            let p = p.lock().unwrap();
            assert_eq!(p.reads, p.writes);
            assert!(p.buffer_addresses.iter().all(|a| *a == p.buffer_addresses[0]));
        }
        stop(&mut player);
        settle().await;
        tokio::time::advance(StdDuration::from_secs(1)).await;
        settle().await;
        assert_eq!(p.lock().unwrap().writes.len(), 6);
    });
}

#[test]
fn waits_for_recorder_then_respects_empty_source_and_blocked_sink() {
    runtime().block_on(async {
        let p = Arc::new(Mutex::new(Progress::default()));
        let (mut player, mut recorder) = pair(48_000, 2);
        player.init(Source(p.clone()));
        start(&mut player);
        settle().await;
        tokio::time::advance(StdDuration::from_secs(30)).await;
        settle().await;
        assert!(p.lock().unwrap().reads.is_empty());
        init(&mut recorder, Box::new(Sink(p.clone())));
        settle().await;
        assert!(p.lock().unwrap().reads.is_empty());
        p.lock().unwrap().written = 48_000;
        tokio::time::advance(StdDuration::from_millis(10)).await;
        settle().await;
        assert!(p.lock().unwrap().reads.is_empty(), "full sink must not consume source");
        p.lock().unwrap().writable = 101;
        tokio::time::advance(StdDuration::from_millis(10)).await;
        settle().await;
        assert_eq!(
            p.lock().unwrap().writes,
            [100],
            "preserve sample frames and recheck sink capacity between chunks"
        );
        stop(&mut player);
        drop(player);
        settle().await;
        tokio::time::advance(StdDuration::from_secs(1)).await;
        settle().await;
        assert_eq!(p.lock().unwrap().writes.len(), 1);
    });
}

#[test]
fn real_rtp_sink_stops_source_at_capacity_and_resumes_after_drain() {
    runtime().block_on(async {
        let ring = Arc::new(Mutex::new(Ring::default()));
        let capacity = RING_CAPACITY;
        let mut sink: RtpSink<Arc<Mutex<Ring>>, fn()> = RtpSink::new(ring.clone(), 704, || {});
        AudioSink::write(&mut sink, &vec![9; capacity - 100]);
        let p = Arc::new(Mutex::new(Progress {
            written: 48_000,
            ..Default::default()
        }));
        let (mut player, mut recorder) = pair(48_000, 2);
        player.init(Source(p.clone()));
        init(&mut recorder, Box::new(sink));
        start(&mut player);
        settle().await;
        assert_eq!(p.lock().unwrap().consumed, 100);
        assert_eq!(ring.lock().unwrap().stat().readable, capacity);

        for _ in 0..10 {
            tokio::time::advance(StdDuration::from_millis(10)).await;
            settle().await;
        }
        assert_eq!(p.lock().unwrap().consumed, 100, "undrained real sink must stop source consumption");
        assert_eq!(ring.lock().unwrap().stat().overflow, 0);
        {
            let ring = ring.lock().unwrap();
            assert_eq!(ring.overflow, 0);
            assert!(ring.samples[..capacity - 100].iter().all(|sample| *sample == 9));
            assert_eq!(&ring.samples[capacity - 100..], &[123; 100]);
        }

        let mut drained = [0; 704];
        ring.lock().unwrap().read(&mut drained);
        tokio::time::advance(StdDuration::from_millis(10)).await;
        settle().await;
        assert_eq!(p.lock().unwrap().consumed, 804, "resume only into newly freed space");
        assert_eq!(ring.lock().unwrap().stat().readable, capacity);
        assert_eq!(ring.lock().unwrap().stat().overflow, 0);
        tokio::time::advance(StdDuration::from_millis(10)).await;
        settle().await;
        assert_eq!(p.lock().unwrap().consumed, 804);
        stop(&mut player);
        settle().await;
    });
}

#[test]
fn lead_gate_handles_starvation_and_long_running_sample_counts() {
    assert_eq!(eligible_samples(Duration::zero(), 48_000, 2, 48_000, 0), 14_400);
    assert_eq!(eligible_samples(Duration::zero(), 48_000, 2, 100, 100), 0);
    assert_eq!(eligible_samples(Duration::zero(), 48_000, 2, 100, 102), 0);
    assert_eq!(chunk_samples(99, 101, 960, 2), 98);
    // No intermediate u32 narrowing of the per-channel sample cursor.
    if let Some(consumed) = (u32::MAX as usize).checked_add(1) {
        assert_eq!(
            eligible_samples(Duration::from_secs(50_000), 48_000, 2, consumed + 960, consumed),
            960
        );
    }
}

#[test]
fn frames_saturate() {
    assert_eq!(duration_to_frames_u32_saturating(Duration::from_millis(10), 48_000), 480);
    assert_eq!(duration_to_frames_u32_saturating(Duration::from_millis(10), 44_100), 441);
    assert_eq!(duration_to_frames_u32_saturating(Duration { nanos: 999_999 }, 1_000), 0);
    assert_eq!(duration_to_frames_u32_saturating(Duration::from_secs(u64::MAX), 48_000), u32::MAX);
    assert_eq!(Player::ring_size_samples(48_000, 2), 48_000);
}

#[test]
fn pair_starts_once() {
    let (mut player, recorder) = pair(48_000, 2);
    assert_eq!(player.limit, 48_000);
    assert_eq!(player.interval, Duration::from_millis(10));
    assert!(player.start().is_none(), "no source yet");
    player.init(Source(Arc::new(Mutex::new(Progress::default()))));
    assert!(player.ring.is_none());
    assert!(player.start().is_some());
    assert!(player.start().is_none());
    assert!(player.stop(true).is_none());
    drop(recorder);
}

fn source(written: usize, consumed: usize) -> RingStats {
    RingStats {
        capacity: 48_000,
        written,
        consumed,
        readable: written - consumed,
        overflow: 0,
        underflow: 0,
    }
}

#[test]
fn pacer_counts_and_reports_every_five_seconds() {
    let mut pacer = Pacer::new(48_000, Duration::from_millis(10), 2);
    assert_eq!(pacer.phase, PacerPhase::AwaitingSink);
    pacer.sink_arrived(Duration::from_secs(1));
    assert_eq!(pacer.capacity, 960);
    pacer.tick(Duration::from_millis(1_010));
    assert_eq!(pacer.stats.ticks, 1);
    assert_eq!(pacer.stats.max_gap, Duration::from_millis(10));
    assert_eq!(pacer.look(source(5_000, 0), 5_000), PacerAction::Move(960));
    assert_eq!(pacer.chunk_moved(false), PacerAction::Yield);
    assert_eq!(pacer.look(source(5_000, 960), 1), PacerAction::Wait);
    assert_eq!(
        pacer.stats,
        PacingStats {
            ticks: 1,
            samples: 960,
            chunks: 1,
            xruns: 1,
            blocked: 1,
            max_gap: Duration::from_millis(10),
            ring_high_water: 5_000,
            eligible_high_water: 5_000,
            max_tick_samples: 960,
        }
    );
    pacer.tick(Duration::from_secs(6));
    assert_eq!(pacer.look(source(5_000, 960), 5_000), PacerAction::Move(960));
    assert_eq!(pacer.chunk_moved(true), PacerAction::Yield);
    assert_eq!(pacer.look(source(5_000, 1_920), 5_000), PacerAction::Move(960));
    match pacer.chunk_moved(true) {
        PacerAction::Report(report) => {
            assert_eq!(report.window, Duration::from_secs(5));
            assert_eq!((report.sample_rate, report.channels), (48_000, 2));
            assert_eq!((report.stats.ticks, report.stats.chunks, report.stats.samples), (2, 3, 2_880));
            assert_eq!(report.stats.max_gap.as_micros(), 4_990_000);
            assert_eq!(report.window.as_millis(), 5_000);
            assert_eq!(report.stats.max_tick_samples, 1_920);
        }
        other => panic!("{other:?}"),
    }
    assert_eq!(pacer.stats, PacingStats::default());
    assert_eq!(pacer.phase, PacerPhase::BetweenTicks);
}

#[test]
fn ticks_out_of_range_are_told() {
    let mut pacer = Pacer::new(48_000, Duration::from_millis(10), 2);
    pacer.sink_arrived(Duration::zero());
    assert!(pacer.can_tick(Duration::from_secs(1)));
    assert!(!pacer.can_tick(Duration::longest()));
    let mut full = pacer;
    full.stats.ticks = usize::MAX;
    assert!(!full.can_tick(Duration::from_secs(1)));
}

#[test]
fn eligible_samples_grow_with_time_and_writes() {
    let mut last = 0;
    for millis in [0, 1, 10, 350, 400] {
        let eligible = eligible_samples(Duration::from_millis(millis), 48_000, 2, 40_000, 0);
        assert!(eligible >= last);
        last = eligible;
    }
    assert_eq!(last, 40_000, "no more than was written");
    assert_eq!(eligible_samples(Duration::from_millis(400), 48_000, 2, 60_000, 0), 52_800);
    assert_eq!(eligible_samples(Duration::from_millis(1), 44_100, 1, 60_000, 6_000), 659);
}

#[test]
fn a_run_keeps_its_limits() {
    let (rate, channels) = (44_100, 2);
    let mut pacer = Pacer::new(rate, Duration::from_millis(10), channels);
    let start = Duration::from_secs(7);
    pacer.sink_arrived(start);
    let (mut consumed, mut now) = (0, start);
    for tick in 0..500usize {
        now = now.after(Duration::from_millis([10, 10, 31, 180][tick % 4]));
        pacer.tick(now);
        let mut chunks = 0;
        while pacer.phase != PacerPhase::BetweenTicks {
            let written = 441 * tick;
            let writable = [0, 1, 101, 5_000][tick % 3 + chunks];
            let stat = source(written.max(consumed), consumed);
            let eligible = eligible_samples(now.since(start), rate, channels, stat.written, consumed);
            let wanted = chunk_samples(eligible, writable, pacer.capacity, channels);
            match pacer.look(stat, writable) {
                PacerAction::Move(count) => {
                    assert_eq!(count, wanted);
                    assert!(count % channels == 0 && count <= 882 && count <= writable);
                    consumed += count;
                    chunks += 1;
                    pacer.chunk_moved(true);
                }
                _ => assert_eq!(wanted, 0),
            }
        }
        assert!(chunks <= 2);
    }
    assert!(consumed > 0);
}
