//! The sending side of a screen stream: what goes to the socket, and when a heartbeat is due.

use std::collections::VecDeque;

use vstd::prelude::*;
use vstd::string::StringExecFns;

use crate::screen_frame::{
    bare_frame, bare_heartbeat_header, frame_bytes, heartbeat_header, law_legacy_heartbeat,
    legacy_heartbeat, ScreenFrame, ScreenOpCode,
};
use crate::time::{Duration, Instant, MAX_NANOS};

verus! {

/// How many frames may wait by default.
pub const DEFAULT_MAX_PENDING_FRAMES: usize = 8;

/// How many milliseconds pass between heartbeats by default.
pub const DEFAULT_KEEP_ALIVE_MILLIS: u64 = 1000;

/// An H.264 decoder configuration record.
#[derive(Debug, PartialEq, Eq)]
pub struct AvccConfig {
    /// How many bytes the length in front of a NAL unit takes.
    pub nal_size_len: usize,
    pub record: Vec<u8>,
}

/// A decoder configuration for the screen stream.
#[derive(Debug, PartialEq, Eq)]
pub struct AvccConfigExtended {
    pub avcc: AvccConfig,
}

/// An encoded picture.
#[derive(Debug, PartialEq, Eq)]
pub struct EncodedVideoFrame {
    /// When the picture is to be shown.
    pub pts: Duration,
    pub known_keyframe: bool,
    pub data: Vec<u8>,
}

/// What a transmitter asks a session to do.
#[derive(Debug, PartialEq, Eq)]
pub enum ScreenTransmitOp {
    /// Announce a decoder configuration.
    Configure(AvccConfigExtended),
    /// Send a picture.
    Frame(EncodedVideoFrame),
    /// The transmitter is gone: send what is left and disconnect.
    TransmitterDropped,
}

impl ScreenTransmitOp {
    /// Whether this is a picture.
    pub fn is_frame(&self) -> (yes: bool)
        ensures
            yes == (self is Frame),
    {
        matches!(self, ScreenTransmitOp::Frame(_))
    }

    /// Whether this ends the session.
    pub fn is_shutdown(&self) -> (yes: bool)
        ensures
            yes == (self is TransmitterDropped),
    {
        matches!(self, ScreenTransmitOp::TransmitterDropped)
    }

    /// Whether this is a configuration.
    pub fn is_configure(&self) -> (yes: bool)
        ensures
            yes == (self is Configure),
    {
        matches!(self, ScreenTransmitOp::Configure(_))
    }
}

/// What a session writes to the socket.
#[derive(Debug, PartialEq, Eq)]
pub enum ScreenWrite {
    /// A configuration.
    Config(AvccConfigExtended),
    /// A picture, with lengths of so many bytes in front of its NAL units.
    Frame { frame: EncodedVideoFrame, nal_size_len: usize },
}

/// Whether the session is to end.
pub open spec fn wants_shutdown(ops: Seq<ScreenTransmitOp>) -> bool {
    exists|i: int| 0 <= i < ops.len() && (#[trigger] ops[i]) is TransmitterDropped
}

/// How many pictures wait.
pub open spec fn frame_count(ops: Seq<ScreenTransmitOp>) -> nat
    decreases ops.len(),
{
    if ops.len() == 0 {
        0
    } else {
        frame_count(ops.drop_last()) + if ops.last() is Frame {
            1nat
        } else {
            0
        }
    }
}

/// What is left once leading markers of the end are skipped.
pub open spec fn after_markers(ops: Seq<ScreenTransmitOp>) -> Seq<ScreenTransmitOp>
    decreases ops.len(),
{
    if ops.len() > 0 && ops[0] is TransmitterDropped {
        after_markers(ops.skip(1))
    } else {
        ops
    }
}

/// The length size that holds once `op` is done.
pub open spec fn size_len_after(op: ScreenTransmitOp, nal_size_len: usize) -> usize {
    match op {
        ScreenTransmitOp::Configure(config) => config.avcc.nal_size_len,
        _ => nal_size_len,
    }
}

/// What is written for `op`, if anything.
pub open spec fn write_of(op: ScreenTransmitOp, nal_size_len: usize) -> Option<ScreenWrite> {
    match op {
        ScreenTransmitOp::Configure(config) => Some(ScreenWrite::Config(config)),
        ScreenTransmitOp::Frame(frame) => Some(ScreenWrite::Frame { frame, nal_size_len }),
        ScreenTransmitOp::TransmitterDropped => None,
    }
}

/// All that is written for what waits, in order, each picture with the length size of the last
/// configuration before it.
pub open spec fn writes_of(ops: Seq<ScreenTransmitOp>, nal_size_len: usize) -> Seq<ScreenWrite>
    decreases ops.len(),
{
    if ops.len() == 0 {
        Seq::empty()
    } else {
        let rest = writes_of(ops.skip(1), size_len_after(ops[0], nal_size_len));
        match write_of(ops[0], nal_size_len) {
            Some(write) => seq![write] + rest,
            None => rest,
        }
    }
}

/// What was sent since the last heartbeat.
#[derive(Debug, Clone, Copy, PartialEq, Eq, Structural)]
pub struct SenderStats {
    /// The time that the numbers cover.
    pub elapsed: Duration,
    pub sent_bytes: u64,
    pub sent_frames: u32,
    /// How many frames waited on average.
    pub queued_frames_avg: u32,
}

/// A heartbeat.
#[derive(Debug, Clone, Copy, PartialEq, Eq, Structural)]
pub enum KeepAlive {
    /// One without a body.
    Bare,
    /// One with statistics in its body.
    WithStats(SenderStats),
}

impl KeepAlive {
    /// The opcode of the heartbeat.
    pub fn opcode(&self) -> (opcode: ScreenOpCode)
        ensures
            opcode == (if self is Bare {
                ScreenOpCode::KeepAlive
            } else {
                ScreenOpCode::KeepAliveWithBody
            }),
    {
        match self {
            KeepAlive::Bare => ScreenOpCode::KeepAlive,
            KeepAlive::WithStats(_) => ScreenOpCode::KeepAliveWithBody,
        }
    }

    /// The frame of the heartbeat. `body` holds the statistics, for a heartbeat that has them.
    pub fn frame(&self, body: &[u8]) -> (frame: ScreenFrame)
        requires
            body@.len() <= u32::MAX,
            body@.len() <= isize::MAX,
        ensures
            self is Bare ==> bare_heartbeat_header(frame.header) && bare_frame(frame, Seq::empty()),
            self is Bare ==> frame_bytes(frame) == legacy_heartbeat(),
            self is WithStats ==> heartbeat_header(frame.header, body@.len() as int) && bare_frame(
                frame,
                body@,
            ),
    {
        match self {
            KeepAlive::Bare => {
                let frame = ScreenFrame::keep_alive();
                proof {
                    law_legacy_heartbeat(frame);
                }
                frame
            },
            KeepAlive::WithStats(_) => ScreenFrame::keep_alive_with_body(body),
        }
    }

    /// The frame of the heartbeat. One that has statistics goes out without a body where these could
    /// not be encoded, or take more bytes than the header can say.
    pub fn frame_or_bare(&self, body: Option<&[u8]>) -> (frame: ScreenFrame)
        ensures
            match body {
                Some(bytes) if self is WithStats && bytes@.len() <= u32::MAX && bytes@.len()
                    <= isize::MAX => heartbeat_header(frame.header, bytes@.len() as int)
                    && bare_frame(frame, bytes@),
                _ => {
                    &&& bare_heartbeat_header(frame.header)
                    &&& bare_frame(frame, Seq::empty())
                    &&& frame_bytes(frame) == legacy_heartbeat()
                },
            },
    {
        match body {
            Some(bytes) if bytes.len() <= u32::MAX as usize && bytes.len() <= isize::MAX as usize =>
                self.frame(bytes),
            _ => KeepAlive::Bare.frame(&[]),
        }
    }
}

/// Why a session ends.
#[derive(Debug, PartialEq, Eq)]
pub enum ScreenTxError {
    /// All is sent and the transmitter is gone.
    DisconnectNow,
    /// The peer sent something.
    ProtocolViolationGeneric,
    /// A frame could not be serialised.
    UnexpectedState(String),
}

/// Where in a reconciliation the session is.
#[derive(Debug, Clone, Copy, PartialEq, Eq, Structural)]
pub enum TxPhase {
    /// Not in one.
    Idle,
    /// About to take what waits.
    Draining { shutting_down: bool },
    /// Waiting for a picture to be serialised.
    Serialising { shutting_down: bool },
    /// Waiting for a write of a configuration or of a picture.
    Writing { shutting_down: bool, picture: bool },
    /// Nothing waits any more.
    Drained { shutting_down: bool },
    /// Waiting for a write of a heartbeat.
    Beating { now: Instant },
    /// Done but for the end.
    Settled { shutting_down: bool },
}

/// What a transmitter holds on to.
#[derive(Debug)]
pub struct ScreenTransmitProxy {
    pub stream_latency: Duration,
    /// What waits for the session.
    pub pending_ops: VecDeque<ScreenTransmitOp>,
    pub max_pending_frames: usize,
}

/// The sending side of a screen stream, with the cipher `E` and the clock `M` that its frames are
/// made with.
#[derive(Debug)]
pub struct ScreenTransmitSession<E, M> {
    pub closed: bool,
    pub clock: M,
    pub cipher: E,
    pub stream_connection_id: u64,
    pub keep_alive_interval: Duration,
    pub last_keepalive: Instant,
    pub keep_alive_send_stats_as_body: bool,
    pub nal_size_len: usize,
    pub frames_since_keepalive: u32,
    pub bytes_since_keepalive: u64,
    pub queued_frames_sum: u64,
    pub queued_frames_samples: u64,
    /// Whether the last reconciliation found the socket unwritable.
    pub backpressured: bool,
    pub phase: TxPhase,
    /// What this reconciliation has still to write.
    pub ops: VecDeque<ScreenTransmitOp>,
}

/// The state of a session.
pub struct TxState<E, M> {
    pub closed: bool,
    pub clock: M,
    pub cipher: E,
    pub stream_connection_id: u64,
    pub keep_alive_interval: Duration,
    pub last_keepalive: Instant,
    pub keep_alive_send_stats_as_body: bool,
    pub nal_size_len: usize,
    pub frames_since_keepalive: u32,
    pub bytes_since_keepalive: u64,
    pub queued_frames_sum: u64,
    pub queued_frames_samples: u64,
    pub backpressured: bool,
    pub phase: TxPhase,
    pub ops: Seq<ScreenTransmitOp>,
}

impl<E, M> View for ScreenTransmitSession<E, M> {
    type V = TxState<E, M>;

    open spec fn view(&self) -> TxState<E, M> {
        TxState {
            closed: self.closed,
            clock: self.clock,
            cipher: self.cipher,
            stream_connection_id: self.stream_connection_id,
            keep_alive_interval: self.keep_alive_interval,
            last_keepalive: self.last_keepalive,
            keep_alive_send_stats_as_body: self.keep_alive_send_stats_as_body,
            nal_size_len: self.nal_size_len,
            frames_since_keepalive: self.frames_since_keepalive,
            bytes_since_keepalive: self.bytes_since_keepalive,
            queued_frames_sum: self.queued_frames_sum,
            queued_frames_samples: self.queued_frames_samples,
            backpressured: self.backpressured,
            phase: self.phase,
            ops: self.ops@,
        }
    }
}

impl<E, M> TxState<E, M> {
    /// The times are in range, and nothing waits but for a reconciliation that is still to write it.
    pub open spec fn wf(self) -> bool {
        &&& self.keep_alive_interval.wf()
        &&& self.last_keepalive.wf()
        &&& self.phase matches TxPhase::Beating { now } ==> now.wf()
        &&& self.draining() || self.ops.len() == 0
    }

    /// Whether what waits is being written.
    pub open spec fn draining(self) -> bool {
        self.phase is Draining || self.phase is Serialising || self.phase is Writing
    }

    /// Whether a heartbeat is due.
    pub open spec fn due(self, now: Instant) -> bool {
        &&& self.keep_alive_interval.nanos != 0
        &&& now.nanos > self.last_keepalive.nanos + self.keep_alive_interval.nanos
    }

    /// The heartbeat for `now`.
    pub open spec fn heartbeat_at(self, now: Instant) -> KeepAlive {
        if self.keep_alive_send_stats_as_body {
            KeepAlive::WithStats(
                SenderStats {
                    elapsed: now.spec_since(self.last_keepalive),
                    sent_bytes: self.bytes_since_keepalive,
                    sent_frames: self.frames_since_keepalive,
                    queued_frames_avg: (self.queued_frames_sum as int / (
                    if self.queued_frames_samples == 0 {
                        1
                    } else {
                        self.queued_frames_samples as int
                    }) % 0x1_0000_0000) as u32,
                },
            )
        } else {
            KeepAlive::Bare
        }
    }

    /// The session once its counters went into a heartbeat.
    pub open spec fn counted_out(self) -> Self {
        if self.keep_alive_send_stats_as_body {
            TxState {
                frames_since_keepalive: 0,
                bytes_since_keepalive: 0,
                queued_frames_sum: 0,
                queued_frames_samples: 0,
                ..self
            }
        } else {
            self
        }
    }

    /// How long to sleep before the next heartbeat. There is none without an interval. After
    /// backpressure the socket wakes the session.
    pub open spec fn time_to_heartbeat(self, now: Instant) -> int {
        let deadline = self.last_keepalive.nanos + self.keep_alive_interval.nanos;
        if self.keep_alive_interval.nanos == 0 || self.backpressured {
            MAX_NANOS as int
        } else if deadline <= now.nanos {
            0
        } else if deadline - now.nanos > MAX_NANOS {
            MAX_NANOS as int
        } else {
            deadline - now.nanos
        }
    }

    /// The session at the start of a reconciliation, and whether that goes on.
    pub open spec fn begun(self, socket_writable: bool, ops: Seq<ScreenTransmitOp>) -> (
        Self,
        bool,
    ) {
        if !socket_writable && !wants_shutdown(ops) {
            (TxState { backpressured: true, ..self }, false)
        } else {
            (
                TxState {
                    backpressured: false,
                    phase: TxPhase::Draining { shutting_down: wants_shutdown(ops) },
                    queued_frames_sum: if self.keep_alive_send_stats_as_body {
                        (self.queued_frames_sum + frame_count(ops)) as u64
                    } else {
                        self.queued_frames_sum
                    },
                    queued_frames_samples: if self.keep_alive_send_stats_as_body {
                        (self.queued_frames_samples + 1) as u64
                    } else {
                        self.queued_frames_samples
                    },
                    ops,
                    ..self
                },
                true,
            )
        }
    }

    /// The session once the next write is taken out of what waits, and that write, if there is one. A
    /// configuration sets the length size for the pictures behind it.
    pub open spec fn after_next(self) -> (Self, Option<ScreenWrite>) {
        let waiting = after_markers(self.ops);
        let shutting_down = self.phase->Draining_shutting_down;
        if waiting.len() == 0 {
            (
                TxState { phase: TxPhase::Drained { shutting_down }, ops: Seq::empty(), ..self },
                None,
            )
        } else {
            (
                TxState {
                    nal_size_len: size_len_after(waiting[0], self.nal_size_len),
                    phase: if waiting[0] is Frame {
                        TxPhase::Serialising { shutting_down }
                    } else {
                        TxPhase::Writing { shutting_down, picture: false }
                    },
                    ops: waiting.skip(1),
                    ..self
                },
                write_of(waiting[0], self.nal_size_len),
            )
        }
    }

    /// The session with so many more pictures and bytes counted, if it keeps counters.
    pub open spec fn counted(self, pictures: nat, bytes: nat) -> Self {
        if self.keep_alive_send_stats_as_body {
            TxState {
                frames_since_keepalive: (self.frames_since_keepalive + pictures) as u32,
                bytes_since_keepalive: (self.bytes_since_keepalive + bytes) as u64,
                ..self
            }
        } else {
            self
        }
    }

    /// Whether the counters can take so many more pictures and bytes.
    pub open spec fn counters_fit(self, pictures: nat, bytes: nat) -> bool {
        self.keep_alive_send_stats_as_body ==> self.frames_since_keepalive + pictures <= u32::MAX
            && self.bytes_since_keepalive + bytes <= u64::MAX
    }

    /// The session once a picture was serialised to `len` bytes.
    pub open spec fn after_serialised(self, len: usize) -> Self {
        TxState {
            phase: TxPhase::Writing {
                shutting_down: self.phase->Serialising_shutting_down,
                picture: true,
            },
            ..self.counted(1, len as nat)
        }
    }

    /// The session after a write, and whether a picture was consumed.
    pub open spec fn after_write(self) -> (Self, bool) {
        (
            TxState {
                phase: TxPhase::Draining { shutting_down: self.phase->Writing_shutting_down },
                ..self
            },
            self.phase->picture,
        )
    }

    /// Whether a reconciliation writes a heartbeat at `now`.
    pub open spec fn beats(self, now: Instant) -> bool {
        self.phase == (TxPhase::Drained { shutting_down: false }) && self.due(now)
    }

    /// The session once it was decided at `now` on a heartbeat, and the heartbeat to write, if any.
    pub open spec fn after_heartbeat(self, now: Instant) -> (Self, Option<KeepAlive>) {
        if self.beats(now) {
            (
                TxState { phase: TxPhase::Beating { now }, ..self.counted_out() },
                Some(self.heartbeat_at(now)),
            )
        } else {
            (
                TxState {
                    phase: TxPhase::Settled { shutting_down: self.phase->Drained_shutting_down },
                    ..self
                },
                None,
            )
        }
    }

    /// The session after a heartbeat: the next one is due an interval later.
    pub open spec fn after_beat(self) -> Self {
        TxState {
            last_keepalive: self.phase->now,
            phase: TxPhase::Settled { shutting_down: false },
            ..self
        }
    }

    /// The session once its reconciliation was given up.
    pub open spec fn given_up(self) -> Self {
        TxState { phase: TxPhase::Idle, ops: Seq::empty(), ..self }
    }

    /// The session at the end of a reconciliation, and whether it is to end itself.
    pub open spec fn finished(self) -> (Self, Result<(), ScreenTxError>) {
        (
            TxState { phase: TxPhase::Idle, ..self },
            if self.phase->Settled_shutting_down {
                Err(ScreenTxError::DisconnectNow)
            } else {
                Ok(())
            },
        )
    }
}

impl<E, M> ScreenTransmitSession<E, M> {
    /// A session that starts at `now`, and what its transmitter gets.
    pub fn new(
        cipher: E,
        stream_connection_id: u64,
        clock: M,
        max_pending_frames: usize,
        keep_alive_interval: Duration,
        keep_alive_send_stats_as_body: bool,
        stream_latency: Duration,
        now: Instant,
    ) -> (made: (Self, ScreenTransmitProxy))
        requires
            max_pending_frames * 4 <= usize::MAX,
            keep_alive_interval.wf(),
            now.wf(),
        ensures
            made.0@.wf(),
            made.0@ == (TxState {
                closed: false,
                clock,
                cipher,
                stream_connection_id,
                keep_alive_interval,
                last_keepalive: now,
                keep_alive_send_stats_as_body,
                nal_size_len: 4,
                frames_since_keepalive: 0,
                bytes_since_keepalive: 0,
                queued_frames_sum: 0,
                queued_frames_samples: 0,
                backpressured: false,
                phase: TxPhase::Idle,
                ops: Seq::empty(),
            }),
            made.1.stream_latency == stream_latency,
            made.1.pending_ops@ == Seq::<ScreenTransmitOp>::empty(),
            made.1.max_pending_frames == max_pending_frames,
    {
        let session = ScreenTransmitSession {
            closed: false,
            clock,
            cipher,
            stream_connection_id,
            keep_alive_interval,
            last_keepalive: now,
            keep_alive_send_stats_as_body,
            nal_size_len: 4,
            frames_since_keepalive: 0,
            bytes_since_keepalive: 0,
            queued_frames_sum: 0,
            queued_frames_samples: 0,
            backpressured: false,
            phase: TxPhase::Idle,
            ops: VecDeque::new(),
        };
        let proxy = ScreenTransmitProxy {
            stream_latency,
            pending_ops: VecDeque::with_capacity(max_pending_frames * 4),
            max_pending_frames,
        };
        (session, proxy)
    }

    /// Begins a reconciliation and says whether to go on. An unwritable socket ends it, unless the
    /// session is to end. One that goes on takes all that waits.
    pub fn begin(&mut self, socket_writable: bool, ops: &mut VecDeque<ScreenTransmitOp>) -> (go_on:
        bool)
        requires
            old(self)@.wf(),
            old(self).phase is Idle,
            old(self).keep_alive_send_stats_as_body ==> old(self).queued_frames_sum + frame_count(
                old(ops)@,
            ) <= u64::MAX && old(self).queued_frames_samples < u64::MAX,
        ensures
            final(self)@.wf(),
            (final(self)@, go_on) == old(self)@.begun(socket_writable, old(ops)@),
            go_on ==> final(ops)@.len() == 0,
            !go_on ==> *final(ops) == *old(ops),
    {
        let mut shutting_down = false;
        let mut frames: u64 = 0;
        let mut i: usize = 0;
        assert(ops@.take(0) =~= Seq::<ScreenTransmitOp>::empty());
        while i < ops.len()
            invariant
                i <= ops@.len(),
                shutting_down == wants_shutdown(ops@.take(i as int)),
                frames == frame_count(ops@.take(i as int)),
                frames <= i,
                *ops == *old(ops),
                *self == *old(self),
            decreases ops@.len() - i,
        {
            let op = &ops[i];
            let ghost seen = ops@.take(i + 1);
            let ghost before = ops@.take(i as int);
            assert(seen.drop_last() =~= before);
            assert(wants_shutdown(seen) <==> wants_shutdown(before) || op is TransmitterDropped) by {
                if wants_shutdown(before) {
                    let k = choose|k: int|
                        0 <= k < before.len() && (#[trigger] before[k]) is TransmitterDropped;
                    assert(seen[k] is TransmitterDropped);
                }
                if op is TransmitterDropped {
                    assert(seen[i as int] is TransmitterDropped);
                }
                if wants_shutdown(seen) && !(op is TransmitterDropped) {
                    let k = choose|k: int|
                        0 <= k < seen.len() && (#[trigger] seen[k]) is TransmitterDropped;
                    assert(before[k] is TransmitterDropped);
                }
            }
            if op.is_shutdown() {
                shutting_down = true;
            }
            if op.is_frame() {
                frames = frames + 1;
            }
            i = i + 1;
        }
        assert(ops@.take(ops@.len() as int) =~= ops@);
        if !socket_writable && !shutting_down {
            self.backpressured = true;
            return false;
        }
        self.backpressured = false;
        if self.keep_alive_send_stats_as_body {
            self.queued_frames_sum = self.queued_frames_sum + frames;
            self.queued_frames_samples = self.queued_frames_samples + 1;
        }
        self.phase = TxPhase::Draining { shutting_down };
        std::mem::swap(&mut self.ops, ops);
        true
    }

    /// The next thing to write, or nothing where all is written. A configuration sets the length size
    /// for the pictures behind it.
    pub fn next_write(&mut self) -> (write: Option<ScreenWrite>)
        requires
            old(self)@.wf(),
            old(self).phase is Draining,
        ensures
            final(self)@.wf(),
            (final(self)@, write) == old(self)@.after_next(),
    {
        let shutting_down = matches!(self.phase, TxPhase::Draining { shutting_down: true });
        loop
            invariant
                old(self)@.wf(),
                old(self).phase is Draining,
                shutting_down == old(self).phase->Draining_shutting_down,
                self@ == (TxState { ops: self@.ops, ..old(self)@ }),
                after_markers(self.ops@) == after_markers(old(self).ops@),
            decreases self.ops@.len(),
        {
            let ghost queued = self.ops@;
            match self.ops.pop_front() {
                None => {
                    assert(self.ops@ =~= Seq::<ScreenTransmitOp>::empty());
                    self.phase = TxPhase::Drained { shutting_down };
                    return None;
                },
                Some(ScreenTransmitOp::Configure(config)) => {
                    assert(self.ops@ =~= queued.skip(1));
                    self.nal_size_len = config.avcc.nal_size_len;
                    self.phase = TxPhase::Writing { shutting_down, picture: false };
                    return Some(ScreenWrite::Config(config));
                },
                Some(ScreenTransmitOp::Frame(frame)) => {
                    assert(self.ops@ =~= queued.skip(1));
                    self.phase = TxPhase::Serialising { shutting_down };
                    return Some(ScreenWrite::Frame { frame, nal_size_len: self.nal_size_len });
                },
                Some(ScreenTransmitOp::TransmitterDropped) => {
                    assert(self.ops@ =~= queued.skip(1));
                },
            }
        }
    }

    /// Counts a picture that was serialised to `len` bytes. It is to be written now.
    pub fn frame_serialised(&mut self, len: usize)
        requires
            old(self)@.wf(),
            old(self).phase is Serialising,
            old(self)@.counters_fit(1, len as nat),
        ensures
            final(self)@.wf(),
            final(self)@ == old(self)@.after_serialised(len),
    {
        let shutting_down = matches!(self.phase, TxPhase::Serialising { shutting_down: true });
        if self.keep_alive_send_stats_as_body {
            self.frames_since_keepalive = self.frames_since_keepalive + 1;
            self.bytes_since_keepalive = self.bytes_since_keepalive + len as u64;
        }
        self.phase = TxPhase::Writing { shutting_down, picture: true };
    }

    /// Goes on after a write that was queued, and says whether a picture was consumed: whoever waits
    /// for that is to be woken.
    pub fn written(&mut self) -> (consumed: bool)
        requires
            old(self)@.wf(),
            old(self).phase is Writing,
        ensures
            final(self)@.wf(),
            (final(self)@, consumed) == old(self)@.after_write(),
    {
        let consumed = matches!(self.phase, TxPhase::Writing { picture: true, .. });
        let shutting_down = matches!(self.phase, TxPhase::Writing { shutting_down: true, .. });
        self.phase = TxPhase::Draining { shutting_down };
        consumed
    }

    /// Gives up the reconciliation for a picture that could not be serialised. What is not written
    /// goes back to the front of the queue.
    pub fn frame_not_serialised(&mut self, why: &str, ops: &mut VecDeque<ScreenTransmitOp>) -> (error:
        ScreenTxError)
        requires
            old(self)@.wf(),
            old(self).phase is Serialising,
        ensures
            final(self)@.wf(),
            final(ops)@ == old(self).ops@ + old(ops)@,
            final(self)@ == old(self)@.given_up(),
            error matches ScreenTxError::UnexpectedState(text) && text@
                == "unexpected failure during NAL serialization: "@ + why@,
    {
        self.write_failed(ops);
        let mut text = String::from_str("unexpected failure during NAL serialization: ");
        text.append(why);
        ScreenTxError::UnexpectedState(text)
    }

    /// Makes the heartbeat for `now` out of the counters, which start over.
    pub fn create_keep_alive(&mut self, now: Instant) -> (keep_alive: KeepAlive)
        ensures
            keep_alive == old(self)@.heartbeat_at(now),
            final(self)@ == old(self)@.counted_out(),
    {
        if !self.keep_alive_send_stats_as_body {
            return KeepAlive::Bare;
        }
        let samples: u64 = if self.queued_frames_samples == 0 {
            1
        } else {
            self.queued_frames_samples
        };
        let average: u64 = self.queued_frames_sum / samples;
        let stats = SenderStats {
            elapsed: now.since(self.last_keepalive),
            sent_bytes: self.bytes_since_keepalive,
            sent_frames: self.frames_since_keepalive,
            queued_frames_avg: (average % 0x1_0000_0000) as u32,
        };
        self.frames_since_keepalive = 0;
        self.bytes_since_keepalive = 0;
        self.queued_frames_sum = 0;
        self.queued_frames_samples = 0;
        KeepAlive::WithStats(stats)
    }

    /// The heartbeat to write once all else is written, if one is due. There is none in a session
    /// that is to end.
    pub fn heartbeat(&mut self, now: Instant) -> (keep_alive: Option<KeepAlive>)
        requires
            old(self)@.wf(),
            old(self).phase is Drained,
            now.wf(),
        ensures
            final(self)@.wf(),
            (final(self)@, keep_alive) == old(self)@.after_heartbeat(now),
    {
        if let TxPhase::Drained { shutting_down } = self.phase {
            if !shutting_down && !self.keep_alive_interval.is_zero() && now.nanos
                > self.last_keepalive.nanos + self.keep_alive_interval.nanos {
                let keep_alive = self.create_keep_alive(now);
                self.phase = TxPhase::Beating { now };
                return Some(keep_alive);
            }
            self.phase = TxPhase::Settled { shutting_down };
        }
        None
    }

    /// Counts a heartbeat that was queued: the next one is due an interval later.
    pub fn keep_alive_queued(&mut self)
        requires
            old(self)@.wf(),
            old(self).phase is Beating,
        ensures
            final(self)@.wf(),
            final(self)@ == old(self)@.after_beat(),
    {
        if let TxPhase::Beating { now } = self.phase {
            self.last_keepalive = now;
            self.phase = TxPhase::Settled { shutting_down: false };
        }
    }

    /// Gives up the reconciliation for a write that failed. What is not written goes back to the
    /// front of the queue, and a heartbeat stays due.
    pub fn write_failed(&mut self, ops: &mut VecDeque<ScreenTransmitOp>)
        requires
            old(self)@.wf(),
            !(old(self).phase is Idle),
        ensures
            final(self)@.wf(),
            final(ops)@ == old(self).ops@ + old(ops)@,
            final(self)@ == old(self)@.given_up(),
    {
        self.phase = TxPhase::Idle;
        self.ops.append(ops);
        std::mem::swap(&mut self.ops, ops);
    }

    /// Ends the reconciliation once all is written, and the session where that was asked for.
    pub fn finish(&mut self) -> (result: Result<(), ScreenTxError>)
        requires
            old(self)@.wf(),
            old(self).phase is Settled,
        ensures
            final(self)@.wf(),
            (final(self)@, result) == old(self)@.finished(),
    {
        let ending = matches!(self.phase, TxPhase::Settled { shutting_down: true });
        self.phase = TxPhase::Idle;
        if ending {
            return Err(ScreenTxError::DisconnectNow);
        }
        Ok(())
    }

    /// How long to sleep, unless a frame arrives.
    pub fn sleep(&self, now: Instant) -> (span: Duration)
        requires
            self@.wf(),
        ensures
            span.nanos == self@.time_to_heartbeat(now),
            span.wf(),
    {
        if self.keep_alive_interval.is_zero() || self.backpressured {
            return Duration::longest();
        }
        let deadline: u128 = self.last_keepalive.nanos + self.keep_alive_interval.nanos;
        let left: u128 = deadline.saturating_sub(now.nanos);
        if left > MAX_NANOS {
            return Duration::longest();
        }
        Duration { nanos: left }
    }

    /// Answers a message: the peer of a screen stream is to send none.
    pub fn on_msg(&self) -> (error: ScreenTxError)
        ensures
            error == ScreenTxError::ProtocolViolationGeneric,
    {
        ScreenTxError::ProtocolViolationGeneric
    }

    /// Closes the session, at the end of the stream or when it is dropped. Whoever waits for frames
    /// to be consumed is to be woken.
    pub fn close(&mut self)
        ensures
            final(self)@ == (TxState { closed: true, ..old(self)@ }),
    {
        self.closed = true;
    }
}

/// Taking one write after another out of the queue gives all that is written for it, in order, and
/// markers of the end are never written.
pub proof fn law_queue_drains_in_order(ops: Seq<ScreenTransmitOp>, nal_size_len: usize)
    ensures
        ({
            let waiting = after_markers(ops);
            writes_of(ops, nal_size_len) == (if waiting.len() == 0 {
                Seq::<ScreenWrite>::empty()
            } else {
                seq![write_of(waiting[0], nal_size_len)->0] + writes_of(
                    waiting.skip(1),
                    size_len_after(waiting[0], nal_size_len),
                )
            })
        }),
        after_markers(ops).len() > 0 ==> write_of(after_markers(ops)[0], nal_size_len) is Some,
    decreases ops.len(),
{
    if ops.len() > 0 && ops[0] is TransmitterDropped {
        law_queue_drains_in_order(ops.skip(1), nal_size_len);
    }
}

/// Sleeping wakes a session no later than its heartbeat is due: a due heartbeat leaves no time to
/// sleep, and else the sleep ends at the deadline.
pub proof fn law_sleep_ends_at_the_deadline<E, M>(session: TxState<E, M>, now: Instant)
    requires
        session.wf(),
        now.wf(),
        session.keep_alive_interval.nanos != 0,
        !session.backpressured,
    ensures
        session.due(now) ==> session.time_to_heartbeat(now) == 0,
        !session.due(now) && session.last_keepalive.nanos + session.keep_alive_interval.nanos
            - now.nanos <= MAX_NANOS ==> now.nanos + session.time_to_heartbeat(now)
            == session.last_keepalive.nanos + session.keep_alive_interval.nanos,
{
}

/// A session without an interval never has a heartbeat and sleeps on. One that met backpressure
/// sleeps until it is woken.
pub proof fn law_no_timer_without_cadence<E, M>(session: TxState<E, M>, now: Instant)
    ensures
        session.keep_alive_interval.nanos == 0 ==> !session.due(now)
            && session.time_to_heartbeat(now) == MAX_NANOS,
        session.backpressured ==> session.time_to_heartbeat(now) == MAX_NANOS,
{
}

/// A heartbeat that was queued at `now` puts the next one off by an interval. One that could not be
/// queued is due as before.
pub proof fn law_cadence<E, M>(
    session: TxState<E, M>,
    now: Instant,
    later: Instant,
)
    requires
        session.wf(),
        session.due(now),
        now.nanos <= later.nanos,
    ensures
        ({
            let queued = TxState { last_keepalive: now, ..session.counted_out() };
            let failed = session.counted_out();
            &&& queued.due(later) <==> later.nanos > now.nanos + session.keep_alive_interval.nanos
            &&& failed.due(later)
        }),
{
}

/// A receiver that does not take statistics gets heartbeats without a body, and its session keeps no
/// counters for them.
pub proof fn law_receiver_selects_the_heartbeat<E, M>(
    session: TxState<E, M>,
    now: Instant,
)
    ensures
        session.heartbeat_at(now) is WithStats <==> session.keep_alive_send_stats_as_body,
        !session.keep_alive_send_stats_as_body ==> session.counted_out() == session,
{
}

/// A pending end is not held up by an unwritable socket, and suppresses the heartbeat.
pub proof fn law_pending_end_suppresses_the_heartbeat<E, M>(
    session: TxState<E, M>,
    socket_writable: bool,
    ops: Seq<ScreenTransmitOp>,
    now: Instant,
)
    requires
        wants_shutdown(ops),
    ensures
        ({
            let (begun, go_on) = session.begun(socket_writable, ops);
            let drained = TxState {
                phase: TxPhase::Drained { shutting_down: true },
                ..begun
            };
            &&& go_on
            &&& begun.phase == (TxPhase::Draining { shutting_down: true })
            &&& !drained.beats(now)
        }),
{
}

/// Backpressure leaves deadline and counters as they are, and stops the timer until a reconciliation
/// finds the socket writable.
pub proof fn law_backpressure_stops_the_timer<E, M>(
    session: TxState<E, M>,
    ops: Seq<ScreenTransmitOp>,
    now: Instant,
)
    requires
        !wants_shutdown(ops),
    ensures
        ({
            let (held, go_on) = session.begun(false, ops);
            &&& !go_on
            &&& held == (TxState { backpressured: true, ..session })
            &&& held.time_to_heartbeat(now) == MAX_NANOS
            &&& held.due(now) == session.due(now)
            &&& !held.begun(true, ops).0.backpressured
        }),
{
}

/// What happens in a reconciliation.
pub enum TxEvent {
    /// The next write is asked for.
    Next,
    /// A picture was serialised to so many bytes.
    Serialised { len: usize },
    /// What was handed out was written.
    Written,
    /// It is decided on a heartbeat.
    Heartbeat { now: Instant },
    /// The heartbeat was written.
    Queued,
    /// The reconciliation ends.
    Finish,
}

/// How many pictures were serialised.
pub open spec fn pictures_in(events: Seq<TxEvent>) -> nat
    decreases events.len(),
{
    if events.len() == 0 {
        0
    } else {
        pictures_in(events.drop_last()) + if events.last() is Serialised {
            1nat
        } else {
            0
        }
    }
}

/// How many bytes pictures were serialised to.
pub open spec fn bytes_in(events: Seq<TxEvent>) -> nat
    decreases events.len(),
{
    if events.len() == 0 {
        0
    } else {
        bytes_in(events.drop_last()) + match events.last() {
            TxEvent::Serialised { len } => len as nat,
            _ => 0,
        }
    }
}

/// How many writes were confirmed.
pub open spec fn confirmed_in(events: Seq<TxEvent>) -> nat
    decreases events.len(),
{
    if events.len() == 0 {
        0
    } else {
        confirmed_in(events.drop_last()) + if events.last() is Written {
            1nat
        } else {
            0
        }
    }
}

impl<E, M> TxState<E, M> {
    /// Whether the event can come now.
    pub open spec fn expects(self, event: TxEvent) -> bool {
        match event {
            TxEvent::Next => self.phase is Draining,
            TxEvent::Serialised { len } => self.phase is Serialising && self.counters_fit(
                1,
                len as nat,
            ),
            TxEvent::Written => self.phase is Writing,
            TxEvent::Heartbeat { now } => self.phase is Drained && now.wf(),
            TxEvent::Queued => self.phase is Beating,
            TxEvent::Finish => self.phase is Settled,
        }
    }

    /// The session after an event.
    pub open spec fn next(self, event: TxEvent) -> Self {
        match event {
            TxEvent::Next => self.after_next().0,
            TxEvent::Serialised { len } => self.after_serialised(len),
            TxEvent::Written => self.after_write().0,
            TxEvent::Heartbeat { now } => self.after_heartbeat(now).0,
            TxEvent::Queued => self.after_beat(),
            TxEvent::Finish => self.finished().0,
        }
    }

    /// The session after a run of events.
    pub open spec fn after(self, events: Seq<TxEvent>) -> Self
        decreases events.len(),
    {
        if events.len() == 0 {
            self
        } else {
            self.after(events.drop_last()).next(events.last())
        }
    }

    /// Whether each event of a run comes when it can.
    pub open spec fn allows(self, events: Seq<TxEvent>) -> bool
        decreases events.len(),
    {
        events.len() > 0 ==> {
            &&& self.allows(events.drop_last())
            &&& self.after(events.drop_last()).expects(events.last())
        }
    }

    /// What is handed out to be written in a run, in order.
    pub open spec fn writes_in(self, events: Seq<TxEvent>) -> Seq<ScreenWrite>
        decreases events.len(),
    {
        if events.len() == 0 {
            Seq::empty()
        } else {
            let earlier = self.writes_in(events.drop_last());
            let before = self.after(events.drop_last());
            match (events.last(), before.after_next().1) {
                (TxEvent::Next, Some(write)) => earlier.push(write),
                _ => earlier,
            }
        }
    }

    /// How often whoever waits for pictures to be consumed is woken in a run.
    pub open spec fn notified_in(self, events: Seq<TxEvent>) -> nat
        decreases events.len(),
    {
        if events.len() == 0 {
            0
        } else {
            let earlier = self.notified_in(events.drop_last());
            let before = self.after(events.drop_last());
            if events.last() is Written && before.after_write().1 {
                earlier + 1
            } else {
                earlier
            }
        }
    }

    /// When it is decided on a heartbeat in a run, and the heartbeats that are to be written.
    pub open spec fn decisions_in(self, events: Seq<TxEvent>) -> Seq<(Instant, Option<KeepAlive>)>
        decreases events.len(),
    {
        if events.len() == 0 {
            Seq::empty()
        } else {
            let earlier = self.decisions_in(events.drop_last());
            let before = self.after(events.drop_last());
            match events.last() {
                TxEvent::Heartbeat { now } => earlier.push((now, before.after_heartbeat(now).1)),
                _ => earlier,
            }
        }
    }
}

/// Whether a picture was taken out of what waits and is not written yet.
pub open spec fn picture_in_hand(phase: TxPhase) -> nat {
    match phase {
        TxPhase::Serialising { .. } => 1,
        TxPhase::Writing { picture: true, .. } => 1,
        _ => 0,
    }
}

/// Whether something was taken out of what waits and is not written yet.
pub open spec fn write_in_hand(phase: TxPhase) -> nat {
    if phase is Serialising || phase is Writing {
        1
    } else {
        0
    }
}

proof fn lemma_markers_hold_no_frame(ops: Seq<ScreenTransmitOp>)
    ensures
        frame_count(after_markers(ops)) == frame_count(ops),
    decreases ops.len(),
{
    if ops.len() > 0 && ops[0] is TransmitterDropped {
        lemma_markers_hold_no_frame(ops.skip(1));
        lemma_frame_count_first(ops);
    }
}

proof fn lemma_frame_count_first(ops: Seq<ScreenTransmitOp>)
    requires
        ops.len() > 0,
    ensures
        frame_count(ops) == frame_count(ops.skip(1)) + if ops[0] is Frame {
            1nat
        } else {
            0
        },
    decreases ops.len(),
{
    if ops.len() == 1 {
        assert(frame_count(ops.skip(1)) == 0);
        assert(frame_count(ops.drop_last()) == 0);
    } else {
        lemma_frame_count_first(ops.drop_last());
        assert(ops.skip(1).drop_last() =~= ops.drop_last().skip(1));
    }
}

/// What holds of the session at every point of a reconciliation that began as `begun`.
spec fn reconciled<E, M>(
    begun: TxState<E, M>,
    queue: Seq<ScreenTransmitOp>,
    events: Seq<TxEvent>,
) -> bool {
    let state = begun.after(events);
    let counted = TxState {
        phase: state.phase,
        ops: state.ops,
        nal_size_len: state.nal_size_len,
        ..begun.counted(pictures_in(events), bytes_in(events))
    };
    let decisions = begun.decisions_in(events);
    let ending = wants_shutdown(queue);
    &&& state.wf()
    &&& begun.counters_fit(pictures_in(events), bytes_in(events))
    &&& match state.phase {
        TxPhase::Draining { shutting_down } => shutting_down == ending,
        TxPhase::Serialising { shutting_down } => shutting_down == ending,
        TxPhase::Writing { shutting_down, .. } => shutting_down == ending,
        TxPhase::Drained { shutting_down } => shutting_down == ending,
        TxPhase::Settled { shutting_down } => shutting_down == ending,
        TxPhase::Beating { .. } => !ending,
        TxPhase::Idle => true,
    }
    &&& if state.draining() || state.phase is Drained {
        &&& decisions.len() == 0
        &&& state == counted
    } else {
        let (now, beat) = decisions[0];
        let drained = TxState { phase: TxPhase::Drained { shutting_down: ending }, ..counted };
        let done = if beat is Some {
            drained.counted_out()
        } else {
            drained
        };
        &&& decisions.len() == 1
        &&& now.wf()
        &&& beat == drained.after_heartbeat(now).1
        &&& match state.phase {
            TxPhase::Beating { now: at } => at == now && beat is Some && state == (TxState {
                phase: state.phase,
                ..done
            }),
            _ => state == (TxState {
                phase: state.phase,
                last_keepalive: if beat is Some {
                    now
                } else {
                    begun.last_keepalive
                },
                ..done
            }),
        }
    }
    &&& begun.writes_in(events) + writes_of(state.ops, state.nal_size_len) == writes_of(
        queue,
        begun.nal_size_len,
    )
    &&& begun.writes_in(events).len() == confirmed_in(events) + write_in_hand(state.phase)
    &&& begun.notified_in(events) + picture_in_hand(state.phase) + frame_count(state.ops)
        == frame_count(queue)
    &&& pictures_in(events) + frame_count(state.ops) + (if state.phase is Serialising {
        1nat
    } else {
        0
    }) == frame_count(queue)
}

#[verifier::spinoff_prover]
#[verifier::rlimit(60)]
proof fn lemma_reconciled<E, M>(
    begun: TxState<E, M>,
    queue: Seq<ScreenTransmitOp>,
    events: Seq<TxEvent>,
)
    requires
        begun.wf(),
        begun.phase == (TxPhase::Draining { shutting_down: wants_shutdown(queue) }),
        begun.ops == queue,
        begun.allows(events),
        begun.counters_fit(0, 0),
    ensures
        reconciled(begun, queue, events),
    decreases events.len(),
{
    if events.len() == 0 {
        assert(begun.writes_in(events) + writes_of(queue, begun.nal_size_len) =~= writes_of(
            queue,
            begun.nal_size_len,
        ));
    } else {
        let earlier = events.drop_last();
        let before = begun.after(earlier);
        lemma_reconciled(begun, queue, earlier);
        match events.last() {
            TxEvent::Next => {
                lemma_markers_hold_no_frame(before.ops);
                law_queue_drains_in_order(before.ops, before.nal_size_len);
                let waiting = after_markers(before.ops);
                if waiting.len() > 0 {
                    lemma_frame_count_first(waiting);
                    let rest = writes_of(
                        waiting.skip(1),
                        size_len_after(waiting[0], before.nal_size_len),
                    );
                    let write = write_of(waiting[0], before.nal_size_len)->0;
                    assert(begun.writes_in(earlier).push(write) + rest =~= begun.writes_in(earlier)
                        + (seq![write] + rest));
                }
            },
            _ => {},
        }
    }
}

/// A reconciliation that goes on writes what waited, in order and each thing once, and wakes whoever
/// waits once for each picture. At every point what was handed out and what is left to write make up
/// all of it, and each write is confirmed before the next is handed out. Then it is decided once on a
/// heartbeat: there is one if and only if it is due and no end is pending, with the statistics of all
/// that was written, and it alone moves the deadline. At last the session ends if and only if an end
/// was pending.
pub proof fn law_reconciliation<E, M>(
    idle: TxState<E, M>,
    socket_writable: bool,
    queue: Seq<ScreenTransmitOp>,
    events: Seq<TxEvent>,
)
    requires
        idle.wf(),
        idle.phase is Idle,
        idle.begun(socket_writable, queue).1,
        idle.begun(socket_writable, queue).0.allows(events),
    ensures
        ({
            let begun = idle.begun(socket_writable, queue).0;
            let state = begun.after(events);
            let writes = begun.writes_in(events);
            let decisions = begun.decisions_in(events);
            let ending = wants_shutdown(queue);
            &&& state.wf()
            &&& writes + writes_of(state.ops, state.nal_size_len) == writes_of(
                queue,
                idle.nal_size_len,
            )
            &&& writes.len() == confirmed_in(events) + write_in_hand(state.phase)
            &&& begun.notified_in(events) + picture_in_hand(state.phase) + frame_count(state.ops)
                == frame_count(queue)
            &&& !state.draining() ==> {
                &&& writes == writes_of(queue, idle.nal_size_len)
                &&& confirmed_in(events) == writes.len()
                &&& begun.notified_in(events) == frame_count(queue)
            }
            &&& decisions.len() == (if state.draining() || state.phase is Drained {
                0nat
            } else {
                1
            })
            &&& decisions.len() == 1 ==> {
                let (now, beat) = decisions[0];
                let counted = begun.counted(frame_count(queue), bytes_in(events));
                &&& beat == (if idle.due(now) && !ending {
                    Some(counted.heartbeat_at(now))
                } else {
                    None
                })
                &&& state.last_keepalive == (if beat is Some && !(state.phase is Beating) {
                    now
                } else {
                    idle.last_keepalive
                })
            }
            &&& decisions.len() == 0 ==> state.last_keepalive == idle.last_keepalive
            &&& state.phase is Settled ==> state.finished().1 == (if ending {
                Err::<(), ScreenTxError>(ScreenTxError::DisconnectNow)
            } else {
                Ok(())
            })
        }),
{
    let begun = idle.begun(socket_writable, queue).0;
    lemma_reconciled(begun, queue, events);
    let state = begun.after(events);
    if !state.draining() {
        assert(begun.writes_in(events) + Seq::<ScreenWrite>::empty() =~= begun.writes_in(events));
    }
}

/// A heartbeat is due once more than an interval has passed since the last one, and never without an
/// interval. The time to sleep is what is left of the interval: nothing once it has passed, and as long
/// as can be without an interval or after backpressure.
pub proof fn law_heartbeat_is_due_after_an_interval<E, M>(session: TxState<E, M>, now: Instant)
    requires
        session.wf(),
        now.wf(),
    ensures
        ({
            let longest = 18_446_744_073_709_551_615_999_999_999int;
            let passed = now.nanos - session.last_keepalive.nanos;
            let interval = session.keep_alive_interval.nanos;
            &&& session.due(now) <==> interval > 0 && passed > interval
            &&& interval == 0 || session.backpressured ==> session.time_to_heartbeat(now) == longest
            &&& interval > 0 && !session.backpressured && passed >= interval
                ==> session.time_to_heartbeat(now) == 0
            &&& interval > 0 && !session.backpressured && passed < interval
                ==> session.time_to_heartbeat(now) == (if interval - passed > longest {
                longest
            } else {
                interval - passed
            })
        }),
{
}

/// The statistics of a heartbeat: the time since the last one, the bytes and pictures that were sent in
/// it, and the average queue, rounded down and cut to 32 bits, or the whole sum where the queue was never
/// looked at. With it the counters start over, and nothing else changes. Without statistics there are
/// none and nothing changes.
pub proof fn law_heartbeat_tells_what_was_sent<E, M>(
    session: TxState<E, M>,
    now: Instant,
    average: int,
)
    requires
        session.last_keepalive.nanos <= now.nanos,
        session.queued_frames_samples == 0 ==> average == session.queued_frames_sum,
        session.queued_frames_samples > 0 ==> average * session.queued_frames_samples
            <= session.queued_frames_sum < (average + 1) * session.queued_frames_samples,
    ensures
        !session.keep_alive_send_stats_as_body ==> session.heartbeat_at(now) == KeepAlive::Bare
            && session.counted_out() == session,
        session.keep_alive_send_stats_as_body ==> {
            &&& session.heartbeat_at(now) matches KeepAlive::WithStats(stats) && {
                &&& stats.elapsed.nanos == now.nanos - session.last_keepalive.nanos
                &&& stats.sent_bytes == session.bytes_since_keepalive
                &&& stats.sent_frames == session.frames_since_keepalive
                &&& stats.queued_frames_avg == average % 0x1_0000_0000
            }
            &&& session.counted_out() == (TxState {
                frames_since_keepalive: 0,
                bytes_since_keepalive: 0,
                queued_frames_sum: 0,
                queued_frames_samples: 0,
                ..session
            })
        },
{
    if session.queued_frames_samples > 0 {
        let sum = session.queued_frames_sum as int;
        let samples = session.queued_frames_samples as int;
        assert(samples * average == average * samples) by (nonlinear_arith);
        assert((average + 1) * samples == average * samples + samples) by (nonlinear_arith);
        vstd::arithmetic::div_mod::lemma_fundamental_div_mod_converse(
            sum,
            samples,
            average,
            sum - average * samples,
        );
    }
}

/// A configuration is written as it is and sets the length size for what comes behind it; a picture is
/// written with the length size that holds; a marker of the end is not written. What is written for two
/// queues in a row is what is written for the one and then for the other.
pub proof fn law_writes_follow_the_queue(
    first: Seq<ScreenTransmitOp>,
    second: Seq<ScreenTransmitOp>,
    nal_size_len: usize,
)
    ensures
        writes_of(Seq::empty(), nal_size_len) == Seq::<ScreenWrite>::empty(),
        first.len() == 0 ==> size_after(first, nal_size_len) == nal_size_len,
        writes_of(first + second, nal_size_len) == writes_of(first, nal_size_len) + writes_of(
            second,
            size_after(first, nal_size_len),
        ),
        first.len() == 1 ==> match first[0] {
            ScreenTransmitOp::Configure(config) => writes_of(first, nal_size_len) == seq![
                ScreenWrite::Config(config),
            ] && size_after(first, nal_size_len) == config.avcc.nal_size_len,
            ScreenTransmitOp::Frame(frame) => writes_of(first, nal_size_len) == seq![
                ScreenWrite::Frame { frame, nal_size_len },
            ] && size_after(first, nal_size_len) == nal_size_len,
            ScreenTransmitOp::TransmitterDropped => writes_of(first, nal_size_len) == Seq::<
                ScreenWrite,
            >::empty() && size_after(first, nal_size_len) == nal_size_len,
        },
    decreases first.len(),
{
    let none = Seq::<ScreenTransmitOp>::empty();
    assert(writes_of(none, nal_size_len) =~= Seq::<ScreenWrite>::empty());
    if first.len() == 0 {
        assert(first + second =~= second);
        assert(Seq::<ScreenWrite>::empty() + writes_of(second, nal_size_len) =~= writes_of(
            second,
            nal_size_len,
        ));
    } else {
        let size = size_len_after(first[0], nal_size_len);
        law_writes_follow_the_queue(first.skip(1), second, size);
        assert((first + second).skip(1) =~= first.skip(1) + second);
        let rest = writes_of(first.skip(1), size);
        let more = writes_of(second, size_after(first.skip(1), size));
        if let Some(write) = write_of(first[0], nal_size_len) {
            assert(seq![write] + (rest + more) =~= (seq![write] + rest) + more);
        }
        if first.len() == 1 {
            assert(first.skip(1) =~= none);
            assert(writes_of(none, size) =~= Seq::<ScreenWrite>::empty());
            if let Some(write) = write_of(first[0], nal_size_len) {
                assert(seq![write] + Seq::<ScreenWrite>::empty() =~= seq![write]);
            }
        }
    }
}

/// The length size that holds behind a queue: that of its last configuration, if it has one.
pub open spec fn size_after(ops: Seq<ScreenTransmitOp>, nal_size_len: usize) -> usize
    decreases ops.len(),
{
    if ops.len() == 0 {
        nal_size_len
    } else {
        match ops[0] {
            ScreenTransmitOp::Configure(config) => size_after(ops.skip(1), config.avcc.nal_size_len),
            _ => size_after(ops.skip(1), nal_size_len),
        }
    }
}

/// The pictures in a queue are counted one by one, and its end is pending if and only if a marker of the
/// end is somewhere in it.
pub proof fn law_queues_are_counted(ops: Seq<ScreenTransmitOp>, op: ScreenTransmitOp)
    ensures
        frame_count(Seq::empty()) == 0,
        frame_count(ops.push(op)) == frame_count(ops) + (match op {
            ScreenTransmitOp::Frame(_) => 1nat,
            _ => 0,
        }),
        !wants_shutdown(Seq::empty()),
        wants_shutdown(ops.push(op)) <==> wants_shutdown(ops) || op
            == ScreenTransmitOp::TransmitterDropped,
{
    assert(ops.push(op).drop_last() =~= ops);
    let more = ops.push(op);
    if wants_shutdown(ops) {
        let i = choose|i: int| 0 <= i < ops.len() && (#[trigger] ops[i]) is TransmitterDropped;
        assert(more[i] is TransmitterDropped);
    }
    if op is TransmitterDropped {
        assert(more[ops.len() as int] is TransmitterDropped);
    }
    if wants_shutdown(more) && !(op is TransmitterDropped) {
        let i = choose|i: int| 0 <= i < more.len() && (#[trigger] more[i]) is TransmitterDropped;
        assert(ops[i] is TransmitterDropped);
    }
}

/// A reconciliation goes on if the socket is writable or an end is pending. Then it takes the whole queue
/// and, for statistics, counts the pictures in it and that it looked. Else it leaves everything, but for
/// a note that the socket was not writable.
pub proof fn law_reconciliation_begins<E, M>(
    session: TxState<E, M>,
    socket_writable: bool,
    queue: Seq<ScreenTransmitOp>,
)
    requires
        session.queued_frames_sum + frame_count(queue) <= u64::MAX,
        session.queued_frames_samples < u64::MAX,
    ensures
        ({
            let (begun, go_on) = session.begun(socket_writable, queue);
            &&& go_on <==> socket_writable || wants_shutdown(queue)
            &&& !go_on ==> begun == (TxState { backpressured: true, ..session })
            &&& go_on ==> {
                &&& begun.ops == queue
                &&& !begun.backpressured
                &&& begun.phase == (TxPhase::Draining { shutting_down: wants_shutdown(queue) })
                &&& begun == (TxState {
                    ops: begun.ops,
                    backpressured: begun.backpressured,
                    phase: begun.phase,
                    queued_frames_sum: begun.queued_frames_sum,
                    queued_frames_samples: begun.queued_frames_samples,
                    ..session
                })
            }
            &&& go_on && session.keep_alive_send_stats_as_body ==> {
                &&& begun.queued_frames_sum == session.queued_frames_sum + frame_count(queue)
                &&& begun.queued_frames_samples == session.queued_frames_samples + 1
            }
            &&& !session.keep_alive_send_stats_as_body ==> {
                &&& begun.queued_frames_sum == session.queued_frames_sum
                &&& begun.queued_frames_samples == session.queued_frames_samples
            }
        }),
{
}

/// Serialising a picture counts it and its bytes, for statistics only. Writing it wakes whoever waits;
/// writing a configuration does not.
pub proof fn law_pictures_are_counted<E, M>(session: TxState<E, M>, len: usize)
    requires
        session.frames_since_keepalive < u32::MAX,
        session.bytes_since_keepalive + len <= u64::MAX,
    ensures
        ({
            let serialised = session.after_serialised(len);
            &&& session.counters_fit(1, len as nat)
            &&& session.keep_alive_send_stats_as_body ==> {
                &&& serialised.frames_since_keepalive == session.frames_since_keepalive + 1
                &&& serialised.bytes_since_keepalive == session.bytes_since_keepalive + len
            }
            &&& !session.keep_alive_send_stats_as_body ==> {
                &&& serialised.frames_since_keepalive == session.frames_since_keepalive
                &&& serialised.bytes_since_keepalive == session.bytes_since_keepalive
            }
            &&& serialised == (TxState {
                phase: serialised.phase,
                frames_since_keepalive: serialised.frames_since_keepalive,
                bytes_since_keepalive: serialised.bytes_since_keepalive,
                ..session
            })
            &&& serialised.after_write().1
            &&& serialised.after_write().0.phase is Draining
            &&& session.phase == (TxPhase::Writing { shutting_down: false, picture: false })
                ==> session.after_write() == (
                TxState { phase: TxPhase::Draining { shutting_down: false }, ..session },
                false,
            )
        }),
{
}

/// A reconciliation that is given up leaves all but what it was about to write: deadline, counters and
/// length size stay.
pub proof fn law_giving_up_keeps_the_session<E, M>(session: TxState<E, M>)
    ensures
        session.given_up() == (TxState { phase: TxPhase::Idle, ops: Seq::empty(), ..session }),
        session.finished().0 == (TxState { phase: TxPhase::Idle, ..session }),
{
}

}
