use bytes::BytesMut;
use catplay::screen_frame::ScreenOpCode;
use catplay::screen_tx::{
    AvccConfig, AvccConfigExtended, EncodedVideoFrame, KeepAlive, ScreenTransmitOp, ScreenTransmitProxy,
    ScreenTransmitSession, ScreenTxError, ScreenWrite, TxPhase, DEFAULT_KEEP_ALIVE_MILLIS, DEFAULT_MAX_PENDING_FRAMES,
};
use catplay::time::Duration;

type Session = ScreenTransmitSession<(), ()>;

fn session(interval: Duration, stats: bool) -> (Session, ScreenTransmitProxy) {
    ScreenTransmitSession::new(
        (),
        1,
        (),
        DEFAULT_MAX_PENDING_FRAMES,
        interval,
        stats,
        Duration::from_millis(70),
        Duration::from_secs(100),
    )
}

fn config(nal_size_len: usize) -> AvccConfigExtended {
    AvccConfigExtended {
        avcc: AvccConfig {
            nal_size_len,
            record: vec![1, 100],
        },
    }
}

fn picture(byte: u8) -> EncodedVideoFrame {
    EncodedVideoFrame {
        pts: Duration::zero(),
        known_keyframe: true,
        data: vec![byte],
    }
}

#[test]
fn keep_alive_body_requires_receiver_support() {
    for supported in [false, true] {
        let (mut session, _proxy) = ScreenTransmitSession::new(
            (),
            1,
            (),
            8,
            Duration::from_secs(1),
            supported,
            Duration::zero(),
            Duration::zero(),
        );
        session.frames_since_keepalive = 3;
        session.bytes_since_keepalive = 300;
        session.queued_frames_sum = 6;
        session.queued_frames_samples = 2;

        let now = session.last_keepalive.after(Duration::from_secs(1));
        let keep_alive = session.create_keep_alive(now);
        let frame = keep_alive.frame(b"statistics");
        assert_eq!(frame.header.opcode, keep_alive.opcode());
        if supported {
            assert_eq!(frame.header.opcode, ScreenOpCode::KeepAliveWithBody);
            assert_eq!(&frame.data[..], b"statistics");
            let KeepAlive::WithStats(stats) = keep_alive else { panic!("no stats") };
            assert_eq!(stats.sent_frames, 3);
            assert_eq!(stats.queued_frames_avg, 3);
            let elapsed = stats.elapsed.nanos as f64 / 1e9;
            assert_eq!(stats.sent_bytes as f64 / elapsed, 300.0);
        } else {
            assert_eq!(frame.header.opcode, ScreenOpCode::KeepAlive);
            assert!(frame.data.is_empty());
            let mut wire = BytesMut::new();
            frame.write(&mut wire);
            let mut expected = [0; 128];
            expected[4] = 2;
            assert_eq!(&wire[..], &expected);
        }
    }
}

#[test]
fn kinds_of_operations() {
    let ops = [
        ScreenTransmitOp::Configure(config(4)),
        ScreenTransmitOp::Frame(picture(1)),
        ScreenTransmitOp::TransmitterDropped,
    ];
    for (i, op) in ops.iter().enumerate() {
        assert_eq!((op.is_configure(), op.is_frame(), op.is_shutdown()), (i == 0, i == 1, i == 2));
    }
}

#[test]
fn queue_drains_in_order_with_the_latest_size() {
    let (mut session, mut proxy) = session(Duration::from_secs(1), true);
    assert_eq!(session.nal_size_len, 4);
    proxy.pending_ops.push_back(ScreenTransmitOp::Frame(picture(1)));
    proxy.pending_ops.push_back(ScreenTransmitOp::Configure(config(2)));
    proxy.pending_ops.push_back(ScreenTransmitOp::Frame(picture(2)));
    assert!(session.begin(true, &mut proxy.pending_ops));
    assert_eq!((session.queued_frames_sum, session.queued_frames_samples), (2, 1));
    assert_eq!(
        session.next_write(),
        Some(ScreenWrite::Frame {
            frame: picture(1),
            nal_size_len: 4,
        })
    );
    session.frame_serialised(10);
    assert!(session.written(), "a picture was consumed");
    assert_eq!(session.next_write(), Some(ScreenWrite::Config(config(2))));
    assert!(!session.written());
    assert_eq!(
        session.next_write(),
        Some(ScreenWrite::Frame {
            frame: picture(2),
            nal_size_len: 2,
        })
    );
    session.frame_serialised(20);
    assert!(session.written());
    assert_eq!(session.next_write(), None);
    assert_eq!((session.frames_since_keepalive, session.bytes_since_keepalive), (2, 30));
    assert_eq!(session.heartbeat(Duration::from_secs(101)), None, "due only after the interval");
    assert_eq!(session.finish(), Ok(()));
    assert_eq!(session.phase, TxPhase::Idle);
}

#[test]
fn legacy_sessions_count_nothing() {
    let (mut session, mut proxy) = session(Duration::from_millis(DEFAULT_KEEP_ALIVE_MILLIS), false);
    proxy.pending_ops.push_back(ScreenTransmitOp::Frame(picture(1)));
    assert!(session.begin(true, &mut proxy.pending_ops));
    session.next_write();
    session.frame_serialised(10);
    assert_eq!((session.frames_since_keepalive, session.bytes_since_keepalive), (0, 0));
    assert_eq!((session.queued_frames_sum, session.queued_frames_samples), (0, 0));
    assert!(session.written());
    assert_eq!(session.next_write(), None);
    assert_eq!(session.heartbeat(Duration::from_millis(101_001)), Some(KeepAlive::Bare));
}

#[test]
fn heartbeat_is_due_after_the_interval_and_starts_over() {
    let (mut session, mut proxy) = session(Duration::from_secs(1), true);
    let now = Duration::from_millis(101_001);
    assert!(session.begin(true, &mut proxy.pending_ops));
    assert_eq!(session.next_write(), None);
    session.frames_since_keepalive = 5;
    let keep_alive = session.heartbeat(now).unwrap();
    let KeepAlive::WithStats(stats) = keep_alive else { panic!("no stats") };
    assert_eq!(stats.elapsed, Duration::from_millis(1_001));
    assert_eq!((stats.sent_frames, stats.queued_frames_avg), (5, 0));
    session.keep_alive_queued();
    assert_eq!(session.last_keepalive, now);
    assert_eq!(session.frames_since_keepalive, 0);
    assert_eq!(session.finish(), Ok(()));
    assert_eq!(session.sleep(now), Duration::from_secs(1));
    assert_eq!(session.sleep(Duration::from_millis(101_501)), Duration::from_millis(500));
    assert_eq!(session.sleep(Duration::from_secs(200)), Duration::zero());
}

#[test]
fn failed_heartbeat_leaves_the_deadline() {
    let (mut session, mut proxy) = session(Duration::from_secs(1), false);
    let now = Duration::from_secs(110);
    assert!(session.begin(true, &mut proxy.pending_ops));
    assert_eq!(session.next_write(), None);
    assert!(session.heartbeat(now).is_some());
    session.write_failed(&mut proxy.pending_ops);
    assert_eq!(session.last_keepalive, Duration::from_secs(100));
    assert!(session.begin(true, &mut proxy.pending_ops));
    assert_eq!(session.next_write(), None);
    assert!(session.heartbeat(now).is_some());
}

#[test]
fn failed_write_puts_the_rest_back_in_front() {
    let (mut session, mut proxy) = session(Duration::from_secs(1), false);
    for byte in 1..=3 {
        proxy.pending_ops.push_back(ScreenTransmitOp::Frame(picture(byte)));
    }
    assert!(session.begin(true, &mut proxy.pending_ops));
    assert!(proxy.pending_ops.is_empty());
    session.next_write();
    session.frame_serialised(1);
    proxy.pending_ops.push_back(ScreenTransmitOp::TransmitterDropped);
    session.write_failed(&mut proxy.pending_ops);
    let expected = [
        ScreenTransmitOp::Frame(picture(2)),
        ScreenTransmitOp::Frame(picture(3)),
        ScreenTransmitOp::TransmitterDropped,
    ];
    assert_eq!(proxy.pending_ops, expected);
    assert_eq!(session.phase, TxPhase::Idle);
}

#[test]
fn backpressure_leaves_the_deadline_and_stops_the_timer() {
    let (mut session, mut proxy) = session(Duration::from_secs(1), true);
    proxy.pending_ops.push_back(ScreenTransmitOp::Frame(picture(1)));
    assert!(!session.begin(false, &mut proxy.pending_ops));
    assert_eq!(proxy.pending_ops.len(), 1);
    assert_eq!(session.queued_frames_samples, 0);
    assert_eq!(session.sleep(Duration::from_secs(110)), Duration::longest());
    assert_eq!(session.last_keepalive, Duration::from_secs(100));
    assert!(session.begin(true, &mut proxy.pending_ops));
    assert_eq!(session.sleep(Duration::from_secs(110)), Duration::zero());
}

#[test]
fn no_interval_means_no_heartbeat() {
    let (mut session, mut proxy) = session(Duration::zero(), true);
    assert_eq!(session.sleep(Duration::from_secs(500)), Duration::longest());
    assert!(session.begin(true, &mut proxy.pending_ops));
    assert_eq!(session.next_write(), None);
    assert_eq!(session.heartbeat(Duration::from_secs(500)), None);
}

#[test]
fn pending_shutdown_flushes_without_heartbeat_and_disconnects() {
    let (mut session, mut proxy) = session(Duration::from_secs(1), true);
    proxy.pending_ops.push_back(ScreenTransmitOp::TransmitterDropped);
    proxy.pending_ops.push_back(ScreenTransmitOp::Frame(picture(1)));
    assert!(session.begin(false, &mut proxy.pending_ops), "an unwritable socket does not hold up the end");
    assert!(matches!(session.next_write(), Some(ScreenWrite::Frame { .. })));
    assert_eq!(session.phase, TxPhase::Serialising { shutting_down: true });
    session.frame_serialised(1);
    assert!(session.written());
    assert_eq!(session.next_write(), None);
    assert!(session.ops.is_empty() && proxy.pending_ops.is_empty());
    assert_eq!(session.heartbeat(Duration::from_secs(500)), None);
    assert_eq!(session.finish(), Err(ScreenTxError::DisconnectNow));
}

#[test]
fn other_ends() {
    let (mut session, mut proxy) = session(Duration::from_secs(1), true);
    assert_eq!(proxy.stream_latency, Duration::from_millis(70));
    assert_eq!(proxy.max_pending_frames, 8);
    proxy.pending_ops.push_back(ScreenTransmitOp::Frame(picture(1)));
    proxy.pending_ops.push_back(ScreenTransmitOp::TransmitterDropped);
    assert!(session.begin(true, &mut proxy.pending_ops));
    session.next_write();
    assert_eq!(
        session.frame_not_serialised("TooLong", &mut proxy.pending_ops),
        ScreenTxError::UnexpectedState("unexpected failure during NAL serialization: TooLong".into())
    );
    assert_eq!(proxy.pending_ops, [ScreenTransmitOp::TransmitterDropped]);
    assert_eq!(session.on_msg(), ScreenTxError::ProtocolViolationGeneric);
    assert!(!session.closed);
    session.close();
    assert!(session.closed);
}

/// Runs a reconciliation and gives what was written, how often a picture was consumed, the heartbeat
/// and the end.
fn reconcile(
    session: &mut Session,
    proxy: &mut ScreenTransmitProxy,
    writable: bool,
    now: Duration,
) -> (Vec<ScreenWrite>, usize, Option<KeepAlive>, Result<(), ScreenTxError>) {
    assert!(session.begin(writable, &mut proxy.pending_ops));
    let mut writes = Vec::new();
    let mut consumed = 0;
    while let Some(write) = session.next_write() {
        if matches!(write, ScreenWrite::Frame { .. }) {
            session.frame_serialised(7);
        }
        writes.push(write);
        if session.written() {
            consumed += 1;
        }
    }
    let keep_alive = session.heartbeat(now);
    if keep_alive.is_some() {
        session.keep_alive_queued();
    }
    let end = session.finish();
    (writes, consumed, keep_alive, end)
}

#[test]
fn whole_reconciliation_writes_what_waits_then_beats_once() {
    let queue = || {
        [
            ScreenTransmitOp::Frame(picture(1)),
            ScreenTransmitOp::Configure(config(2)),
            ScreenTransmitOp::Frame(picture(2)),
            ScreenTransmitOp::Frame(picture(3)),
        ]
    };
    let expected = [
        ScreenWrite::Frame {
            frame: picture(1),
            nal_size_len: 4,
        },
        ScreenWrite::Config(config(2)),
        ScreenWrite::Frame {
            frame: picture(2),
            nal_size_len: 2,
        },
        ScreenWrite::Frame {
            frame: picture(3),
            nal_size_len: 2,
        },
    ];
    for (millis, ending) in [(101_000, false), (101_001, false), (101_001, true)] {
        let (mut session, mut proxy) = session(Duration::from_secs(1), true);
        proxy.pending_ops.extend(queue());
        if ending {
            proxy.pending_ops.insert(1, ScreenTransmitOp::TransmitterDropped);
        }
        let now = Duration::from_millis(millis);
        let (writes, consumed, keep_alive, end) = reconcile(&mut session, &mut proxy, !ending, now);
        assert_eq!(writes, expected);
        assert_eq!(consumed, 3);
        let due = millis == 101_001 && !ending;
        if due {
            let Some(KeepAlive::WithStats(stats)) = keep_alive else { panic!("no stats") };
            assert_eq!((stats.sent_frames, stats.sent_bytes, stats.queued_frames_avg), (3, 21, 3));
            assert_eq!(session.last_keepalive, now);
        } else {
            assert_eq!(keep_alive, None);
            assert_eq!(session.last_keepalive, Duration::from_secs(100));
            assert_eq!(session.frames_since_keepalive, 3);
        }
        assert_eq!(end, if ending { Err(ScreenTxError::DisconnectNow) } else { Ok(()) });
        assert_eq!(session.phase, TxPhase::Idle);
        assert!(session.ops.is_empty() && proxy.pending_ops.is_empty());
    }
}

#[test]
fn heartbeat_without_encoded_statistics_is_bare() {
    let (mut session, _proxy) = session(Duration::from_secs(1), true);
    let with_stats = session.create_keep_alive(Duration::from_secs(102));
    let frame = with_stats.frame_or_bare(Some(b"statistics"));
    assert_eq!(frame.header.opcode, ScreenOpCode::KeepAliveWithBody);
    assert_eq!(frame.header.body_size, 10);
    assert_eq!(&frame.data[..], b"statistics");
    for (keep_alive, body) in [
        (with_stats, None),
        (KeepAlive::Bare, None),
        (KeepAlive::Bare, Some(&b"statistics"[..])),
    ] {
        let frame = keep_alive.frame_or_bare(body);
        assert_eq!(frame.header.opcode, ScreenOpCode::KeepAlive);
        assert_eq!(frame.header.body_size, 0);
        assert!(frame.data.is_empty());
    }
}
