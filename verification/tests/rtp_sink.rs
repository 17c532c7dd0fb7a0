use catplay::audio::{RingStats, WriteReport};
use catplay::rtp_sink::{RtpSink, SinkWrite};

#[derive(Default)]
struct Ring {
    samples: Vec<i16>,
    written: usize,
    consumed: usize,
    overflow: usize,
}

const CAPACITY: usize = 1024;

impl Ring {
    fn stat(&self) -> RingStats {
        RingStats {
            capacity: CAPACITY,
            written: self.written,
            consumed: self.consumed,
            readable: self.samples.len(),
            overflow: self.overflow,
            underflow: 0,
        }
    }

    fn write(&mut self, buf: &[i16]) {
        self.samples.extend_from_slice(buf);
        self.written += buf.len();
        while self.samples.len() > CAPACITY {
            self.samples.remove(0);
            self.overflow += 1;
        }
    }

    fn read(&mut self, buf: &mut [i16]) {
        for sample in buf.iter_mut() {
            *sample = self.samples.remove(0);
        }
        self.consumed += buf.len();
    }

    fn read_commit(&mut self, count: usize) {
        self.consumed += count;
    }
}

fn writable(sink: &RtpSink<Ring, ()>) -> usize {
    sink.writable(sink.ring.stat())
}

fn write(sink: &mut RtpSink<Ring, ()>, samples: &[i16]) -> SinkWrite {
    sink.ring.write(samples);
    sink.wrote(samples.len(), WriteReport::Complete)
}

#[test]
fn writable_tracks_full_partial_and_drained_ring() {
    let capacity = CAPACITY;
    let mut sink = RtpSink::new(Ring::default(), 352, ());
    assert_eq!(writable(&sink), capacity);
    write(&mut sink, &vec![7; capacity - 2]);
    assert_eq!(writable(&sink), 2);
    write(&mut sink, &[8, 9]);
    assert_eq!(writable(&sink), 0);
    let mut out = [0; 352];
    sink.ring.read(&mut out);
    assert_eq!(out, [7; 352]);
    assert_eq!(writable(&sink), 352);
    write(&mut sink, &[10; 352]);
    assert_eq!(writable(&sink), 0);
    assert_eq!(sink.ring.stat().overflow, 0);
}

#[test]
fn writable_saturates_until_logical_overflow_is_consumed() {
    let capacity = CAPACITY;
    let mut ring = Ring::default();
    // The ring keeps its overwrite/timeline semantics.
    ring.write(&vec![0; capacity + 20]);
    let mut sink = RtpSink::new(ring, 352, ());
    assert_eq!(writable(&sink), 0);
    sink.ring.read_commit(10);
    assert_eq!(writable(&sink), 0);
    sink.ring.read_commit(10);
    assert_eq!(writable(&sink), 0);
    sink.ring.read_commit(2);
    assert_eq!(writable(&sink), 2);
    sink.ring.read_commit(capacity);
    assert_eq!(writable(&sink), capacity, "reader ahead must not underflow occupancy");
}

#[test]
fn encoder_wakes_when_a_packet_is_complete() {
    let mut sink = RtpSink::new((), 352, ());
    assert!(!sink.wrote(351, WriteReport::Complete).wake);
    assert!(sink.wrote(1, WriteReport::Complete).wake);
    assert!(!sink.wrote(0, WriteReport::Complete).wake);
    assert_eq!(
        sink.wrote(1000, WriteReport::Partial { written: 351 }),
        SinkWrite {
            written: 351,
            partial: true,
            wake: false,
        }
    );
    assert_eq!(
        sink.wrote(705, WriteReport::Complete),
        SinkWrite {
            written: 705,
            partial: false,
            wake: true,
        }
    );
    assert_eq!(sink.written_samples, 352 + 351 + 705);
}
