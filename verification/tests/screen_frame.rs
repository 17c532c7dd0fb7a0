use std::io::Cursor;

use bytes::BytesMut;
use catplay::float::{f32_floor_to_u32, f32_from_u32};
use catplay::screen_frame::{adjacent_run, NalChunk, ScreenFrame, ScreenFrameHeader, ScreenOpCode, Value64};

fn as_f32(value: &Value64) -> (f32, f32) {
    let (a, b) = value.as_u32();
    (f32::from_bits(a), f32::from_bits(b))
}

#[test]
fn keep_alive_with_empty_stats_wire() {
    let frame = ScreenFrame::keep_alive_with_empty_stats();
    let mut wire = BytesMut::new();
    frame.write(&mut wire);
    assert_eq!(ScreenFrameHeader::size(), 128);
    assert_eq!(wire.len(), 128 + 42);
    let mut expected = [0; 128];
    expected[..4].copy_from_slice(&42u32.to_le_bytes());
    expected[4] = 5;
    expected[124..].copy_from_slice(&42f32.to_le_bytes());
    assert_eq!(&wire[..128], &expected);
    let header = ScreenFrameHeader::from_bytes(&wire).unwrap();
    assert_eq!(header.body_size as usize, wire.len() - 128);
    assert_eq!(as_f32(&header.params[14]), (0.0, 42.0));
    let empty = plist::Value::Dictionary(plist::Dictionary::new());
    assert_eq!(plist::Value::from_reader(Cursor::new(&wire[128..])).unwrap(), empty);
    let mut encoded = Vec::new();
    empty.to_writer_binary(&mut encoded).unwrap();
    assert_eq!(encoded, frame.data);
}

#[test]
fn keep_alive_legacy_wire_unchanged() {
    let mut wire = BytesMut::new();
    ScreenFrame::keep_alive().write(&mut wire);
    let mut expected = [0; 128];
    expected[4] = 2;
    assert_eq!(&wire[..], &expected);
}

fn part(buf: &BytesMut) -> (usize, usize) {
    (buf.as_ptr() as usize, buf.len())
}

#[test]
fn adjacent_slice_mut_ignores_empty_buffers() {
    let mut backing = BytesMut::from(&b"abcdef"[..]);
    let start = backing.as_ptr() as usize;
    let left = backing.split_to(2);
    let empty = BytesMut::new();
    let right = backing.split_to(4);

    assert_eq!(adjacent_run(&[part(&left), part(&empty), part(&right)]), Some((start, 6)));
    assert_eq!(adjacent_run(&[part(&right), part(&left)]), None);
    assert_eq!(adjacent_run(&[part(&empty), part(&right)]), Some((start + 2, 4)));
    assert_eq!(adjacent_run(&[part(&empty)]), None);
}

#[test]
fn as_adjacent_slice_mut_ignores_empty_data() {
    let mut backing = BytesMut::from(&vec![0u8; ScreenFrameHeader::size() + 16][..]);
    let header_buf = backing.split_to(ScreenFrameHeader::size());
    let mut data = backing.split_to(16);
    let chacha_tag_buf = data.split_off(0);

    let (header_at, data_at, tag_at) = (part(&header_buf).0, part(&data).0, part(&chacha_tag_buf).0);
    let frame = ScreenFrame::with_buffers_chacha(ScreenFrameHeader::default(), data, header_buf, chacha_tag_buf);
    let (at, len) = frame.adjacent_run(header_at, data_at, tag_at).unwrap();

    assert_eq!(at, header_at);
    assert_eq!(len, ScreenFrameHeader::size() + 16);
    assert_eq!(frame.adjacent_run(header_at, data_at, tag_at + 1), None);
}

#[test]
fn only_whole_headers_and_tags_lie_adjacent() {
    let header = ScreenFrameHeader::default();
    let short = ScreenFrame::with_buffers(header, BytesMut::new(), BytesMut::from(&[0; 127][..]));
    assert_eq!(short.adjacent_run(1000, 1127, 1127), None);
    let bare = ScreenFrame::with_buffers(header, BytesMut::from(&b"xyz"[..]), BytesMut::from(&[0; 128][..]));
    assert_eq!(bare.adjacent_run(1000, 1128, 5), Some((1000, 131)));
    let odd = ScreenFrame::with_buffers_chacha(
        header,
        BytesMut::new(),
        BytesMut::from(&[0; 128][..]),
        BytesMut::from(&[0; 15][..]),
    );
    assert_eq!(odd.adjacent_run(1000, 0, 1128), None);
}

#[test]
fn header_reads_back() {
    let mut params = [Value64::default(); 15];
    for (i, param) in params.iter_mut().enumerate() {
        *param = Value64::from_u64(0x0102_0304_0506_0700 + i as u64);
    }
    let header = ScreenFrameHeader {
        body_size: 0x8001_0203,
        opcode: ScreenOpCode::ForceKeyFrame,
        small_param: [9, 8, 7],
        params,
    };
    let mut wire = BytesMut::from(&b"before"[..]);
    header.write(&mut wire);
    assert_eq!(wire.len(), 6 + 128);
    assert_eq!(&wire[..14], b"before\x03\x02\x01\x80\x03\x09\x08\x07");
    assert_eq!(wire[14..22], [0, 7, 6, 5, 4, 3, 2, 1]);
    let read = ScreenFrameHeader::from_bytes(&wire[6..]).unwrap();
    assert_eq!(read.body_size, header.body_size);
    assert_eq!(read.opcode, header.opcode);
    assert_eq!(read.small_param, header.small_param);
    for i in 0..15 {
        assert_eq!(read.params[i].serialize(), params[i].serialize());
    }
    assert!(ScreenFrameHeader::from_bytes(&wire[..127]).is_none());
}

#[test]
fn opcodes_have_codes() {
    for code in 0..=255u8 {
        let opcode = ScreenOpCode::parse(code);
        if code <= 5 {
            assert_eq!(opcode.code(), code);
        } else {
            assert_eq!(opcode, ScreenOpCode::Invalid);
        }
    }
    assert_eq!(ScreenOpCode::default().code(), 255);
}

#[test]
fn values_read_back() {
    assert_eq!(Value64::from_u32(1, 0xfffe_fdfc).as_u32(), (1, 0xfffe_fdfc));
    assert_eq!(Value64::from_u32(1, 2).as_u64(), 0x2_0000_0001);
    assert_eq!(Value64::from_u64(u64::MAX - 1).as_u64(), u64::MAX - 1);
    assert_eq!(Value64::from_u64(0x0807_0605_0403_0201).serialize(), [1, 2, 3, 4, 5, 6, 7, 8]);
    assert_eq!(Value64::new([1; 8]).as_u64(), 0x0101_0101_0101_0101);
    assert_eq!(Value64::from_f32_floor(800, 480).as_f32_floor(), (800, 480));
    assert_eq!(as_f32(&Value64::from_f32_floor(800, 480)), (800.0, 480.0));
}

#[test]
fn values_as_text() {
    assert_eq!(Value64::default().debug("(0.0, 0.0)"), "Value64(0)");
    let value = Value64::from_f32_floor(0, 42);
    let floats = format!("{:?}", as_f32(&value));
    assert_eq!(
        value.debug(&floats),
        format!(
            "Value64(u64: {:?}, u32: {:?}, f32: {:?})",
            value.as_u64(),
            value.as_u32(),
            as_f32(&value)
        )
    );
    assert_eq!(value.debug(&floats), "Value64(u64: 4767060205571670016, u32: (0, 1109917696), f32: (0.0, 42.0))");
}

#[test]
fn conversion_is_that_of_the_machine() {
    let mut values = vec![0, 1, 2, 3, 5, 0xff_ffff, 0x100_0000, 0x100_0001, 0x100_0002, 0x100_0003, u32::MAX];
    for shift in 0..32 {
        for delta in [0u32, 1, 0x7f, 0x80, 0x81] {
            values.push((1u32 << shift).wrapping_add(delta));
            values.push((1u32 << shift).wrapping_sub(delta));
        }
    }
    for value in values {
        assert_eq!(f32_from_u32(value), (value as f32).to_bits(), "{value}");
        assert_eq!(f32_floor_to_u32(f32_from_u32(value)), (value as f32).floor() as u32, "{value}");
    }
    for float in [
        0.0,
        -0.0,
        0.5,
        0.999_999_94,
        1.0,
        1.5,
        -1.5,
        8_388_607.5,
        16_777_216.0,
        4_294_967_040.0,
        4_294_967_296.0,
        f32::MAX,
        f32::MIN_POSITIVE,
        f32::INFINITY,
        f32::NEG_INFINITY,
        f32::NAN,
        -f32::NAN,
    ] {
        assert_eq!(f32_floor_to_u32(float.to_bits()), float.floor() as u32, "{float}");
    }
}

#[test]
fn frames_keep_their_buffers() {
    let mut frame = ScreenFrame::new(ScreenFrameHeader::default(), BytesMut::from(&b"body"[..]));
    assert!(frame.header_buf.is_empty() && frame.chacha_tag_buf.is_empty());
    frame.nal_offset_cache.push(NalChunk { offset: 4, len: 7 });
    let copy = frame.clone();
    frame.data[0] = b'B';
    assert_eq!(&copy.data[..], b"body");
    assert_eq!(copy.nal_offset_cache, frame.nal_offset_cache);
    let mut wire = BytesMut::new();
    frame.write(&mut wire);
    assert_eq!(wire[4], 255);
    assert_eq!(&wire[128..], b"Body");
    let beat = ScreenFrame::keep_alive_with_body(b"stats");
    assert_eq!(beat.header.body_size, 5);
    assert_eq!(as_f32(&beat.header.params[14]), (0.0, 5.0));
    assert_eq!(ScreenFrame::default().header.opcode, ScreenOpCode::Invalid);
}

#[test]
fn header_writes_back() {
    let mut bytes: Vec<u8> = (0..128).collect();
    for (opcode, written) in [(0, 0), (5, 5), (255, 255), (6, 255)] {
        bytes[4] = opcode;
        let mut wire = BytesMut::new();
        ScreenFrameHeader::from_bytes(&bytes).unwrap().write(&mut wire);
        assert_eq!(wire[4], written, "an unknown opcode becomes the invalid one");
        assert_eq!(&wire[..4], &bytes[..4]);
        assert_eq!(&wire[5..], &bytes[5..]);
    }
}
