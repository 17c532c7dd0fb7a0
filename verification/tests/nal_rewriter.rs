use bytes::BytesMut;
use catplay::bit_reader::BitReader;
use catplay::bit_writer::BitWriter;
use catplay::error::H264FrameBufferError;
use catplay::golomb::exp_golomb_bit_len;
use catplay::idr::IdrSlice;
use catplay::nal_rewriter::CarPlayNalRewriter;
use catplay::sps::SpsFields;
use catplay::x264::{EncodedNal, X264FrameBuffer};

fn error<T>(why: &'static str) -> Result<T, H264FrameBufferError> {
    Err(H264FrameBufferError::X264BitstreamRewrite(why))
}

/// Bytes from binary digits, with blanks for readability.
fn bytes_of(digits: &str) -> Vec<u8> {
    let bits: Vec<u8> = digits.bytes().filter(|b| *b != b' ').map(|b| b - b'0').collect();
    assert_eq!(bits.len() % 8, 0);
    bits.chunks(8).map(|chunk| chunk.iter().fold(0, |byte, bit| byte * 2 + bit)).collect()
}

const CARPLAY_SPS: [((u32, u32, u32), &[u8]); 6] = [
    (
        (800, 480, 31),
        &[
            0, 0, 0, 1, 0x27, 0x64, 0x00, 0x1f, 0xac, 0x13, 0x14, 0x50, 0x32, 0x0f, 0x69, 0xb8, 0x08, 0x68, 0x30, 0x36, 0x82, 0x21, 0x19,
            0x60,
        ],
    ),
    (
        (800, 480, 31),
        &[
            0, 0, 0, 1, 0x27, 0x64, 0x00, 0x1f, 0xac, 0x13, 0x14, 0x50, 0x32, 0x0f, 0x69, 0xb8, 0x08, 0x68, 0x30, 0x36, 0x82, 0x21, 0x19,
            0x60,
        ],
    ),
    (
        (960, 540, 31),
        &[
            0, 0, 0, 1, 0x27, 0x64, 0x00, 0x1f, 0xac, 0x13, 0x14, 0x50, 0x3c, 0x04, 0x5f, 0xb9, 0xb8, 0x08, 0x68, 0x30, 0x36, 0x82, 0x21,
            0x19, 0x60,
        ],
    ),
    (
        (960, 540, 32),
        &[
            0, 0, 0, 1, 0x27, 0x64, 0x00, 0x20, 0xac, 0x13, 0x14, 0x50, 0x3c, 0x04, 0x5f, 0xb9, 0xb8, 0x08, 0x68, 0x30, 0x36, 0x82, 0x21,
            0x19, 0x60,
        ],
    ),
    (
        (1920, 720, 40),
        &[
            0, 0, 0, 1, 0x27, 0x64, 0x00, 0x28, 0xac, 0x13, 0x14, 0x50, 0x1e, 0x01, 0x6e, 0x9b, 0x80, 0x86, 0x83, 0x03, 0x68, 0x22, 0x11,
            0x96,
        ],
    ),
    (
        (1920, 720, 42),
        &[
            0, 0, 0, 1, 0x27, 0x64, 0x00, 0x2a, 0xac, 0x13, 0x14, 0x50, 0x1e, 0x01, 0x6e, 0x9b, 0x80, 0x86, 0x83, 0x03, 0x68, 0x22, 0x11,
            0x96,
        ],
    ),
];

struct Sps {
    profile: u32,
    level: u32,
    chroma: u32,
    scaling: u8,
    frame_num: u32,
    poc: u32,
    references: u32,
    width: u32,
    height: u32,
    vui: u8,
}

const PLAIN: Sps = Sps {
    profile: 100,
    level: 31,
    chroma: 1,
    scaling: 0,
    frame_num: 0,
    poc: 2,
    references: 4,
    width: 800,
    height: 480,
    vui: 1,
};

/// A parameter set as x264 writes it.
fn x264_sps(sps: &Sps) -> Vec<u8> {
    let mut writer = BitWriter::default();
    writer.bits(sps.profile, 8);
    writer.bits(0, 8);
    writer.bits(sps.level, 8);
    writer.ue(0);
    writer.ue(sps.chroma);
    writer.ue(0);
    writer.ue(0);
    writer.bit(0);
    writer.bit(sps.scaling);
    writer.ue(sps.frame_num);
    writer.ue(sps.poc);
    writer.ue(sps.references);
    writer.bit(0);
    writer.ue(sps.width / 16 - 1);
    writer.ue(sps.height.div_ceil(16) - 1);
    writer.bit(1);
    writer.bit(1);
    let crop = (16 - sps.height % 16) % 16 / 2;
    writer.bit((crop != 0) as u8);
    if crop != 0 {
        for edge in [0, 0, 0, crop] {
            writer.ue(edge);
        }
    }
    writer.bit(sps.vui);
    writer.bits(0x1234_5678, 32);
    writer.rbsp_trailing_bits();
    let mut nal = vec![0, 0, 0, 1, 0x27];
    nal.extend(CarPlayNalRewriter::add_emulation_prevention(&writer.into_bytes()));
    nal
}

#[test]
fn parameter_sets_become_those_of_apple() {
    for ((width, height, level), apple) in CARPLAY_SPS {
        let nal = x264_sps(&Sps {
            width,
            height,
            level,
            ..PLAIN
        });
        assert_eq!(CarPlayNalRewriter::rewrite_sps(&nal).unwrap(), apple);
        assert_eq!(
            CarPlayNalRewriter::rewrite_sps(apple),
            error("unexpected x264 frame_num/POC model"),
            "a second rewrite is refused"
        );
    }
}

#[test]
fn other_parameter_sets_are_refused() {
    let refused = |sps: Sps, why| assert_eq!(CarPlayNalRewriter::rewrite_sps(&x264_sps(&sps)), error(why));
    refused(Sps { profile: 77, ..PLAIN }, "expected High Profile SPS");
    refused(Sps { scaling: 1, ..PLAIN }, "custom SPS scaling matrices are unsupported");
    refused(Sps { frame_num: 1, ..PLAIN }, "unexpected x264 frame_num/POC model");
    refused(Sps { poc: 0, ..PLAIN }, "unexpected x264 frame_num/POC model");
    refused(Sps { references: 3, ..PLAIN }, "expected four decoded reference frames");
    refused(Sps { vui: 0, ..PLAIN }, "expected VUI parameters");
    assert_eq!(CarPlayNalRewriter::rewrite_sps(&[0, 0, 2]), error("missing Annex-B start code"));
    assert_eq!(CarPlayNalRewriter::rewrite_sps(&[0, 0, 1]), error("missing SPS NAL header"));
    assert_eq!(CarPlayNalRewriter::rewrite_sps(&[0, 0, 1, 0x68]), error("expected SPS NAL"));
    assert_eq!(CarPlayNalRewriter::rewrite_sps(&[0, 0, 1, 0x67, 100]), error("truncated RBSP"));
    assert_eq!(
        CarPlayNalRewriter::rewrite_sps(&[0, 0, 1, 0x67, 100, 0, 31]),
        error("truncated Exp-Golomb value")
    );
    assert_eq!(
        CarPlayNalRewriter::rewrite_sps(&[0, 0, 1, 0x67, 100, 0, 31, 0]),
        error("invalid Exp-Golomb value")
    );
}

#[test]
fn planes_of_their_own_are_kept() {
    // The flag for separate planes follows only where there is more than one.
    let mut writer = BitWriter::default();
    writer.bits(100, 8);
    writer.bits(0, 8);
    writer.bits(31, 8);
    writer.ue(0);
    writer.ue(3);
    writer.bit(1);
    for _ in 0..2 {
        writer.ue(0);
    }
    writer.bits(0, 2);
    for value in [0, 2, 4] {
        writer.ue(value);
    }
    writer.bit(0);
    writer.ue(49);
    writer.ue(29);
    writer.bits(0b010, 3);
    writer.bit(0);
    writer.bit(1);
    writer.rbsp_trailing_bits();
    let fields = SpsFields::parse(&writer.into_bytes()).unwrap();
    assert_eq!(fields.format.separate_colour_plane, Some(1));
    assert_eq!(fields.framing.mb_adaptive_frame_field, Some(1));
    assert_eq!(fields.framing.crop, None);
    assert!(fields.to_carplay_rbsp().len() > 16);
}

/// An IDR slice as x264 writes it: the first slice, with the deblocking filter off.
const X264_IDR: &str = "1 0001000 1 0000 1 0 0 00111 010";
const CARPLAY_IDR: &str = "1 0001000 1 000000000000 1 0000000000000 0 0 00111 010 111";

fn idr(header: u8, digits: &str, payload: &[u8]) -> Vec<u8> {
    let mut rbsp = bytes_of(digits);
    rbsp.extend_from_slice(payload);
    let mut nal = vec![0, 0, 1, header];
    nal.extend(CarPlayNalRewriter::add_emulation_prevention(&rbsp));
    nal
}

#[test]
fn idr_slices_get_wider_numbers_and_keep_their_payload() {
    let payload = [0xde, 0xad, 0, 0, 1, 0, 0, 0, 3, 0xff];
    let nal = idr(0x65, X264_IDR, &payload);
    assert!(CarPlayNalRewriter::idr_deltas_encodable(&nal));
    assert_eq!(CarPlayNalRewriter::rewrite_idr(&nal).unwrap(), idr(0x65, CARPLAY_IDR, &payload));
    let (slice, start) = IdrSlice::parse(&bytes_of(X264_IDR)).unwrap();
    assert_eq!(start, 3);
    assert_eq!(slice.id.slice_type, 7);
    assert_eq!(slice.tuning.slice_qp_delta, -3);
    assert_eq!(slice.to_carplay_header(), bytes_of(CARPLAY_IDR));
}

#[test]
fn deblocking_offsets_are_kept() {
    // Filter on, with offsets 1 and -1.
    let source = "1 011 1 0101 1 1 0 1 1 010 011 1111";
    let expected = "1 011 1 000000000101 1 0000000000000 1 0 1 1 010 011 1111111";
    let nal = idr(0x25, source, &[0x42]);
    assert_eq!(CarPlayNalRewriter::rewrite_idr(&nal).unwrap(), idr(0x25, expected, &[0x42]));
}

#[test]
fn other_slices_are_refused() {
    let refused = |nal: &[u8], why| assert_eq!(CarPlayNalRewriter::rewrite_idr(nal), error(why));
    refused(&[1, 2, 3], "missing Annex-B start code");
    refused(&[0, 0, 0, 1], "missing IDR NAL header");
    refused(&idr(0x61, X264_IDR, &[]), "expected reference IDR NAL");
    refused(&idr(0x05, X264_IDR, &[]), "expected reference IDR NAL");
    refused(&idr(0x65, "1 1 1 00000", &[]), "expected I slice using PPS 0");
    refused(&idr(0x65, "1 011 010 0", &[]), "expected I slice using PPS 0");
    refused(&idr(0x65, "1 011 1 0101 1 1 0 1 1 010 011 1101", &[]), "invalid CABAC alignment");
    refused(&idr(0x65, "1 011 1 000", &[]), "truncated RBSP");
    refused(&idr(0x65, "1 011 1 0000 1 0 0 0000", &[]), "invalid signed Exp-Golomb value");
    refused(&idr(0x65, "1 011 1 0000 1 0 0 1 000", &[0; 2]), "invalid Exp-Golomb value");
}

#[test]
fn start_codes_are_escaped_and_unescaped() {
    let data = [0, 0, 0, 0, 0, 1, 0, 0, 3, 0, 0, 4];
    let escaped = CarPlayNalRewriter::add_emulation_prevention(&data);
    assert_eq!(escaped, [0, 0, 3, 0, 0, 3, 0, 1, 0, 0, 3, 3, 0, 0, 4]);
    assert_eq!(CarPlayNalRewriter::remove_emulation_prevention(&escaped), data);
    assert_eq!(CarPlayNalRewriter::annexb_prefix_len(&[0, 0, 0, 1]), Ok(4));
    assert_eq!(CarPlayNalRewriter::annexb_prefix_len(&[0, 0, 1]), Ok(3));
    assert_eq!(
        CarPlayNalRewriter::rebuild_nal(&[0, 0, 1, 9, 9], 3, 0x65, &[0, 0, 0]),
        [0, 0, 1, 0x65, 0, 0, 3, 0]
    );
}

#[test]
fn vui_is_that_of_apple() {
    let mut writer = BitWriter::default();
    CarPlayNalRewriter::write_carplay_vui(&mut writer);
    writer.align_zero();
    assert_eq!(
        writer.into_bytes(),
        bytes_of("0 0 1 101 1 1 00000001 00001101 00000110 0 0 0 0 0 1 1 011 010 000010001 000010001 1 00101 000")
    );
}

#[test]
fn bits_read_back() {
    let mut writer = BitWriter::default();
    writer.ue(0);
    writer.ue(u32::MAX);
    writer.se(-5);
    writer.se(i32::MAX);
    writer.bits(0xdead_beef, 32);
    writer.bit(1);
    writer.align_one();
    let bytes = writer.into_bytes();
    let mut reader = BitReader::new(&bytes);
    assert_eq!(reader.ue(), Ok(0));
    assert_eq!(reader.ue(), Ok(u32::MAX));
    assert_eq!(reader.pos, 66);
    assert_eq!(reader.se(), Ok(-5));
    assert_eq!(reader.se(), Ok(i32::MAX));
    assert_eq!(reader.bits(32), Ok(0xdead_beef));
    assert_eq!(reader.bit(), Ok(1));
    assert_eq!(reader.bits(33), error("bit field is too wide"));
}

#[test]
fn large_codes_are_refused() {
    // The code numbers 2^32 and 2^32 + 1.
    let even = [0, 0, 0, 0, 0x80, 0, 0, 0, 0x80];
    let odd = [0, 0, 0, 0, 0x80, 0, 0, 1, 0];
    assert_eq!(BitReader::new(&even).ue(), error("Exp-Golomb value exceeds u32"));
    assert_eq!(BitReader::new(&even).se(), Ok(i32::MIN));
    assert_eq!(BitReader::new(&odd).se(), error("signed Exp-Golomb value exceeds i32"));
    let zeros = "0".repeat(31);
    let slice = idr(0x65, &format!("1 011 1 0000 1 0 0 0{zeros} 1{zeros} 1 010"), &[]);
    assert!(!CarPlayNalRewriter::idr_deltas_encodable(&slice));
    assert_eq!(BitReader::new(&[]).se(), error("truncated signed Exp-Golomb value"));
    assert_eq!(BitReader::new(&[0]).se(), error("invalid signed Exp-Golomb value"));
    assert_eq!(exp_golomb_bit_len(0), Ok(1));
    assert_eq!(exp_golomb_bit_len(6), Ok(5));
    assert_eq!(exp_golomb_bit_len(u64::MAX - 1), Ok(127));
    assert_eq!(exp_golomb_bit_len(u64::MAX), error("Exp-Golomb value is too large"));
}

#[test]
fn encoder_output_goes_out_without_supplemental_information() {
    let sps = x264_sps(&PLAIN);
    let slice = idr(0x65, X264_IDR, &[1, 2, 3]);
    let pps = [0, 0, 0, 1, 0x68, 0xee, 0x3c, 0xb0];
    let nals = [
        EncodedNal { kind: 7, payload: &sps },
        EncodedNal { kind: 8, payload: &pps },
        EncodedNal { kind: 6, payload: &[0, 0, 1, 6, 5] },
        EncodedNal { kind: 5, payload: &slice },
    ];
    let mut out = BytesMut::from(&b"x"[..]);
    X264FrameBuffer::after_encode(0, &nals, &mut out).unwrap();
    let mut expected = b"x".to_vec();
    expected.extend_from_slice(CARPLAY_SPS[0].1);
    expected.extend_from_slice(&pps);
    expected.extend(idr(0x65, CARPLAY_IDR, &[1, 2, 3]));
    assert_eq!(out, expected);

    let mut out = BytesMut::new();
    let broken = [nals[1], EncodedNal { kind: 7, payload: &pps }, nals[1]];
    assert_eq!(X264FrameBuffer::after_headers(3, &broken, &mut out), error("expected SPS NAL"));
    assert_eq!(&out[..], &pps);
    assert_eq!(
        X264FrameBuffer::after_encode(-2, &nals, &mut out),
        Err(H264FrameBufferError::X264EncoderEncode(-2))
    );
    assert_eq!(
        X264FrameBuffer::after_headers(-3, &nals, &mut out),
        Err(H264FrameBufferError::X264EncoderHeaders(-3))
    );
    assert_eq!(&out[..], &pps);
}

#[test]
fn delivery_needs_room() {
    let payload = [0; 100];
    let nals = [EncodedNal { kind: 8, payload: &payload }; 3];
    let bound = 3 * (200 + 512);
    assert!(X264FrameBuffer::delivery_fits(&nals, isize::MAX as usize - bound));
    assert!(!X264FrameBuffer::delivery_fits(&nals, isize::MAX as usize - bound + 1));
    assert!(!X264FrameBuffer::delivery_fits(&[], usize::MAX));
    assert!(X264FrameBuffer::delivery_fits(&[], 0));
}

#[test]
fn delivery_in_two_calls_is_that_in_one() {
    let sps = x264_sps(&PLAIN);
    let slice = idr(0x65, X264_IDR, &[1, 2, 3]);
    let nals = [EncodedNal { kind: 7, payload: &sps }, EncodedNal { kind: 5, payload: &slice }];
    let mut whole = BytesMut::new();
    X264FrameBuffer::transfer_nals(&nals, &mut whole).unwrap();
    let mut parts = BytesMut::new();
    X264FrameBuffer::transfer_nals(&nals[..1], &mut parts).unwrap();
    X264FrameBuffer::transfer_nals(&nals[1..], &mut parts).unwrap();
    assert_eq!(whole, parts);
}

#[test]
fn only_slices_that_are_reached_have_to_be_encodable() {
    let zeros = "0".repeat(31);
    let least = idr(0x65, &format!("1 011 1 0000 1 0 0 0{zeros} 1{zeros} 1 010"), &[]);
    let broken = EncodedNal { kind: 7, payload: &[0, 0, 1, 0x68] };
    let slice = EncodedNal { kind: 5, payload: &least };
    let other = EncodedNal { kind: 8, payload: &[0, 0, 1, 0x68] };
    assert!(!X264FrameBuffer::deltas_encodable(&[slice]));
    assert!(!X264FrameBuffer::deltas_encodable(&[other, slice]));
    assert!(X264FrameBuffer::deltas_encodable(&[broken, slice]));
    assert!(X264FrameBuffer::deltas_encodable(&[other, broken]));
    let mut out = BytesMut::new();
    assert_eq!(X264FrameBuffer::after_encode(0, &[other, broken, slice], &mut out), error("expected SPS NAL"));
    assert_eq!(&out[..], other.payload);
    assert_eq!(
        X264FrameBuffer::after_encode(-1, &[slice], &mut out),
        Err(H264FrameBufferError::X264EncoderEncode(-1))
    );
}

#[test]
fn escaping_leaves_what_needs_none() {
    for data in [&[][..], &[0, 0], &[0, 0, 4, 0, 0], &[1, 0, 3, 0, 2, 0, 1, 0], &[3, 0, 0, 255]] {
        assert_eq!(CarPlayNalRewriter::add_emulation_prevention(data), data);
    }
    for last in 0..=3 {
        let data = [7, 0, 0, last];
        assert_eq!(CarPlayNalRewriter::add_emulation_prevention(&data), [7, 0, 0, 3, last]);
    }
}
