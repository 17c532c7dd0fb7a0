//! Frames of the screen stream.

use bytes::BytesMut;
use vstd::prelude::*;
use vstd::string::StringExecFns;

use crate::buffer::{append, buffer_bytes, buffer_len, buffer_with_capacity, contents, empty_buffer};
use crate::endian::{
    law_bytes_are_digits, le_bytes, le_value, lemma_le_bytes_len, lemma_le_bytes_of_value, lemma_le_value_of_four,
    lemma_le_value_of_halves, u32_from_le, u32_to_le,
};
use crate::float::{f32_bits, f32_floor, f32_floor_to_u32, f32_from_u32, law_floor_undoes_conversion};
use crate::text::{decimal, decimal_text};

verus! {

/// Eight bytes of a frame header, which hold one or two numbers.
#[derive(Debug, Clone, Copy)]
pub struct Value64 {
    pub u8: [u8; 8],
}

/// The text of a value, given that of its two floats.
pub open spec fn value_text(bytes: Seq<u8>, floats: Seq<char>) -> Seq<char> {
    if le_value(bytes) == 0 {
        "Value64(0)"@
    } else {
        "Value64(u64: "@ + decimal(le_value(bytes)) + ", u32: ("@ + decimal(
            le_value(bytes.take(4)),
        ) + ", "@ + decimal(le_value(bytes.skip(4))) + "), f32: "@ + floats + ")"@
    }
}

impl Value64 {
    /// Eight zero bytes.
    pub fn default() -> (value: Self)
        ensures
            value.u8@ == Seq::new(8, |i: int| 0u8),
    {
        let value = Value64 { u8: [0, 0, 0, 0, 0, 0, 0, 0] };
        assert(value.u8@ =~= Seq::new(8, |i: int| 0u8));
        value
    }

    /// The value of these bytes.
    pub fn new(val: [u8; 8]) -> (value: Self)
        ensures
            value.u8 == val,
    {
        Value64 { u8: val }
    }

    /// Two numbers, converted to single precision.
    pub fn from_f32_floor(a: u32, b: u32) -> (value: Self)
        ensures
            value.u8@ == le_bytes(f32_bits(a), 4) + le_bytes(f32_bits(b), 4),
    {
        Self::from_u32(f32_from_u32(a), f32_from_u32(b))
    }

    /// Two numbers.
    pub fn from_u32(a: u32, b: u32) -> (value: Self)
        ensures
            value.u8@ == le_bytes(a as nat, 4) + le_bytes(b as nat, 4),
    {
        let x = u32_to_le(a);
        let y = u32_to_le(b);
        let value = Value64 { u8: [x[0], x[1], x[2], x[3], y[0], y[1], y[2], y[3]] };
        assert(value.u8@ =~= x@ + y@);
        value
    }

    /// One number.
    pub fn from_u64(a: u64) -> (value: Self)
        ensures
            value.u8@ == le_bytes(a as nat, 8),
            le_value(value.u8@) == a,
    {
        let value = Self::from_u32((a % 0x1_0000_0000) as u32, (a / 0x1_0000_0000) as u32);
        proof {
            let low = (a % 0x1_0000_0000) as nat;
            let high = (a / 0x1_0000_0000) as nat;
            lemma_le_bytes_len(low, 4);
            lemma_le_bytes_len(high, 4);
            lemma_le_value_of_bytes(low);
            lemma_le_value_of_bytes(high);
            assert(value.u8@.take(4) =~= le_bytes(low, 4));
            assert(value.u8@.skip(4) =~= le_bytes(high, 4));
            lemma_le_value_of_halves(value.u8@);
            lemma_le_bytes_of_value(value.u8@);
        }
        value
    }

    /// The two floats, rounded down and kept in range.
    pub fn as_f32_floor(&self) -> (pair: (u32, u32))
        ensures
            pair.0 == f32_floor(le_value(self.u8@.take(4)) as u32),
            pair.1 == f32_floor(le_value(self.u8@.skip(4)) as u32),
    {
        let (a, b) = self.as_u32();
        (f32_floor_to_u32(a), f32_floor_to_u32(b))
    }

    /// The two numbers.
    pub fn as_u32(&self) -> (pair: (u32, u32))
        ensures
            pair.0 == le_value(self.u8@.take(4)),
            pair.1 == le_value(self.u8@.skip(4)),
    {
        let b = self.u8;
        let low = [b[0], b[1], b[2], b[3]];
        let high = [b[4], b[5], b[6], b[7]];
        assert(low@ =~= b@.take(4));
        assert(high@ =~= b@.skip(4));
        (u32_from_le(low), u32_from_le(high))
    }

    /// The one number.
    pub fn as_u64(&self) -> (value: u64)
        ensures
            value == le_value(self.u8@),
    {
        let (low, high) = self.as_u32();
        proof {
            lemma_le_value_of_halves(self.u8@);
        }
        low as u64 + 0x1_0000_0000 * high as u64
    }

    /// The bytes.
    pub fn serialize(&self) -> (bytes: [u8; 8])
        ensures
            bytes == self.u8,
    {
        self.u8
    }

    /// The value as text, with the text of its two floats filled in.
    pub fn debug(&self, floats: &str) -> (text: String)
        ensures
            text@ == value_text(self.u8@, floats@),
    {
        let number: u64 = self.as_u64();
        if number == 0 {
            return String::from_str("Value64(0)");
        }
        let (a, b) = self.as_u32();
        let mut text = String::from_str("Value64(u64: ");
        text.append(decimal_text(number).as_str());
        text.append(", u32: (");
        text.append(decimal_text(a as u64).as_str());
        text.append(", ");
        text.append(decimal_text(b as u64).as_str());
        text.append("), f32: ");
        text.append(floats);
        text.append(")");
        text
    }
}

proof fn lemma_le_value_of_bytes(value: nat)
    requires
        value <= u32::MAX,
    ensures
        le_value(le_bytes(value, 4)) == value,
{
    let bytes = le_bytes(value, 4);
    reveal_with_fuel(le_bytes, 5);
    lemma_le_bytes_len(value, 4);
    lemma_le_value_of_four(bytes);
}

impl Default for Value64 {
    fn default() -> (value: Self)
        ensures
            value.u8@ == Seq::new(8, |i: int| 0u8),
    {
        Self::default()
    }
}

/// How many bytes a frame header takes.
pub const SCREEN_FRAME_HEADER_LEN: usize = 128;

/// How many bytes an authentication tag takes.
pub const TAG_LEN: usize = 16;

/// What a frame is for.
#[derive(Debug, Clone, Copy, PartialEq, Eq, Structural)]
pub enum ScreenOpCode {
    VideoFrame,
    VideoConfig,
    KeepAlive,
    ForceKeyFrame,
    Ignore,
    KeepAliveWithBody,
    Invalid,
}

impl Default for ScreenOpCode {
    fn default() -> (opcode: Self)
        ensures
            opcode == ScreenOpCode::Invalid,
    {
        ScreenOpCode::Invalid
    }
}

impl ScreenOpCode {
    /// The byte that stands for the opcode.
    pub open spec fn spec_code(self) -> u8 {
        match self {
            ScreenOpCode::VideoFrame => 0,
            ScreenOpCode::VideoConfig => 1,
            ScreenOpCode::KeepAlive => 2,
            ScreenOpCode::ForceKeyFrame => 3,
            ScreenOpCode::Ignore => 4,
            ScreenOpCode::KeepAliveWithBody => 5,
            ScreenOpCode::Invalid => 255,
        }
    }

    /// The byte that stands for the opcode.
    pub fn code(self) -> (byte: u8)
        ensures
            byte == self.spec_code(),
    {
        match self {
            ScreenOpCode::VideoFrame => 0,
            ScreenOpCode::VideoConfig => 1,
            ScreenOpCode::KeepAlive => 2,
            ScreenOpCode::ForceKeyFrame => 3,
            ScreenOpCode::Ignore => 4,
            ScreenOpCode::KeepAliveWithBody => 5,
            ScreenOpCode::Invalid => 255,
        }
    }

    /// The opcode that a byte stands for; a byte that stands for none is invalid.
    pub fn parse(val: u8) -> (opcode: ScreenOpCode)
        ensures
            opcode.spec_code() == val || val > 5 && opcode == ScreenOpCode::Invalid,
    {
        match val {
            0 => ScreenOpCode::VideoFrame,
            1 => ScreenOpCode::VideoConfig,
            2 => ScreenOpCode::KeepAlive,
            3 => ScreenOpCode::ForceKeyFrame,
            4 => ScreenOpCode::Ignore,
            5 => ScreenOpCode::KeepAliveWithBody,
            _ => ScreenOpCode::Invalid,
        }
    }
}

/// What precedes the body of a frame.
#[derive(Debug, Clone, Copy)]
pub struct ScreenFrameHeader {
    pub body_size: u32,
    pub opcode: ScreenOpCode,
    pub small_param: [u8; 3],
    pub params: [Value64; 15],
}

/// The bytes of parameters in a row.
pub open spec fn params_bytes(params: Seq<Value64>) -> Seq<u8>
    decreases params.len(),
{
    if params.len() == 0 {
        Seq::empty()
    } else {
        params_bytes(params.drop_last()) + params.last().u8@
    }
}

/// The bytes of a header.
pub open spec fn header_bytes(header: ScreenFrameHeader) -> Seq<u8> {
    le_bytes(header.body_size as nat, 4) + seq![header.opcode.spec_code()] + header.small_param@
        + params_bytes(header.params@)
}

/// Whether `header` is what the first bytes of `bytes` say.
pub open spec fn header_at(bytes: Seq<u8>, header: ScreenFrameHeader) -> bool {
    &&& header.body_size == le_value(bytes.take(4))
    &&& header.opcode.spec_code() == bytes[4] || bytes[4] > 5 && header.opcode
        == ScreenOpCode::Invalid
    &&& header.small_param@ == bytes.subrange(5, 8)
    &&& forall|i: int|
        0 <= i < 15 ==> (#[trigger] header.params@[i]).u8@ == bytes.subrange(8 + 8 * i, 16 + 8 * i)
}

proof fn lemma_params_bytes_len(params: Seq<Value64>)
    ensures
        params_bytes(params).len() == 8 * params.len(),
    decreases params.len(),
{
    if params.len() > 0 {
        lemma_params_bytes_len(params.drop_last());
    }
}

proof fn lemma_params_bytes_part(params: Seq<Value64>, i: int)
    requires
        0 <= i < params.len(),
    ensures
        params_bytes(params).len() == 8 * params.len(),
        params_bytes(params).subrange(8 * i, 8 * i + 8) == params[i].u8@,
    decreases params.len(),
{
    lemma_params_bytes_len(params);
    lemma_params_bytes_len(params.drop_last());
    if i < params.len() - 1 {
        lemma_params_bytes_part(params.drop_last(), i);
        assert(params_bytes(params).subrange(8 * i, 8 * i + 8) =~= params_bytes(
            params.drop_last(),
        ).subrange(8 * i, 8 * i + 8));
    } else {
        assert(params_bytes(params).subrange(8 * i, 8 * i + 8) =~= params[i].u8@);
    }
}

/// A header takes 128 bytes.
pub proof fn lemma_header_bytes_len(header: ScreenFrameHeader)
    ensures
        header_bytes(header).len() == SCREEN_FRAME_HEADER_LEN,
{
    lemma_le_bytes_len(header.body_size as nat, 4);
    lemma_params_bytes_len(header.params@);
}

impl ScreenFrameHeader {
    /// Whether the header is the default one: no body, an invalid opcode and zeros.
    pub open spec fn is_default(self) -> bool {
        &&& self.body_size == 0
        &&& self.opcode == ScreenOpCode::Invalid
        &&& self.small_param@ == Seq::new(3, |i: int| 0u8)
        &&& forall|i: int|
            0 <= i < 15 ==> (#[trigger] self.params@[i]).u8@ == Seq::new(8, |j: int| 0u8)
    }

    /// How many bytes a header takes.
    pub fn size() -> (len: usize)
        ensures
            len == SCREEN_FRAME_HEADER_LEN,
    {
        SCREEN_FRAME_HEADER_LEN
    }

    /// The header at the start of a buffer that is long enough.
    pub fn from_bytes(buf: &[u8]) -> (header: Option<ScreenFrameHeader>)
        ensures
            header is Some <==> buf@.len() >= SCREEN_FRAME_HEADER_LEN,
            header matches Some(h) ==> header_at(buf@, h),
    {
        if buf.len() < SCREEN_FRAME_HEADER_LEN {
            return None;
        }
        let mut params = [Value64::default(); 15];
        let mut i: usize = 0;
        while i < 15
            invariant
                i <= 15,
                buf@.len() >= SCREEN_FRAME_HEADER_LEN,
                params@.len() == 15,
                forall|k: int|
                    0 <= k < i ==> (#[trigger] params@[k]).u8@ == buf@.subrange(
                        8 + 8 * k,
                        16 + 8 * k,
                    ),
            decreases 15 - i,
        {
            let at: usize = 8 + 8 * i;
            let bytes = [
                buf[at],
                buf[at + 1],
                buf[at + 2],
                buf[at + 3],
                buf[at + 4],
                buf[at + 5],
                buf[at + 6],
                buf[at + 7],
            ];
            assert(bytes@ =~= buf@.subrange(8 + 8 * i, 16 + 8 * i));
            params[i] = Value64::new(bytes);
            i = i + 1;
        }
        let size = [buf[0], buf[1], buf[2], buf[3]];
        let small_param = [buf[5], buf[6], buf[7]];
        assert(size@ =~= buf@.take(4));
        assert(small_param@ =~= buf@.subrange(5, 8));
        Some(
            ScreenFrameHeader {
                body_size: u32_from_le(size),
                opcode: ScreenOpCode::parse(buf[4]),
                small_param,
                params,
            },
        )
    }

    /// Appends the header.
    pub fn write(&self, buf: &mut BytesMut)
        requires
            contents(*old(buf)).len() + SCREEN_FRAME_HEADER_LEN <= isize::MAX,
        ensures
            contents(*final(buf)) == contents(*old(buf)) + header_bytes(*self),
    {
        proof {
            lemma_header_bytes_len(*self);
            lemma_le_bytes_len(self.body_size as nat, 4);
        }
        let ghost start = contents(*buf);
        let ghost front = le_bytes(self.body_size as nat, 4) + seq![self.opcode.spec_code()]
            + self.small_param@;
        append(buf, &u32_to_le(self.body_size));
        append(buf, &[self.opcode.code()]);
        append(buf, &self.small_param);
        assert(contents(*buf) =~= start + front);
        let mut i: usize = 0;
        assert(self.params@.take(0) =~= Seq::<Value64>::empty());
        assert(contents(*buf) =~= start + front + params_bytes(self.params@.take(0)));
        while i < 15
            invariant
                i <= 15,
                start.len() + SCREEN_FRAME_HEADER_LEN <= isize::MAX,
                front.len() == 8,
                contents(*buf) == start + front + params_bytes(self.params@.take(i as int)),
            decreases 15 - i,
        {
            proof {
                lemma_params_bytes_len(self.params@.take(i as int));
            }
            append(buf, &self.params[i].serialize());
            assert(self.params@.take(i + 1).drop_last() =~= self.params@.take(i as int));
            assert(contents(*buf) =~= start + front + params_bytes(self.params@.take(i + 1)));
            i = i + 1;
        }
        assert(self.params@.take(15) =~= self.params@);
        assert(contents(*buf) =~= start + header_bytes(*self));
    }
}

impl Default for ScreenFrameHeader {
    fn default() -> (header: Self)
        ensures
            header.is_default(),
    {
        let header = ScreenFrameHeader {
            body_size: 0,
            opcode: ScreenOpCode::Invalid,
            small_param: [0, 0, 0],
            params: [Value64::default(); 15],
        };
        assert(header.small_param@ =~= Seq::new(3, |i: int| 0u8));
        header
    }
}

/// A binary property list that holds an empty dictionary: the object, a table with its offset in
/// one byte, and the trailer.
pub const EMPTY_DICT: [u8; 42] = [
    0x62, 0x70, 0x6c, 0x69, 0x73, 0x74, 0x30, 0x30,
    0xd0, 0x08,
    0x00, 0x00, 0x00, 0x00, 0x00, 0x00, 0x01, 0x01,
    0x00, 0x00, 0x00, 0x00, 0x00, 0x00, 0x00, 0x01,
    0x00, 0x00, 0x00, 0x00, 0x00, 0x00, 0x00, 0x00,
    0x00, 0x00, 0x00, 0x00, 0x00, 0x00, 0x00, 0x09,
];

/// Where a NAL unit lies in the body of a frame.
#[derive(Debug, Clone, Copy, PartialEq, Eq, Structural)]
pub struct NalChunk {
    pub offset: usize,
    pub len: usize,
}

/// A frame: its header, its body, and the buffers that it came in.
#[derive(Debug)]
pub struct ScreenFrame {
    pub header: ScreenFrameHeader,
    pub header_buf: BytesMut,
    pub data: BytesMut,
    pub chacha_tag_buf: BytesMut,
    pub nal_offset_cache: Vec<NalChunk>,
}

/// The bytes of a frame: its header and its body.
pub open spec fn frame_bytes(frame: ScreenFrame) -> Seq<u8> {
    header_bytes(frame.header) + contents(frame.data)
}

/// Whether `frame` has this header and this body, and nothing in its other buffers.
pub open spec fn bare_frame(frame: ScreenFrame, body: Seq<u8>) -> bool {
    &&& contents(frame.header_buf) == Seq::<u8>::empty()
    &&& contents(frame.data) == body
    &&& contents(frame.chacha_tag_buf) == Seq::<u8>::empty()
    &&& frame.nal_offset_cache@ == Seq::<NalChunk>::empty()
}

/// Whether `header` announces nothing but a heartbeat with a body of `len` bytes. The length stands
/// in the second float of the last parameter too.
pub open spec fn heartbeat_header(header: ScreenFrameHeader, len: int) -> bool {
    &&& header.body_size == len
    &&& header.opcode == ScreenOpCode::KeepAliveWithBody
    &&& header.small_param@ == Seq::new(3, |i: int| 0u8)
    &&& forall|i: int|
        0 <= i < 14 ==> (#[trigger] header.params@[i]).u8@ == Seq::new(8, |j: int| 0u8)
    &&& header.params@[14].u8@ == le_bytes(0, 4) + le_bytes(f32_bits(len as u32), 4)
}

/// Whether `header` announces nothing but a heartbeat without a body.
pub open spec fn bare_heartbeat_header(header: ScreenFrameHeader) -> bool {
    &&& header.body_size == 0
    &&& header.opcode == ScreenOpCode::KeepAlive
    &&& header.small_param@ == Seq::new(3, |i: int| 0u8)
    &&& forall|i: int|
        0 <= i < 15 ==> (#[trigger] header.params@[i]).u8@ == Seq::new(8, |j: int| 0u8)
}

/// The bytes of a heartbeat without a body: zeros, but for the opcode.
pub open spec fn legacy_heartbeat() -> Seq<u8> {
    Seq::new(SCREEN_FRAME_HEADER_LEN as nat, |i: int| if i == 4 { 2u8 } else { 0u8 })
}

impl Default for ScreenFrame {
    fn default() -> (frame: Self)
        ensures
            frame.header.is_default(),
            bare_frame(frame, Seq::empty()),
    {
        ScreenFrame {
            header: Default::default(),
            header_buf: empty_buffer(),
            data: empty_buffer(),
            chacha_tag_buf: empty_buffer(),
            nal_offset_cache: Vec::new(),
        }
    }
}

impl Clone for ScreenFrame {
    fn clone(&self) -> (copy: Self)
        ensures
            copy.header == self.header,
            contents(copy.header_buf) == contents(self.header_buf),
            contents(copy.data) == contents(self.data),
            contents(copy.chacha_tag_buf) == contents(self.chacha_tag_buf),
            copy.nal_offset_cache@ == self.nal_offset_cache@,
    {
        let nal_offset_cache = self.nal_offset_cache.clone();
        assert(nal_offset_cache@ =~= self.nal_offset_cache@);
        ScreenFrame {
            header: self.header,
            header_buf: self.header_buf.clone(),
            data: self.data.clone(),
            chacha_tag_buf: self.chacha_tag_buf.clone(),
            nal_offset_cache,
        }
    }
}

impl ScreenFrame {
    /// A heartbeat without a body.
    pub fn keep_alive() -> (frame: Self)
        ensures
            bare_heartbeat_header(frame.header),
            bare_frame(frame, Seq::empty()),
    {
        let mut frame = ScreenFrame::default();
        frame.header.opcode = ScreenOpCode::KeepAlive;
        frame
    }

    /// A heartbeat with a body.
    pub fn keep_alive_with_body(body: &[u8]) -> (frame: Self)
        requires
            body@.len() <= u32::MAX,
            body@.len() <= isize::MAX,
        ensures
            heartbeat_header(frame.header, body@.len() as int),
            bare_frame(frame, body@),
    {
        let mut frame = ScreenFrame::default();
        let len: u32 = body.len() as u32;
        frame.header.opcode = ScreenOpCode::KeepAliveWithBody;
        frame.header.body_size = len;
        frame.header.params[14] = Value64::from_f32_floor(0, len);
        append(&mut frame.data, body);
        assert(contents(frame.data) =~= body@);
        frame
    }

    /// A heartbeat whose body is an empty dictionary. What the optional metrics mean is unknown, so
    /// none is made up. Some receivers reject an empty body before they look at the opcode, and do
    /// not look into one that is there.
    pub fn keep_alive_with_empty_stats() -> (frame: Self)
        ensures
            heartbeat_header(frame.header, 42),
            bare_frame(frame, EMPTY_DICT@),
    {
        Self::keep_alive_with_body(&EMPTY_DICT)
    }

    /// A frame with room for the bytes of its header and a tag.
    pub fn new(header: ScreenFrameHeader, data: BytesMut) -> (frame: Self)
        ensures
            frame.header == header,
            frame.data == data,
            bare_frame(frame, contents(data)),
    {
        ScreenFrame {
            header,
            header_buf: buffer_with_capacity(SCREEN_FRAME_HEADER_LEN),
            data,
            chacha_tag_buf: buffer_with_capacity(TAG_LEN),
            nal_offset_cache: Vec::new(),
        }
    }

    /// A frame in the buffers that it came in.
    pub fn with_buffers_chacha(
        header: ScreenFrameHeader,
        data: BytesMut,
        header_buf: BytesMut,
        chacha_tag_buf: BytesMut,
    ) -> (frame: Self)
        ensures
            frame.header == header,
            frame.header_buf == header_buf,
            frame.data == data,
            frame.chacha_tag_buf == chacha_tag_buf,
            frame.nal_offset_cache@ == Seq::<NalChunk>::empty(),
    {
        ScreenFrame { header, header_buf, data, chacha_tag_buf, nal_offset_cache: Vec::new() }
    }

    /// A frame in the buffers that it came in, with room for a tag.
    pub fn with_buffers(header: ScreenFrameHeader, data: BytesMut, header_buf: BytesMut) -> (frame:
        Self)
        ensures
            frame.header == header,
            frame.header_buf == header_buf,
            frame.data == data,
            contents(frame.chacha_tag_buf) == Seq::<u8>::empty(),
            frame.nal_offset_cache@ == Seq::<NalChunk>::empty(),
    {
        ScreenFrame {
            header,
            header_buf,
            data,
            chacha_tag_buf: buffer_with_capacity(TAG_LEN),
            nal_offset_cache: Vec::new(),
        }
    }

    /// Appends the frame.
    pub fn write(&self, buf: &mut BytesMut)
        requires
            contents(*old(buf)).len() + SCREEN_FRAME_HEADER_LEN + contents(self.data).len()
                <= isize::MAX,
        ensures
            contents(*final(buf)) == contents(*old(buf)) + frame_bytes(*self),
    {
        proof {
            lemma_header_bytes_len(self.header);
        }
        let ghost start = contents(*buf);
        self.header.write(buf);
        append(buf, buffer_bytes(&self.data));
        assert(contents(*buf) =~= start + frame_bytes(*self));
    }

    /// Whether the buffers have the lengths of a frame that can be passed on in place: a whole
    /// header, and a whole tag or none.
    pub open spec fn has_wire_layout(self) -> bool {
        &&& contents(self.header_buf).len() == SCREEN_FRAME_HEADER_LEN
        &&& contents(self.chacha_tag_buf).len() == TAG_LEN || contents(self.chacha_tag_buf).len()
            == 0
    }

    /// Where header, body and tag lie as one run of bytes, given the addresses of their buffers:
    /// the address and the length of the run. A frame as it comes from a decoder lies like that,
    /// and can be passed on without copying.
    pub fn adjacent_run(&self, header_at: usize, data_at: usize, tag_at: usize) -> (run: Option<
        (usize, usize),
    >)
        requires
            header_at + contents(self.header_buf).len() <= usize::MAX,
            data_at + contents(self.data).len() <= usize::MAX,
            tag_at + contents(self.chacha_tag_buf).len() <= usize::MAX,
        ensures
            run == (if self.has_wire_layout() {
                joined(
                    seq![
                        (header_at, contents(self.header_buf).len() as usize),
                        (data_at, contents(self.data).len() as usize),
                        (tag_at, contents(self.chacha_tag_buf).len() as usize),
                    ],
                )
            } else {
                None
            }),
    {
        let header_len: usize = buffer_len(&self.header_buf);
        let tag_len: usize = buffer_len(&self.chacha_tag_buf);
        if header_len != SCREEN_FRAME_HEADER_LEN || tag_len != TAG_LEN && tag_len != 0 {
            return None;
        }
        let data_len: usize = buffer_len(&self.data);
        let parts = [(header_at, header_len), (data_at, data_len), (tag_at, tag_len)];
        assert(parts@ =~= seq![(header_at, header_len), (data_at, data_len), (tag_at, tag_len)]);
        adjacent_run(&parts)
    }
}

/// The run of bytes that parts form, which are given by address and length. Empty parts may lie
/// anywhere; each other part starts where the one before it ends.
pub open spec fn joined(parts: Seq<(usize, usize)>) -> Option<(usize, usize)>
    decreases parts.len(),
{
    if parts.len() == 0 {
        None
    } else if parts.last().1 == 0 {
        joined(parts.drop_last())
    } else if all_empty(parts.drop_last()) {
        Some(parts.last())
    } else {
        match joined(parts.drop_last()) {
            Some(run) if run.0 + run.1 == parts.last().0 => Some(
                (run.0, (run.1 + parts.last().1) as usize),
            ),
            _ => None,
        }
    }
}

/// Whether no part has any bytes.
pub open spec fn all_empty(parts: Seq<(usize, usize)>) -> bool {
    forall|i: int| 0 <= i < parts.len() ==> (#[trigger] parts[i]).1 == 0
}

/// The run of bytes that parts form, which are given by address and length. Empty parts may lie
/// anywhere; each other part starts where the one before it ends. Empty parts alone form no run.
pub fn adjacent_run(parts: &[(usize, usize)]) -> (run: Option<(usize, usize)>)
    requires
        forall|i: int|
            0 <= i < parts@.len() ==> (#[trigger] parts@[i]).0 + parts@[i].1 <= usize::MAX,
    ensures
        run == joined(parts@),
{
    let mut run: Option<(usize, usize)> = None;
    let mut started = false;
    let mut i: usize = 0;
    assert(parts@.take(0) =~= Seq::<(usize, usize)>::empty());
    while i < parts.len()
        invariant
            i <= parts@.len(),
            forall|i: int|
                0 <= i < parts@.len() ==> (#[trigger] parts@[i]).0 + parts@[i].1 <= usize::MAX,
            run == joined(parts@.take(i as int)),
            run matches Some(r) ==> r.0 + r.1 <= usize::MAX,
            started == !all_empty(parts@.take(i as int)),
        decreases parts@.len() - i,
    {
        let (at, len) = parts[i];
        let ghost before = parts@.take(i as int);
        let ghost seen = parts@.take(i + 1);
        assert(seen.drop_last() =~= before);
        assert(seen.last() == (at, len));
        assert(all_empty(seen) <==> all_empty(before) && len == 0) by {
            if all_empty(seen) {
                assert(seen[i as int].1 == 0);
                assert forall|k: int| 0 <= k < before.len() implies (#[trigger] before[k]).1
                    == 0 by {
                    assert(before[k] == seen[k]);
                }
            }
            if all_empty(before) && len == 0 {
                assert forall|k: int| 0 <= k < seen.len() implies (#[trigger] seen[k]).1 == 0 by {
                    if k < i {
                        assert(before[k] == seen[k]);
                    }
                }
            }
        }
        if len != 0 {
            run = if !started {
                Some((at, len))
            } else {
                match run {
                    Some((start, total)) => if start + total == at {
                        Some((start, total + len))
                    } else {
                        None
                    },
                    None => None,
                }
            };
            started = true;
        }
        i = i + 1;
    }
    assert(parts@.take(parts@.len() as int) =~= parts@);
    run
}

/// A header that was written is read back as it was, whatever follows it.
pub proof fn law_header_reads_back(header: ScreenFrameHeader, rest: Seq<u8>, read: ScreenFrameHeader)
    ensures
        (header_bytes(header) + rest).len() >= SCREEN_FRAME_HEADER_LEN,
        header_at(header_bytes(header) + rest, read) <==> read == header,
{
    let bytes = header_bytes(header) + rest;
    lemma_header_bytes_len(header);
    lemma_le_bytes_len(header.body_size as nat, 4);
    lemma_le_value_of_bytes(header.body_size as nat);
    assert(bytes.take(4) =~= le_bytes(header.body_size as nat, 4));
    assert(bytes.subrange(5, 8) =~= header.small_param@);
    assert forall|i: int| 0 <= i < 15 implies #[trigger] bytes.subrange(8 + 8 * i, 16 + 8 * i)
        == header.params@[i].u8@ by {
        lemma_params_bytes_part(header.params@, i);
        assert(bytes.subrange(8 + 8 * i, 16 + 8 * i) =~= params_bytes(header.params@).subrange(
            8 * i,
            8 * i + 8,
        ));
    }
    assert(header_at(bytes, header));
    if header_at(bytes, read) {
        assert(read.small_param =~= header.small_param);
        assert forall|i: int| 0 <= i < 15 implies read.params@[i] == header.params@[i] by {
            assert(read.params@[i].u8@ == bytes.subrange(8 + 8 * i, 16 + 8 * i));
            assert(read.params@[i].u8 =~= header.params@[i].u8);
        }
        assert(read.params =~= header.params);
    }
}

/// A header that was read is written back as it was, unless its opcode is unknown.
pub proof fn law_header_writes_back(bytes: Seq<u8>, header: ScreenFrameHeader)
    requires
        bytes.len() >= SCREEN_FRAME_HEADER_LEN,
        header_at(bytes, header),
        bytes[4] <= 5 || bytes[4] == 255,
    ensures
        header_bytes(header) == bytes.take(SCREEN_FRAME_HEADER_LEN as int),
{
    lemma_header_bytes_len(header);
    lemma_le_bytes_of_value(bytes.take(4));
    let written = header_bytes(header);
    let params = params_bytes(header.params@);
    assert forall|k: int| 0 <= k < 128 implies #[trigger] written[k] == bytes[k] by {
        if k < 4 {
            assert(written[k] == bytes.take(4)[k]);
        } else if 5 <= k < 8 {
            assert(written[k] == header.small_param@[k - 5]);
            assert(header.small_param@[k - 5] == bytes.subrange(5, 8)[k - 5]);
        } else if 8 <= k {
            let i = (k - 8) / 8;
            lemma_params_bytes_part(header.params@, i);
            assert(written[k] == params[k - 8]);
            assert(params.subrange(8 * i, 8 * i + 8)[k - 8 - 8 * i] == params[k - 8]);
            assert(header.params@[i].u8@ == bytes.subrange(8 + 8 * i, 16 + 8 * i));
            assert(bytes.subrange(8 + 8 * i, 16 + 8 * i)[k - 8 - 8 * i] == bytes[k]);
        }
    }
    assert(written =~= bytes.take(SCREEN_FRAME_HEADER_LEN as int));
}

/// A heartbeat without a body goes out as 128 bytes, all zero but for its opcode.
pub proof fn law_legacy_heartbeat(frame: ScreenFrame)
    requires
        bare_heartbeat_header(frame.header),
        contents(frame.data) == Seq::<u8>::empty(),
    ensures
        frame_bytes(frame) == legacy_heartbeat(),
{
    let header = frame.header;
    let written = header_bytes(header);
    let params = params_bytes(header.params@);
    lemma_header_bytes_len(header);
    reveal_with_fuel(le_bytes, 5);
    lemma_le_bytes_len(0, 4);
    assert forall|k: int| 0 <= k < 128 implies #[trigger] written[k] == legacy_heartbeat()[k] by {
        if 5 <= k < 8 {
            assert(written[k] == header.small_param@[k - 5]);
        } else if 8 <= k {
            let i = (k - 8) / 8;
            lemma_params_bytes_part(header.params@, i);
            assert(written[k] == params[k - 8]);
            assert(params.subrange(8 * i, 8 * i + 8)[k - 8 - 8 * i] == params[k - 8]);
            assert(header.params@[i].u8@[k - 8 - 8 * i] == 0);
        }
    }
    assert(frame_bytes(frame) =~= legacy_heartbeat());
}

/// Numbers that were put into a value come out of it: whole ones always, converted ones up to 2^24.
pub proof fn law_values_read_back(a: u32, b: u32, value: Value64)
    ensures
        value.u8@ == le_bytes(a as nat, 4) + le_bytes(b as nat, 4) ==> le_value(value.u8@.take(4))
            == a && le_value(value.u8@.skip(4)) == b,
        value.u8@ == le_bytes(f32_bits(a), 4) + le_bytes(f32_bits(b), 4) && a <= 0x100_0000 && b
            <= 0x100_0000 ==> f32_floor(le_value(value.u8@.take(4)) as u32) == a && f32_floor(
            le_value(value.u8@.skip(4)) as u32,
        ) == b,
{
    law_floor_undoes_conversion(a);
    law_floor_undoes_conversion(b);
    if value.u8@ == le_bytes(a as nat, 4) + le_bytes(b as nat, 4) {
        lemma_pair_of_numbers(value.u8@, a as nat, b as nat);
    }
    if value.u8@ == le_bytes(f32_bits(a), 4) + le_bytes(f32_bits(b), 4) {
        lemma_pair_of_numbers(value.u8@, f32_bits(a), f32_bits(b));
    }
}

proof fn lemma_pair_of_numbers(bytes: Seq<u8>, a: nat, b: nat)
    requires
        a <= u32::MAX,
        b <= u32::MAX,
        bytes == le_bytes(a, 4) + le_bytes(b, 4),
    ensures
        le_value(bytes.take(4)) == a,
        le_value(bytes.skip(4)) == b,
{
    lemma_le_bytes_len(a, 4);
    lemma_le_bytes_len(b, 4);
    lemma_le_value_of_bytes(a);
    lemma_le_value_of_bytes(b);
    assert(bytes.take(4) =~= le_bytes(a, 4));
    assert(bytes.skip(4) =~= le_bytes(b, 4));
}

/// The numbers of the opcodes.
pub proof fn law_opcodes_have_these_numbers()
    ensures
        ScreenOpCode::VideoFrame.spec_code() == 0,
        ScreenOpCode::VideoConfig.spec_code() == 1,
        ScreenOpCode::KeepAlive.spec_code() == 2,
        ScreenOpCode::ForceKeyFrame.spec_code() == 3,
        ScreenOpCode::Ignore.spec_code() == 4,
        ScreenOpCode::KeepAliveWithBody.spec_code() == 5,
        ScreenOpCode::Invalid.spec_code() == 255,
{
}

/// Where the fields of a header stand in its 128 bytes: the size of the body in the first four, the least
/// significant one first, the opcode in the fifth, the small parameters in the next three, and fifteen
/// parameters of eight bytes each.
pub proof fn law_header_fields_have_their_places(header: ScreenFrameHeader, i: int, k: int)
    requires
        0 <= i < 15,
        0 <= k < 8,
    ensures
        ({
            let bytes = header_bytes(header);
            &&& bytes.len() == 128
            &&& bytes[0] + 256 * bytes[1] + 65536 * bytes[2] + 16777216 * bytes[3] == header.body_size
            &&& bytes[4] == header.opcode.spec_code()
            &&& bytes[5] == header.small_param@[0]
            &&& bytes[6] == header.small_param@[1]
            &&& bytes[7] == header.small_param@[2]
            &&& bytes[8 + 8 * i + k] == header.params@[i].u8@[k]
        }),
{
    let bytes = header_bytes(header);
    let size = le_bytes(header.body_size as nat, 4);
    lemma_header_bytes_len(header);
    lemma_le_bytes_len(header.body_size as nat, 4);
    law_bytes_are_digits(header.body_size, size);
    assert(bytes[0] == size[0] && bytes[1] == size[1] && bytes[2] == size[2] && bytes[3] == size[3]);
    lemma_params_bytes_part(header.params@, i);
    let params = params_bytes(header.params@);
    assert(bytes[8 + 8 * i + k] == params[8 * i + k]);
    assert(params.subrange(8 * i, 8 * i + 8)[k] == params[8 * i + k]);
}

/// The default header, and no other, goes out as zeros around an invalid opcode.
pub proof fn law_default_header_is_blank(header: ScreenFrameHeader)
    ensures
        header.is_default() <==> header_bytes(header) == Seq::new(
            128,
            |k: int| if k == 4 { 255u8 } else { 0u8 },
        ),
{
    let bytes = header_bytes(header);
    let blank = Seq::new(128, |k: int| if k == 4 { 255u8 } else { 0u8 });
    lemma_header_bytes_len(header);
    law_header_fields_have_their_places(header, 0, 0);
    if header.is_default() {
        assert forall|k: int| 0 <= k < 128 implies bytes[k] == blank[k] by {
            if k >= 8 {
                law_header_fields_have_their_places(header, (k - 8) / 8, (k - 8) % 8);
                assert(header.params@[(k - 8) / 8].u8@[(k - 8) % 8] == 0);
            } else {
                assert(header.small_param@[0] == 0 && header.small_param@[1] == 0
                    && header.small_param@[2] == 0);
            }
        }
        assert(bytes =~= blank);
    }
    if bytes == blank {
        assert(bytes[0] == 0 && bytes[1] == 0 && bytes[2] == 0 && bytes[3] == 0 && bytes[4] == 255
            && bytes[5] == 0 && bytes[6] == 0 && bytes[7] == 0);
        assert(header.small_param@ =~= Seq::new(3, |i: int| 0u8));
        assert forall|i: int| 0 <= i < 15 implies (#[trigger] header.params@[i]).u8@ == Seq::new(
            8,
            |j: int| 0u8,
        ) by {
            assert forall|k: int| 0 <= k < 8 implies header.params@[i].u8@[k] == 0 by {
                law_header_fields_have_their_places(header, i, k);
                assert(bytes[8 + 8 * i + k] == 0);
            }
            assert(header.params@[i].u8@ =~= Seq::new(8, |j: int| 0u8));
        }
    }
}

/// A heartbeat with a body goes out as 128 bytes and the body. The first four bytes and, as a float, the
/// last four of the header give the length of the body, the fifth is the opcode 5, and the others are
/// zero.
pub proof fn law_heartbeat_with_body_on_the_wire(frame: ScreenFrame, body: Seq<u8>, k: int)
    requires
        body.len() <= u32::MAX,
        heartbeat_header(frame.header, body.len() as int),
        bare_frame(frame, body),
        0 <= k < 128,
    ensures
        ({
            let bytes = frame_bytes(frame);
            let float = le_bytes(f32_bits(body.len() as u32), 4);
            &&& bytes.len() == 128 + body.len()
            &&& bytes.skip(128) == body
            &&& bytes[0] + 256 * bytes[1] + 65536 * bytes[2] + 16777216 * bytes[3] == body.len()
            &&& bytes[4] == 5
            &&& 5 <= k < 124 ==> bytes[k] == 0
            &&& k >= 124 ==> bytes[k] == float[k - 124]
        }),
{
    let header = frame.header;
    let bytes = frame_bytes(frame);
    lemma_header_bytes_len(header);
    assert(bytes.skip(128) =~= body);
    law_header_fields_have_their_places(header, 0, 0);
    lemma_le_bytes_len(0, 4);
    lemma_le_bytes_len(f32_bits(body.len() as u32), 4);
    reveal_with_fuel(le_bytes, 5);
    assert(bytes[0] == header_bytes(header)[0] && bytes[1] == header_bytes(header)[1] && bytes[2]
        == header_bytes(header)[2] && bytes[3] == header_bytes(header)[3] && bytes[4]
        == header_bytes(header)[4]);
    if k >= 8 {
        let i = (k - 8) / 8;
        law_header_fields_have_their_places(header, i, k - 8 - 8 * i);
        assert(bytes[k] == header_bytes(header)[k]);
        assert(header.params@[i].u8@[k - 8 - 8 * i] == bytes[k]);
    } else if k >= 5 {
        assert(bytes[k] == header.small_param@[k - 5]);
    }
}

/// How many bytes parts have together.
pub open spec fn total_len(parts: Seq<(usize, usize)>) -> int
    decreases parts.len(),
{
    if parts.len() == 0 {
        0
    } else {
        total_len(parts.drop_last()) + parts.last().1
    }
}

/// Whether each part that has any bytes starts as far behind `at` as the parts before it are long.
pub open spec fn side_by_side(parts: Seq<(usize, usize)>, at: int) -> bool {
    forall|i: int|
        0 <= i < parts.len() && (#[trigger] parts[i]).1 > 0 ==> parts[i].0 == at + total_len(
            parts.take(i),
        )
}

proof fn lemma_total_of_empty(parts: Seq<(usize, usize)>)
    ensures
        total_len(parts) >= 0,
        total_len(parts) == 0 <==> all_empty(parts),
    decreases parts.len(),
{
    if parts.len() > 0 {
        let front = parts.drop_last();
        lemma_total_of_empty(front);
        if all_empty(parts) {
            assert forall|i: int| 0 <= i < front.len() implies (#[trigger] front[i]).1 == 0 by {
                assert(parts[i].1 == 0);
            }
            assert(parts[parts.len() - 1].1 == 0);
        }
        if total_len(parts) == 0 {
            assert forall|i: int| 0 <= i < parts.len() implies (#[trigger] parts[i]).1 == 0 by {
                if i < front.len() {
                    assert(front[i].1 == 0);
                }
            }
        }
    }
}

proof fn lemma_side_by_side_front(parts: Seq<(usize, usize)>, at: int)
    requires
        parts.len() > 0,
    ensures
        side_by_side(parts, at) <==> side_by_side(parts.drop_last(), at) && (parts.last().1 > 0
            ==> parts.last().0 == at + total_len(parts.drop_last())),
{
    let front = parts.drop_last();
    let last = parts.len() - 1;
    assert(parts.take(last) =~= front);
    assert forall|i: int| 0 <= i < front.len() implies front.take(i) == #[trigger] parts.take(i) by {
        assert(front.take(i) =~= parts.take(i));
    }
    if side_by_side(parts, at) {
        assert forall|i: int| 0 <= i < front.len() && (#[trigger] front[i]).1 > 0 implies front[i].0
            == at + total_len(front.take(i)) by {
            assert(parts[i].1 > 0);
            assert(front.take(i) == parts.take(i));
        }
        assert(parts[last] == parts.last());
    }
    if side_by_side(front, at) && (parts.last().1 > 0 ==> parts.last().0 == at + total_len(front)) {
        assert forall|i: int| 0 <= i < parts.len() && (#[trigger] parts[i]).1 > 0 implies parts[i].0
            == at + total_len(parts.take(i)) by {
            if i < front.len() {
                assert(front[i].1 > 0);
                assert(front.take(i) == parts.take(i));
            }
        }
    }
}

/// Parts form one run of bytes if and only if they have any bytes and lie side by side; the run is as
/// long as they are together.
pub proof fn law_parts_side_by_side_form_a_run(parts: Seq<(usize, usize)>, at: usize, len: usize)
    requires
        forall|i: int| 0 <= i < parts.len() ==> (#[trigger] parts[i]).0 + parts[i].1 <= usize::MAX,
    ensures
        joined(parts) == Some((at, len)) <==> len > 0 && total_len(parts) == len && side_by_side(
            parts,
            at as int,
        ),
    decreases parts.len(),
{
    lemma_total_of_empty(parts);
    if parts.len() > 0 {
        let front = parts.drop_last();
        let (start, more) = parts.last();
        assert(parts[parts.len() - 1] == (start, more));
        assert forall|i: int| 0 <= i < front.len() implies (#[trigger] front[i]).0 + front[i].1
            <= usize::MAX by {
            assert(front[i] == parts[i]);
        }
        lemma_total_of_empty(front);
        lemma_side_by_side_front(parts, at as int);
        if more == 0 {
            law_parts_side_by_side_form_a_run(front, at, len);
        } else if all_empty(front) {
            assert(side_by_side(front, at as int)) by {
                assert forall|i: int| 0 <= i < front.len() implies (#[trigger] front[i]).1 == 0 by {}
            }
        } else {
            if len >= more {
                law_parts_side_by_side_form_a_run(front, at, (len - more) as usize);
            }
            if let Some(run) = joined(front) {
                law_parts_side_by_side_form_a_run(front, run.0, run.1);
            }
        }
    }
}

/// A frame can be passed on in place only with a header of 128 bytes and a tag of 16 bytes or none.
pub proof fn law_wire_layout_has_these_lengths(frame: ScreenFrame)
    ensures
        frame.has_wire_layout() <==> contents(frame.header_buf).len() == 128 && (contents(
            frame.chacha_tag_buf,
        ).len() == 16 || contents(frame.chacha_tag_buf).len() == 0),
{
}

/// The text of a value: fixed for zero, else the number of all eight bytes and those of its two halves.
pub proof fn law_value_texts(low: u32, high: u32, bytes: Seq<u8>, floats: Seq<char>)
    requires
        bytes == le_bytes(low as nat, 4) + le_bytes(high as nat, 4),
    ensures
        low == 0 && high == 0 ==> value_text(bytes, floats) == "Value64(0)"@,
        low != 0 || high != 0 ==> value_text(bytes, floats) == "Value64(u64: "@ + decimal(
            (low + 0x1_0000_0000 * high) as nat,
        ) + ", u32: ("@ + decimal(low as nat) + ", "@ + decimal(high as nat) + "), f32: "@ + floats
            + ")"@,
{
    lemma_le_bytes_len(low as nat, 4);
    lemma_le_bytes_len(high as nat, 4);
    lemma_pair_of_numbers(bytes, low as nat, high as nat);
    lemma_le_value_of_halves(bytes);
}

}
