//! The payload of a video tag: a one-byte header of two four-bit fields and
//! an opaque body, and the AVC packet that such a body may hold.

use vstd::prelude::*;
use crate::error::{outcome, outcome_view, truncated, Error};
use crate::number::{be_i24, be_sint, be_u8, bit_field, bits, spec_take, take};

verus! {

/// The type of a video frame.
#[derive(Copy, Clone, Debug, Eq, PartialEq)]
pub enum FrameType {
    /// 1
    Key,
    /// 2
    Inter,
    /// 3
    DisposableInter,
    /// 4
    Generated,
    /// 5
    Command,
    /// Any other value.
    Unknown,
}

/// The codec of a video tag.
#[derive(Copy, Clone, Debug, Eq, PartialEq)]
pub enum CodecID {
    /// 2
    SorensonH263,
    /// 3
    Screen1,
    /// 4
    VP6,
    /// 5
    VP6Alpha,
    /// 6
    Screen2,
    /// 7, MPEG-4 Part 10 AVC / H.264
    AVC,
    /// Any other value.
    Unknown,
}

/// The header byte of a video tag's payload.
#[derive(Copy, Clone, Debug, Eq, PartialEq)]
pub struct VideoTagHeader {
    /// Bits 7 to 4.
    pub frame_type: FrameType,
    /// Bits 3 to 0.
    pub codec_id: CodecID,
}

/// The bytes of a video tag's payload after its header byte.
#[derive(Clone, Debug, PartialEq)]
pub struct VideoTagBody<'a> {
    pub data: &'a [u8],
}

/// The payload of a video tag.
#[derive(Clone, Debug, PartialEq)]
pub struct VideoTag<'a> {
    pub header: VideoTagHeader,
    pub body: VideoTagBody<'a>,
}

/// The type of an AVC packet.
#[derive(Copy, Clone, Debug, Eq, PartialEq)]
pub enum AvcPacketType {
    /// 0
    SequenceHeader,
    /// 1
    NALU,
    /// 2
    EndOfSequence,
    /// Any other value.
    Unknown,
}

/// The body of a video tag whose codec is AVC.
#[derive(Clone, Debug, PartialEq)]
pub struct AvcVideoPacket<'a> {
    pub packet_type: AvcPacketType,
    /// The composition time offset in milliseconds, a signed number of 24
    /// bits; it carries meaning only in a NALU packet.
    pub composition_time: i32,
    pub avc_data: &'a [u8],
}

/// What a video tag's payload holds.
pub struct VideoTagView {
    pub header: VideoTagHeader,
    pub body: Seq<u8>,
}

/// What an AVC packet holds.
pub struct AvcVideoPacketView {
    pub packet_type: AvcPacketType,
    pub composition_time: int,
    pub avc_data: Seq<u8>,
}

impl<'a> View for VideoTagBody<'a> {
    type V = Seq<u8>;

    open spec fn view(&self) -> Seq<u8> {
        self.data@
    }
}

impl<'a> View for VideoTag<'a> {
    type V = VideoTagView;

    open spec fn view(&self) -> VideoTagView {
        VideoTagView { header: self.header, body: self.body@ }
    }
}

impl<'a> View for AvcVideoPacket<'a> {
    type V = AvcVideoPacketView;

    open spec fn view(&self) -> AvcVideoPacketView {
        AvcVideoPacketView {
            packet_type: self.packet_type,
            composition_time: self.composition_time as int,
            avc_data: self.avc_data@,
        }
    }
}

/// The frame type that a four-bit field names.
pub open spec fn frame_type_of(field: nat) -> FrameType {
    if field == 1 {
        FrameType::Key
    } else if field == 2 {
        FrameType::Inter
    } else if field == 3 {
        FrameType::DisposableInter
    } else if field == 4 {
        FrameType::Generated
    } else if field == 5 {
        FrameType::Command
    } else {
        FrameType::Unknown
    }
}

/// The codec that a four-bit field names.
pub open spec fn codec_id_of(field: nat) -> CodecID {
    if field == 2 {
        CodecID::SorensonH263
    } else if field == 3 {
        CodecID::Screen1
    } else if field == 4 {
        CodecID::VP6
    } else if field == 5 {
        CodecID::VP6Alpha
    } else if field == 6 {
        CodecID::Screen2
    } else if field == 7 {
        CodecID::AVC
    } else {
        CodecID::Unknown
    }
}

/// The header that a byte holds.
pub open spec fn video_header_of(byte: u8) -> VideoTagHeader {
    VideoTagHeader {
        frame_type: frame_type_of(bit_field(byte, 4, 4)),
        codec_id: codec_id_of(bit_field(byte, 0, 4)),
    }
}

/// The header of a video payload of `size` bytes at the start of `input`.
pub open spec fn spec_video_tag_header(input: Seq<u8>, size: nat) -> Result<
    (Seq<u8>, VideoTagHeader),
    Error,
> {
    if size < 1 || input.len() < 1 {
        Err(truncated(1))
    } else {
        Ok((input.skip(1), video_header_of(input[0])))
    }
}

/// A video payload of `size` bytes at the start of `input`: the header
/// byte, then `size - 1` bytes of body.
pub open spec fn spec_video_tag(input: Seq<u8>, size: nat) -> Result<
    (Seq<u8>, VideoTagView),
    Error,
> {
    match spec_video_tag_header(input, size) {
        Ok((rest, header)) => match spec_take(rest, (size - 1) as nat) {
            Ok((rest, body)) => Ok((rest, VideoTagView { header, body })),
            Err(e) => Err(e),
        },
        Err(e) => Err(e),
    }
}

/// The packet type that a byte names.
pub open spec fn avc_packet_type_of(byte: u8) -> AvcPacketType {
    if byte == 0 {
        AvcPacketType::SequenceHeader
    } else if byte == 1 {
        AvcPacketType::NALU
    } else if byte == 2 {
        AvcPacketType::EndOfSequence
    } else {
        AvcPacketType::Unknown
    }
}

/// An AVC packet of `size` bytes at the start of `input`: the packet type,
/// three bytes of composition time, then `size - 4` bytes of data.
pub open spec fn spec_avc_video_packet(input: Seq<u8>, size: nat) -> Result<
    (Seq<u8>, AvcVideoPacketView),
    Error,
> {
    if input.len() < size {
        Err(truncated(size))
    } else if size < 4 {
        Err(truncated(4))
    } else {
        Ok(
            (
                input.skip(size as int),
                AvcVideoPacketView {
                    packet_type: avc_packet_type_of(input[0]),
                    composition_time: be_sint(input.subrange(1, 4)),
                    avc_data: input.subrange(4, size as int),
                },
            ),
        )
    }
}

/// A video payload that decodes takes exactly `size` bytes, and its body
/// is all of them but the first.
pub proof fn lemma_video_tag_spans_size(input: Seq<u8>, size: nat)
    ensures
        spec_video_tag(input, size) matches Ok((rest, tag)) ==> 1 <= size <= input.len() && rest
            == input.skip(size as int) && tag.body == input.subrange(1, size as int),
{
    if let Ok((rest, tag)) = spec_video_tag(input, size) {
        assert(rest =~= input.skip(size as int));
        assert(tag.body =~= input.subrange(1, size as int));
    }
}

/// The header of a video payload of one byte or more always decodes: the
/// frame type is the high half of the header byte and the codec the low
/// half, and a value that names nothing gives `Unknown`.
pub proof fn lemma_video_header_never_fails(input: Seq<u8>, size: nat)
    requires
        size >= 1,
        input.len() >= 1,
    ensures
        spec_video_tag_header(input, size) is Ok,
        spec_video_tag_header(input, size)->Ok_0.1.frame_type == frame_type_of(
            (input[0] / 16) as nat,
        ),
        spec_video_tag_header(input, size)->Ok_0.1.codec_id == codec_id_of((input[0] % 16) as nat),
        !(1 <= input[0] / 16 <= 5) ==> spec_video_tag_header(input, size)->Ok_0.1.frame_type
            == FrameType::Unknown,
        !(2 <= input[0] % 16 <= 7) ==> spec_video_tag_header(input, size)->Ok_0.1.codec_id
            == CodecID::Unknown,
{
    crate::number::lemma_pow2_values();
}

/// The type byte of an AVC packet never makes it fail: a packet of four
/// bytes or more that the input holds decodes.
pub proof fn lemma_avc_packet_never_fails(input: Seq<u8>, size: nat)
    requires
        4 <= size <= input.len(),
    ensures
        spec_avc_video_packet(input, size) is Ok,
        input[0] > 2 ==> spec_avc_video_packet(input, size)->Ok_0.1.packet_type
            == AvcPacketType::Unknown,
{
}

impl VideoTagHeader {
    /// Decodes the header byte of a video payload of `size` bytes.
    pub fn parse(input: &[u8], size: usize) -> (r: Result<(&[u8], VideoTagHeader), Error>)
        ensures
            outcome(r) == spec_video_tag_header(input@, size as nat),
    {
        if size < 1 {
            return Err(Error::Truncated { needed: 1 });
        }
        let (rest, byte) = match be_u8(input) {
            Ok(pair) => pair,
            Err(e) => {
                return Err(e);
            },
        };
        let frame_type = match bits(byte, 4, 4) {
            1 => FrameType::Key,
            2 => FrameType::Inter,
            3 => FrameType::DisposableInter,
            4 => FrameType::Generated,
            5 => FrameType::Command,
            _ => FrameType::Unknown,
        };
        let codec_id = match bits(byte, 0, 4) {
            2 => CodecID::SorensonH263,
            3 => CodecID::Screen1,
            4 => CodecID::VP6,
            5 => CodecID::VP6Alpha,
            6 => CodecID::Screen2,
            7 => CodecID::AVC,
            _ => CodecID::Unknown,
        };
        Ok((rest, VideoTagHeader { frame_type, codec_id }))
    }
}

impl<'a> VideoTagBody<'a> {
    /// Takes the first `size` bytes of `input` as the body.
    pub fn parse(input: &'a [u8], size: usize) -> (r: Result<(&'a [u8], VideoTagBody<'a>), Error>)
        ensures
            outcome_view(r) == spec_take(input@, size as nat),
    {
        match take(input, size) {
            Ok((rest, data)) => Ok((rest, VideoTagBody { data })),
            Err(e) => Err(e),
        }
    }
}

impl<'a> VideoTag<'a> {
    /// Decodes a video payload of `size` bytes.
    pub fn parse(input: &'a [u8], size: usize) -> (r: Result<(&'a [u8], VideoTag<'a>), Error>)
        ensures
            outcome_view(r) == spec_video_tag(input@, size as nat),
    {
        let (rest, header) = match VideoTagHeader::parse(input, size) {
            Ok(pair) => pair,
            Err(e) => {
                return Err(e);
            },
        };
        match VideoTagBody::parse(rest, size - 1) {
            Ok((rest, body)) => Ok((rest, VideoTag { header, body })),
            Err(e) => Err(e),
        }
    }
}

/// Decodes a video payload of `size` bytes.
pub fn video_tag(input: &[u8], size: usize) -> (r: Result<(&[u8], VideoTag), Error>)
    ensures
        outcome_view(r) == spec_video_tag(input@, size as nat),
{
    VideoTag::parse(input, size)
}

/// Decodes the header byte of a video payload of `size` bytes.
pub fn video_tag_header(input: &[u8], size: usize) -> (r: Result<(&[u8], VideoTagHeader), Error>)
    ensures
        outcome(r) == spec_video_tag_header(input@, size as nat),
{
    VideoTagHeader::parse(input, size)
}

/// Takes the first `size` bytes of `input` as the body of a video payload.
pub fn video_tag_body(input: &[u8], size: usize) -> (r: Result<(&[u8], VideoTagBody), Error>)
    ensures
        outcome_view(r) == spec_take(input@, size as nat),
{
    VideoTagBody::parse(input, size)
}

/// Decodes an AVC packet of `size` bytes: the body of a video tag whose
/// codec is AVC.
pub fn avc_video_packet(input: &[u8], size: usize) -> (r: Result<(&[u8], AvcVideoPacket), Error>)
    ensures
        outcome_view(r) == spec_avc_video_packet(input@, size as nat),
{
    if input.len() < size {
        return Err(Error::Truncated { needed: size });
    }
    if size < 4 {
        return Err(Error::Truncated { needed: 4 });
    }
    let packet_type = match input[0] {
        0 => AvcPacketType::SequenceHeader,
        1 => AvcPacketType::NALU,
        2 => AvcPacketType::EndOfSequence,
        _ => AvcPacketType::Unknown,
    };
    let time_bytes = &input[1..size];
    let composition_time = match be_i24(time_bytes) {
        Ok((_, value)) => value,
        Err(e) => {
            return Err(e);
        },
    };
    let avc_data = &input[4..size];
    let rest = &input[size..input.len()];
    assert(time_bytes@.take(3) =~= input@.subrange(1, 4));
    assert(rest@ =~= input@.skip(size as int));
    Ok((rest, AvcVideoPacket { packet_type, composition_time, avc_data }))
}

} // verus!
