//! The payload of an audio tag: a one-byte header of four bit fields and an
//! opaque body, and the AAC packet that such a body may hold.

use vstd::prelude::*;
use crate::error::{outcome, outcome_view, truncated, Error};
use crate::number::{be_u8, bit_field, bits, spec_take, take};

verus! {

/// The audio format.
#[allow(non_camel_case_types)]
#[derive(Copy, Clone, Debug, Eq, PartialEq)]
pub enum SoundFormat {
    /// 0
    PcmPlatformEndian,
    /// 1
    ADPCM,
    /// 2
    MP3,
    /// 3
    PcmLittleEndian,
    /// 4
    Nellymoser16kHzMono,
    /// 5
    Nellymoser8kHzMono,
    /// 6
    Nellymoser,
    /// 7
    PcmALaw,
    /// 8
    PcmMuLaw,
    /// 9
    Reserved,
    /// 10, MPEG-4 Part 3 AAC
    AAC,
    /// 11
    Speex,
    /// 14
    MP3_8kHz,
    /// 15
    DeviceSpecific,
}

/// The audio sampling rate.
#[allow(non_camel_case_types)]
#[derive(Copy, Clone, Debug, Eq, PartialEq)]
pub enum SoundRate {
    /// 0, 5.5 kHz
    _5_5KHZ,
    /// 1, 11 kHz
    _11KHZ,
    /// 2, 22 kHz
    _22KHZ,
    /// 3, 44 kHz
    _44KHZ,
}

/// The size of each audio sample.
#[allow(non_camel_case_types)]
#[derive(Copy, Clone, Debug, Eq, PartialEq)]
pub enum SoundSize {
    /// 0, 8 bits
    _8Bit,
    /// 1, 16 bits
    _16Bit,
}

/// Mono or stereo.
#[derive(Copy, Clone, Debug, Eq, PartialEq)]
pub enum SoundType {
    /// 0
    Mono,
    /// 1
    Stereo,
}

/// The header byte of an audio tag's payload.
#[derive(Copy, Clone, Debug, Eq, PartialEq)]
pub struct AudioTagHeader {
    /// Bits 7 to 4.
    pub sound_format: SoundFormat,
    /// Bits 3 and 2.
    pub sound_rate: SoundRate,
    /// Bit 1.
    pub sound_size: SoundSize,
    /// Bit 0.
    pub sound_type: SoundType,
}

/// The bytes of an audio tag's payload after its header byte.
#[derive(Clone, Debug, PartialEq)]
pub struct AudioTagBody<'a> {
    pub data: &'a [u8],
}

/// The payload of an audio tag.
#[derive(Clone, Debug, PartialEq)]
pub struct AudioTag<'a> {
    pub header: AudioTagHeader,
    pub body: AudioTagBody<'a>,
}

/// The type of an AAC packet.
#[derive(Copy, Clone, Debug, Eq, PartialEq)]
pub enum AACPacketType {
    /// 0
    SequenceHeader,
    /// 1
    Raw,
}

/// The body of an audio tag whose sound format is AAC.
#[derive(Clone, Debug, PartialEq)]
pub struct AACAudioPacket<'a> {
    pub packet_type: AACPacketType,
    pub aac_data: &'a [u8],
}

/// What an audio tag's payload holds.
pub struct AudioTagView {
    pub header: AudioTagHeader,
    pub body: Seq<u8>,
}

/// What an AAC packet holds.
pub struct AACAudioPacketView {
    pub packet_type: AACPacketType,
    pub aac_data: Seq<u8>,
}

impl<'a> View for AudioTagBody<'a> {
    type V = Seq<u8>;

    open spec fn view(&self) -> Seq<u8> {
        self.data@
    }
}

impl<'a> View for AudioTag<'a> {
    type V = AudioTagView;

    open spec fn view(&self) -> AudioTagView {
        AudioTagView { header: self.header, body: self.body@ }
    }
}

impl<'a> View for AACAudioPacket<'a> {
    type V = AACAudioPacketView;

    open spec fn view(&self) -> AACAudioPacketView {
        AACAudioPacketView { packet_type: self.packet_type, aac_data: self.aac_data@ }
    }
}

/// The sound format that a four-bit field names; 12 and 13 name none.
pub open spec fn sound_format_of(field: nat) -> Option<SoundFormat> {
    if field == 0 {
        Some(SoundFormat::PcmPlatformEndian)
    } else if field == 1 {
        Some(SoundFormat::ADPCM)
    } else if field == 2 {
        Some(SoundFormat::MP3)
    } else if field == 3 {
        Some(SoundFormat::PcmLittleEndian)
    } else if field == 4 {
        Some(SoundFormat::Nellymoser16kHzMono)
    } else if field == 5 {
        Some(SoundFormat::Nellymoser8kHzMono)
    } else if field == 6 {
        Some(SoundFormat::Nellymoser)
    } else if field == 7 {
        Some(SoundFormat::PcmALaw)
    } else if field == 8 {
        Some(SoundFormat::PcmMuLaw)
    } else if field == 9 {
        Some(SoundFormat::Reserved)
    } else if field == 10 {
        Some(SoundFormat::AAC)
    } else if field == 11 {
        Some(SoundFormat::Speex)
    } else if field == 14 {
        Some(SoundFormat::MP3_8kHz)
    } else if field == 15 {
        Some(SoundFormat::DeviceSpecific)
    } else {
        None
    }
}

/// The sampling rate that a two-bit field names.
pub open spec fn sound_rate_of(field: nat) -> SoundRate {
    if field == 0 {
        SoundRate::_5_5KHZ
    } else if field == 1 {
        SoundRate::_11KHZ
    } else if field == 2 {
        SoundRate::_22KHZ
    } else {
        SoundRate::_44KHZ
    }
}

/// The sample size that a one-bit field names.
pub open spec fn sound_size_of(field: nat) -> SoundSize {
    if field == 0 {
        SoundSize::_8Bit
    } else {
        SoundSize::_16Bit
    }
}

/// The channel layout that a one-bit field names.
pub open spec fn sound_type_of(field: nat) -> SoundType {
    if field == 0 {
        SoundType::Mono
    } else {
        SoundType::Stereo
    }
}

/// The header that a byte holds, or the error for a sound format of 12 or 13.
pub open spec fn audio_header_of(byte: u8) -> Result<AudioTagHeader, Error> {
    match sound_format_of(bit_field(byte, 4, 4)) {
        Some(sound_format) => Ok(
            AudioTagHeader {
                sound_format,
                sound_rate: sound_rate_of(bit_field(byte, 2, 2)),
                sound_size: sound_size_of(bit_field(byte, 1, 1)),
                sound_type: sound_type_of(bit_field(byte, 0, 1)),
            },
        ),
        None => Err(Error::UnknownSoundFormat(bit_field(byte, 4, 4) as u8)),
    }
}

/// The header of an audio payload of `size` bytes at the start of `input`.
pub open spec fn spec_audio_tag_header(input: Seq<u8>, size: nat) -> Result<
    (Seq<u8>, AudioTagHeader),
    Error,
> {
    if size < 1 || input.len() < 1 {
        Err(truncated(1))
    } else {
        match audio_header_of(input[0]) {
            Ok(header) => Ok((input.skip(1), header)),
            Err(e) => Err(e),
        }
    }
}

/// An audio payload of `size` bytes at the start of `input`: the header
/// byte, then `size - 1` bytes of body.
pub open spec fn spec_audio_tag(input: Seq<u8>, size: nat) -> Result<
    (Seq<u8>, AudioTagView),
    Error,
> {
    match spec_audio_tag_header(input, size) {
        Ok((rest, header)) => match spec_take(rest, (size - 1) as nat) {
            Ok((rest, body)) => Ok((rest, AudioTagView { header, body })),
            Err(e) => Err(e),
        },
        Err(e) => Err(e),
    }
}

/// The packet type that a byte names.
pub open spec fn aac_packet_type_of(byte: u8) -> Option<AACPacketType> {
    if byte == 0 {
        Some(AACPacketType::SequenceHeader)
    } else if byte == 1 {
        Some(AACPacketType::Raw)
    } else {
        None
    }
}

/// An AAC packet of `size` bytes at the start of `input`: the packet type,
/// then `size - 1` bytes of data.
pub open spec fn spec_aac_audio_packet(input: Seq<u8>, size: nat) -> Result<
    (Seq<u8>, AACAudioPacketView),
    Error,
> {
    if input.len() < size {
        Err(truncated(size))
    } else if size < 1 {
        Err(truncated(1))
    } else {
        match aac_packet_type_of(input[0]) {
            Some(packet_type) => Ok(
                (
                    input.skip(size as int),
                    AACAudioPacketView { packet_type, aac_data: input.subrange(1, size as int) },
                ),
            ),
            None => Err(Error::UnknownAacPacketType(input[0])),
        }
    }
}

/// An audio payload that decodes takes exactly `size` bytes, and its body
/// is all of them but the first.
pub proof fn lemma_audio_tag_spans_size(input: Seq<u8>, size: nat)
    ensures
        spec_audio_tag(input, size) matches Ok((rest, tag)) ==> 1 <= size <= input.len() && rest
            == input.skip(size as int) && tag.body == input.subrange(1, size as int),
{
    if let Ok((rest, tag)) = spec_audio_tag(input, size) {
        assert(rest =~= input.skip(size as int));
        assert(tag.body =~= input.subrange(1, size as int));
    }
}

/// The sound format field is the high half of the header byte. Each of its
/// values but 12 and 13 names a format, and the header then decodes; 12 and
/// 13 name none, and the header fails with the field as unknown sound
/// format.
pub proof fn lemma_sound_format_fails_on_12_and_13_only(input: Seq<u8>, size: nat)
    requires
        size >= 1,
        input.len() >= 1,
    ensures
        bit_field(input[0], 4, 4) == input[0] / 16,
        input[0] / 16 == 12 || input[0] / 16 == 13 ==> spec_audio_tag_header(input, size) == Err::<
            (Seq<u8>, AudioTagHeader),
            _,
        >(Error::UnknownSoundFormat((input[0] / 16) as u8)),
        input[0] / 16 != 12 && input[0] / 16 != 13 ==> spec_audio_tag_header(input, size) is Ok
            && sound_format_of((input[0] / 16) as nat) == Some(
            spec_audio_tag_header(input, size)->Ok_0.1.sound_format,
        ),
{
    crate::number::lemma_pow2_values();
}

impl AudioTagHeader {
    /// Decodes the header byte of an audio payload of `size` bytes.
    pub fn parse(input: &[u8], size: usize) -> (r: Result<(&[u8], AudioTagHeader), Error>)
        ensures
            outcome(r) == spec_audio_tag_header(input@, size as nat),
    {
        if size < 1 {
            return Err(Error::Truncated { needed: 1 });
        }
        let (rest, byte) = match be_u8(input) {
            Ok(pair) => pair,
            Err(e) => {
                return Err(e);
            },
        };
        let format_field: u8 = bits(byte, 4, 4);
        let sound_format = match format_field {
            0 => SoundFormat::PcmPlatformEndian,
            1 => SoundFormat::ADPCM,
            2 => SoundFormat::MP3,
            3 => SoundFormat::PcmLittleEndian,
            4 => SoundFormat::Nellymoser16kHzMono,
            5 => SoundFormat::Nellymoser8kHzMono,
            6 => SoundFormat::Nellymoser,
            7 => SoundFormat::PcmALaw,
            8 => SoundFormat::PcmMuLaw,
            9 => SoundFormat::Reserved,
            10 => SoundFormat::AAC,
            11 => SoundFormat::Speex,
            14 => SoundFormat::MP3_8kHz,
            15 => SoundFormat::DeviceSpecific,
            _ => {
                return Err(Error::UnknownSoundFormat(format_field));
            },
        };
        let sound_rate = match bits(byte, 2, 2) {
            0 => SoundRate::_5_5KHZ,
            1 => SoundRate::_11KHZ,
            2 => SoundRate::_22KHZ,
            _ => SoundRate::_44KHZ,
        };
        let sound_size = match bits(byte, 1, 1) {
            0 => SoundSize::_8Bit,
            _ => SoundSize::_16Bit,
        };
        let sound_type = match bits(byte, 0, 1) {
            0 => SoundType::Mono,
            _ => SoundType::Stereo,
        };
        Ok((rest, AudioTagHeader { sound_format, sound_rate, sound_size, sound_type }))
    }
}

impl<'a> AudioTagBody<'a> {
    /// Takes the first `size` bytes of `input` as the body.
    pub fn parse(input: &'a [u8], size: usize) -> (r: Result<(&'a [u8], AudioTagBody<'a>), Error>)
        ensures
            outcome_view(r) == spec_take(input@, size as nat),
    {
        match take(input, size) {
            Ok((rest, data)) => Ok((rest, AudioTagBody { data })),
            Err(e) => Err(e),
        }
    }
}

impl<'a> AudioTag<'a> {
    /// Decodes an audio payload of `size` bytes.
    pub fn parse(input: &'a [u8], size: usize) -> (r: Result<(&'a [u8], AudioTag<'a>), Error>)
        ensures
            outcome_view(r) == spec_audio_tag(input@, size as nat),
    {
        let (rest, header) = match AudioTagHeader::parse(input, size) {
            Ok(pair) => pair,
            Err(e) => {
                return Err(e);
            },
        };
        match AudioTagBody::parse(rest, size - 1) {
            Ok((rest, body)) => Ok((rest, AudioTag { header, body })),
            Err(e) => Err(e),
        }
    }
}

/// Decodes an audio payload of `size` bytes.
pub fn audio_tag(input: &[u8], size: usize) -> (r: Result<(&[u8], AudioTag), Error>)
    ensures
        outcome_view(r) == spec_audio_tag(input@, size as nat),
{
    AudioTag::parse(input, size)
}

/// Decodes the header byte of an audio payload of `size` bytes.
pub fn audio_tag_header(input: &[u8], size: usize) -> (r: Result<(&[u8], AudioTagHeader), Error>)
    ensures
        outcome(r) == spec_audio_tag_header(input@, size as nat),
{
    AudioTagHeader::parse(input, size)
}

/// Takes the first `size` bytes of `input` as the body of an audio payload.
pub fn audio_tag_body(input: &[u8], size: usize) -> (r: Result<(&[u8], AudioTagBody), Error>)
    ensures
        outcome_view(r) == spec_take(input@, size as nat),
{
    AudioTagBody::parse(input, size)
}

/// Decodes an AAC packet of `size` bytes: the body of an audio tag whose
/// sound format is AAC.
pub fn aac_audio_packet(input: &[u8], size: usize) -> (r: Result<(&[u8], AACAudioPacket), Error>)
    ensures
        outcome_view(r) == spec_aac_audio_packet(input@, size as nat),
{
    if input.len() < size {
        return Err(Error::Truncated { needed: size });
    }
    if size < 1 {
        return Err(Error::Truncated { needed: 1 });
    }
    let packet_type = match input[0] {
        0 => AACPacketType::SequenceHeader,
        1 => AACPacketType::Raw,
        other => {
            return Err(Error::UnknownAacPacketType(other));
        },
    };
    let aac_data = &input[1..size];
    let rest = &input[size..input.len()];
    assert(rest@ =~= input@.skip(size as int));
    Ok((rest, AACAudioPacket { packet_type, aac_data }))
}

} // verus!
