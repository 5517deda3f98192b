//! A tag: the fixed header of eleven bytes and the payload that the
//! header's type and size call for.

use vstd::prelude::*;
use crate::audio::{
    audio_tag, lemma_audio_tag_spans_size, spec_audio_tag, AudioTag, AudioTagView,
};
use crate::error::{outcome, outcome_view, truncated, Error};
use crate::number::{
    be_u24, be_u8, be_uint, lemma_be_uint_bound, lemma_pow256_values,
};
use crate::script::{script_tag, spec_script_tag, ScriptTag, ScriptTagView};
use crate::video::{
    lemma_video_tag_spans_size, spec_video_tag, video_tag, VideoTag, VideoTagView,
};

verus! {

/// The type of a tag.
#[derive(Debug, Copy, Clone, Eq, PartialEq)]
pub enum FlvTagType {
    /// 8
    Audio,
    /// 9
    Video,
    /// 18
    Script,
}

/// The header of a tag.
#[derive(Debug, Copy, Clone, Eq, PartialEq)]
pub struct FlvTagHeader {
    pub tag_type: FlvTagType,
    /// The number of bytes of the payload; below 2 to the power 24.
    pub data_size: u32,
    /// Milliseconds: three bytes, and a fourth that holds the highest bits.
    pub timestamp: u32,
    /// Below 2 to the power 24; 0 by convention.
    pub stream_id: u32,
}

/// The payload of a tag.
#[derive(Debug, Clone, PartialEq)]
pub enum FlvTagData<'a> {
    Audio(AudioTag<'a>),
    Video(VideoTag<'a>),
    Script(ScriptTag<'a>),
}

/// A tag.
#[derive(Debug, Clone, PartialEq)]
pub struct FlvTag<'a> {
    pub header: FlvTagHeader,
    pub data: FlvTagData<'a>,
}

/// What a tag's payload holds.
pub enum FlvTagDataView {
    Audio(AudioTagView),
    Video(VideoTagView),
    Script(ScriptTagView),
}

/// What a tag holds.
pub struct FlvTagView {
    pub header: FlvTagHeader,
    pub data: FlvTagDataView,
}

impl FlvTagHeader {
    /// The payload size and the stream id fit in three bytes.
    pub open spec fn wf(self) -> bool {
        self.data_size < 0x100_0000 && self.stream_id < 0x100_0000
    }
}

impl FlvTagView {
    /// The header is well formed, the payload is of the type that the
    /// header names, and an audio or video payload has as many bytes as the
    /// header says: one of header and the body.
    pub open spec fn wf(self) -> bool {
        &&& self.header.wf()
        &&& match self.data {
            FlvTagDataView::Audio(tag) => self.header.tag_type == FlvTagType::Audio
                && tag.body.len() + 1 == self.header.data_size,
            FlvTagDataView::Video(tag) => self.header.tag_type == FlvTagType::Video
                && tag.body.len() + 1 == self.header.data_size,
            FlvTagDataView::Script(_) => self.header.tag_type == FlvTagType::Script,
        }
    }
}

impl<'a> View for FlvTagData<'a> {
    type V = FlvTagDataView;

    open spec fn view(&self) -> FlvTagDataView {
        match self {
            FlvTagData::Audio(tag) => FlvTagDataView::Audio(tag@),
            FlvTagData::Video(tag) => FlvTagDataView::Video(tag@),
            FlvTagData::Script(tag) => FlvTagDataView::Script(tag@),
        }
    }
}

impl<'a> View for FlvTag<'a> {
    type V = FlvTagView;

    open spec fn view(&self) -> FlvTagView {
        FlvTagView { header: self.header, data: self.data@ }
    }
}

/// The tag type that a byte names.
pub open spec fn tag_type_of(byte: u8) -> Option<FlvTagType> {
    if byte == 8 {
        Some(FlvTagType::Audio)
    } else if byte == 9 {
        Some(FlvTagType::Video)
    } else if byte == 18 {
        Some(FlvTagType::Script)
    } else {
        None
    }
}

/// The header in the first eleven bytes of `input`: the type, three bytes
/// of payload size, three bytes of timestamp and one that extends it at the
/// high end, three bytes of stream id.
pub open spec fn spec_flv_tag_header(input: Seq<u8>) -> Result<(Seq<u8>, FlvTagHeader), Error> {
    if input.len() < 11 {
        Err(truncated(11))
    } else {
        match tag_type_of(input[0]) {
            Some(tag_type) => Ok(
                (
                    input.skip(11),
                    FlvTagHeader {
                        tag_type,
                        data_size: be_uint(input.subrange(1, 4)) as u32,
                        timestamp: (input[7] * 0x100_0000 + be_uint(input.subrange(4, 7))) as u32,
                        stream_id: be_uint(input.subrange(8, 11)) as u32,
                    },
                ),
            ),
            None => Err(Error::UnknownTagType(input[0])),
        }
    }
}

/// The payload of `size` bytes at the start of `input`, decoded as
/// `tag_type` says.
pub open spec fn spec_flv_tag_data(input: Seq<u8>, tag_type: FlvTagType, size: nat) -> Result<
    (Seq<u8>, FlvTagDataView),
    Error,
> {
    if input.len() < size {
        Err(truncated(size))
    } else {
        match tag_type {
            FlvTagType::Audio => match spec_audio_tag(input, size) {
                Ok((rest, tag)) => Ok((rest, FlvTagDataView::Audio(tag))),
                Err(e) => Err(e),
            },
            FlvTagType::Video => match spec_video_tag(input, size) {
                Ok((rest, tag)) => Ok((rest, FlvTagDataView::Video(tag))),
                Err(e) => Err(e),
            },
            FlvTagType::Script => match spec_script_tag(input, size) {
                Ok((rest, tag)) => Ok((rest, FlvTagDataView::Script(tag))),
                Err(e) => Err(e),
            },
        }
    }
}

/// The tag at the start of `input`: a header, then the payload it
/// announces.
pub open spec fn spec_flv_tag(input: Seq<u8>) -> Result<(Seq<u8>, FlvTagView), Error> {
    match spec_flv_tag_header(input) {
        Ok((rest, header)) => match spec_flv_tag_data(
            rest,
            header.tag_type,
            header.data_size as nat,
        ) {
            Ok((rest, data)) => Ok((rest, FlvTagView { header, data })),
            Err(e) => Err(e),
        },
        Err(e) => Err(e),
    }
}

/// A payload that decodes takes exactly `size` bytes of the input, whatever
/// its type.
pub proof fn lemma_tag_data_spans_size(input: Seq<u8>, tag_type: FlvTagType, size: nat)
    ensures
        spec_flv_tag_data(input, tag_type, size) matches Ok((rest, _)) ==> 1 <= size
            <= input.len() && rest == input.skip(size as int),
{
    lemma_audio_tag_spans_size(input, size);
    lemma_video_tag_spans_size(input, size);
}

/// A tag that decodes takes exactly eleven bytes and the bytes of the
/// payload size that its header holds.
pub proof fn lemma_tag_spans_data_size(input: Seq<u8>)
    ensures
        spec_flv_tag(input) matches Ok((rest, tag)) ==> 11 + tag.header.data_size <= input.len()
            && rest == input.skip(11 + tag.header.data_size),
{
    if let Ok((rest, tag)) = spec_flv_tag(input) {
        lemma_tag_data_spans_size(input.skip(11), tag.header.tag_type, tag.header.data_size as nat);
        assert(rest =~= input.skip(11 + tag.header.data_size));
    }
}

/// A header that decodes is well formed.
pub proof fn lemma_tag_header_wf(input: Seq<u8>)
    ensures
        spec_flv_tag_header(input) matches Ok((_, header)) ==> header.wf(),
{
    if input.len() >= 11 {
        lemma_be_uint_bound(input.subrange(1, 4));
        lemma_be_uint_bound(input.subrange(8, 11));
        lemma_pow256_values();
    }
}

/// A tag that decodes is well formed.
pub proof fn lemma_tag_wf(input: Seq<u8>)
    ensures
        spec_flv_tag(input) matches Ok((_, tag)) ==> tag.wf(),
{
    if let Ok((_, tag)) = spec_flv_tag(input) {
        lemma_tag_header_wf(input);
        lemma_audio_tag_spans_size(input.skip(11), tag.header.data_size as nat);
        lemma_video_tag_spans_size(input.skip(11), tag.header.data_size as nat);
    }
}

/// The type byte selects the payload: a tag that decodes holds an audio
/// payload where the byte is 8, a video payload where it is 9 and a script
/// payload where it is 18; with any other byte a tag of eleven bytes or more
/// fails with that byte as unknown tag type.
pub proof fn lemma_tag_type_selects_payload(input: Seq<u8>)
    requires
        input.len() >= 11,
    ensures
        input[0] != 8 && input[0] != 9 && input[0] != 18 ==> spec_flv_tag(input) == Err::<
            (Seq<u8>, FlvTagView),
            _,
        >(Error::UnknownTagType(input[0])),
        spec_flv_tag(input) matches Ok((_, tag)) ==> {
            &&& input[0] == 8 <==> tag.header.tag_type == FlvTagType::Audio
            &&& input[0] == 9 <==> tag.header.tag_type == FlvTagType::Video
            &&& input[0] == 18 <==> tag.header.tag_type == FlvTagType::Script
            &&& tag.header.tag_type == FlvTagType::Audio <==> tag.data is Audio
            &&& tag.header.tag_type == FlvTagType::Video <==> tag.data is Video
            &&& tag.header.tag_type == FlvTagType::Script <==> tag.data is Script
        },
{
}

/// Decodes the header of a tag.
pub fn flv_tag_header(input: &[u8]) -> (r: Result<(&[u8], FlvTagHeader), Error>)
    ensures
        outcome(r) == spec_flv_tag_header(input@),
        r matches Ok((_, header)) ==> header.wf(),
{
    proof {
        lemma_tag_header_wf(input@);
    }
    if input.len() < 11 {
        return Err(Error::Truncated { needed: 11 });
    }
    let tag_type = match input[0] {
        8 => FlvTagType::Audio,
        9 => FlvTagType::Video,
        18 => FlvTagType::Script,
        other => {
            return Err(Error::UnknownTagType(other));
        },
    };
    let fields = &input[1..11];
    let (fields, data_size) = match be_u24(fields) {
        Ok(pair) => pair,
        Err(e) => {
            return Err(e);
        },
    };
    let (fields, timestamp_low) = match be_u24(fields) {
        Ok(pair) => pair,
        Err(e) => {
            return Err(e);
        },
    };
    let (fields, timestamp_extended) = match be_u8(fields) {
        Ok(pair) => pair,
        Err(e) => {
            return Err(e);
        },
    };
    let stream_id = match be_u24(fields) {
        Ok((_, value)) => value,
        Err(e) => {
            return Err(e);
        },
    };
    proof {
        let all = input@.subrange(1, 11);
        assert(all.take(3) =~= input@.subrange(1, 4));
        assert(all.skip(3).take(3) =~= input@.subrange(4, 7));
        assert(all.skip(3).skip(3).skip(1).take(3) =~= input@.subrange(8, 11));
        lemma_be_uint_bound(input@.subrange(4, 7));
        lemma_pow256_values();
    }
    let timestamp: u32 = (timestamp_extended as u32) * 0x100_0000 + timestamp_low;
    let rest = &input[11..input.len()];
    assert(rest@ =~= input@.skip(11));
    Ok((rest, FlvTagHeader { tag_type, data_size, timestamp, stream_id }))
}

/// Decodes a payload of `size` bytes as `tag_type` says.
pub fn flv_tag_data<'a>(input: &'a [u8], tag_type: FlvTagType, size: usize) -> (r: Result<
    (&'a [u8], FlvTagData<'a>),
    Error,
>)
    ensures
        outcome_view(r) == spec_flv_tag_data(input@, tag_type, size as nat),
{
    if input.len() < size {
        return Err(Error::Truncated { needed: size });
    }
    match tag_type {
        FlvTagType::Audio => match audio_tag(input, size) {
            Ok((rest, tag)) => Ok((rest, FlvTagData::Audio(tag))),
            Err(e) => Err(e),
        },
        FlvTagType::Video => match video_tag(input, size) {
            Ok((rest, tag)) => Ok((rest, FlvTagData::Video(tag))),
            Err(e) => Err(e),
        },
        FlvTagType::Script => match script_tag(input, size) {
            Ok((rest, tag)) => Ok((rest, FlvTagData::Script(tag))),
            Err(e) => Err(e),
        },
    }
}

/// Decodes a tag.
pub fn flv_tag<'a>(input: &'a [u8]) -> (r: Result<(&'a [u8], FlvTag<'a>), Error>)
    ensures
        outcome_view(r) == spec_flv_tag(input@),
        r matches Ok((_, tag)) ==> tag@.wf(),
{
    proof {
        lemma_tag_wf(input@);
    }
    let (rest, header) = match flv_tag_header(input) {
        Ok(pair) => pair,
        Err(e) => {
            return Err(e);
        },
    };
    match flv_tag_data(rest, header.tag_type, header.data_size as usize) {
        Ok((rest, data)) => Ok((rest, FlvTag { header, data })),
        Err(e) => Err(e),
    }
}

impl FlvTagHeader {
    /// Decodes the header of a tag.
    pub fn parse(input: &[u8]) -> (r: Result<(&[u8], FlvTagHeader), Error>)
        ensures
            outcome(r) == spec_flv_tag_header(input@),
            r matches Ok((_, header)) ==> header.wf(),
    {
        flv_tag_header(input)
    }
}

impl<'a> FlvTagData<'a> {
    /// Decodes a payload of `size` bytes as `tag_type` says.
    pub fn parse(input: &'a [u8], tag_type: FlvTagType, size: usize) -> (r: Result<
        (&'a [u8], FlvTagData<'a>),
        Error,
    >)
        ensures
            outcome_view(r) == spec_flv_tag_data(input@, tag_type, size as nat),
    {
        flv_tag_data(input, tag_type, size)
    }
}

impl<'a> FlvTag<'a> {
    /// Decodes a tag.
    pub fn parse(input: &'a [u8]) -> (r: Result<(&'a [u8], FlvTag<'a>), Error>)
        ensures
            outcome_view(r) == spec_flv_tag(input@),
            r matches Ok((_, tag)) ==> tag@.wf(),
    {
        flv_tag(input)
    }
}

} // verus!
