//! A whole file: the header of nine bytes and the body, a stream of tags
//! each followed by four bytes of size.

use vstd::prelude::*;
use crate::error::{
    lemma_prepend_empty, lemma_prepend_end, lemma_prepend_push, outcome_view, prepend, truncated,
    Error,
};
use crate::number::{be_u32, be_uint, bit_field, bits, spec_take};
use crate::tag::{
    flv_tag, lemma_tag_spans_data_size, lemma_tag_wf, spec_flv_tag, FlvTag, FlvTagType,
    FlvTagView,
};

verus! {

/// The bytes "FLV" that a file starts with.
pub const FLV_HEADER_SIGNATURE: [u8; 3] = [0x46, 0x4c, 0x56];

/// The header of a file.
#[derive(Debug, Clone, Eq, PartialEq)]
pub struct FlvFileHeader {
    /// Always "FLV".
    pub signature: [u8; 3],
    pub version: u8,
    /// The flags byte as it was read.
    pub flags: u8,
    /// Bit 2 of the flags.
    pub has_audio: bool,
    /// Bit 0 of the flags.
    pub has_video: bool,
    /// The length of the header in bytes, 9 in version 1.
    pub data_offset: u32,
}

/// The body of a file.
#[derive(Debug, Clone, PartialEq)]
pub struct FlvFileBody<'a> {
    /// The four bytes before the first tag; 0 by convention.
    pub first_previous_tag_size: u32,
    /// The tags in the order of the file, each with the size that follows it.
    pub tags: Vec<(FlvTag<'a>, u32)>,
}

/// A file.
#[derive(Debug, Clone, PartialEq)]
pub struct FlvFile<'a> {
    pub header: FlvFileHeader,
    pub body: FlvFileBody<'a>,
}

/// How many tags a body holds, in all and of each type.
#[derive(Debug, Copy, Clone, Eq, PartialEq)]
pub struct TagCounts {
    pub total: usize,
    pub script: usize,
    pub video: usize,
    pub audio: usize,
}

/// What a file's header holds.
pub struct FlvFileHeaderView {
    pub signature: Seq<u8>,
    pub version: u8,
    pub flags: u8,
    pub has_audio: bool,
    pub has_video: bool,
    pub data_offset: u32,
}

/// What a file's body holds.
pub struct FlvFileBodyView {
    pub first_previous_tag_size: u32,
    pub tags: Seq<(FlvTagView, u32)>,
}

/// What a file holds.
pub struct FlvFileView {
    pub header: FlvFileHeaderView,
    pub body: FlvFileBodyView,
}

impl FlvFileHeaderView {
    /// The signature is "FLV", and the two flags are bit 2 and bit 0 of the
    /// flags byte.
    pub open spec fn wf(self) -> bool {
        &&& self.signature == signature()
        &&& self.has_audio <==> bit_field(self.flags, 2, 1) == 1
        &&& self.has_video <==> bit_field(self.flags, 0, 1) == 1
    }
}

impl FlvFileBodyView {
    /// Every tag is well formed.
    pub open spec fn wf(self) -> bool {
        forall|i: int| 0 <= i < self.tags.len() ==> (#[trigger] self.tags[i]).0.wf()
    }
}

impl FlvFileView {
    /// The header and the body are well formed.
    pub open spec fn wf(self) -> bool {
        self.header.wf() && self.body.wf()
    }
}

/// What a list of tags and sizes holds, member by member.
pub open spec fn tags_view(tags: Seq<(FlvTag, u32)>) -> Seq<(FlvTagView, u32)> {
    Seq::new(tags.len(), |i: int| (tags[i].0@, tags[i].1))
}

impl View for FlvFileHeader {
    type V = FlvFileHeaderView;

    open spec fn view(&self) -> FlvFileHeaderView {
        FlvFileHeaderView {
            signature: self.signature@,
            version: self.version,
            flags: self.flags,
            has_audio: self.has_audio,
            has_video: self.has_video,
            data_offset: self.data_offset,
        }
    }
}

impl<'a> View for FlvFileBody<'a> {
    type V = FlvFileBodyView;

    open spec fn view(&self) -> FlvFileBodyView {
        FlvFileBodyView {
            first_previous_tag_size: self.first_previous_tag_size,
            tags: tags_view(self.tags@),
        }
    }
}

impl<'a> View for FlvFile<'a> {
    type V = FlvFileView;

    open spec fn view(&self) -> FlvFileView {
        FlvFileView { header: self.header@, body: self.body@ }
    }
}

/// The bytes "FLV".
pub open spec fn signature() -> Seq<u8> {
    seq![0x46u8, 0x4cu8, 0x56u8]
}

/// The header in the first nine bytes of `input`: the signature, the
/// version, the flags, four bytes of header length.
pub open spec fn spec_flv_file_header(input: Seq<u8>) -> Result<
    (Seq<u8>, FlvFileHeaderView),
    Error,
> {
    if input.len() < 9 {
        Err(truncated(9))
    } else if input.take(3) != signature() {
        Err(Error::BadSignature)
    } else {
        Ok(
            (
                input.skip(9),
                FlvFileHeaderView {
                    signature: signature(),
                    version: input[3],
                    flags: input[4],
                    has_audio: bit_field(input[4], 2, 1) == 1,
                    has_video: bit_field(input[4], 0, 1) == 1,
                    data_offset: be_uint(input.subrange(5, 9)) as u32,
                },
            ),
        )
    }
}

/// A tag and the four bytes of size that follow it.
pub open spec fn spec_flv_sized_tag(input: Seq<u8>) -> Result<(Seq<u8>, (FlvTagView, u32)), Error> {
    match spec_flv_tag(input) {
        Ok((rest, tag)) => match spec_take(rest, 4) {
            Ok((rest, size)) => Ok((rest, (tag, be_uint(size) as u32))),
            Err(e) => Err(e),
        },
        Err(e) => Err(e),
    }
}

/// The tags of a body, one after another. The first tag or size that the
/// input is too short for ends the list, and the input from there on is
/// what is left; any other error is the result.
pub open spec fn spec_flv_tags(input: Seq<u8>) -> Result<
    (Seq<u8>, Seq<(FlvTagView, u32)>),
    Error,
>
    decreases input.len(),
{
    match spec_flv_sized_tag(input) {
        Ok((rest, entry)) => prepend(seq![entry], spec_flv_tags(rest)),
        Err(Error::Truncated { .. }) => Ok((input, Seq::empty())),
        Err(e) => Err(e),
    }
}

/// The body at the start of `input`: four bytes of size, then the tags.
pub open spec fn spec_flv_file_body(input: Seq<u8>) -> Result<(Seq<u8>, FlvFileBodyView), Error> {
    match spec_take(input, 4) {
        Ok((rest, size)) => match spec_flv_tags(rest) {
            Ok((rest, tags)) => Ok(
                (rest, FlvFileBodyView { first_previous_tag_size: be_uint(size) as u32, tags }),
            ),
            Err(e) => Err(e),
        },
        Err(e) => Err(e),
    }
}

/// The file at the start of `input`: the header, then the body.
pub open spec fn spec_flv_file(input: Seq<u8>) -> Result<(Seq<u8>, FlvFileView), Error> {
    match spec_flv_file_header(input) {
        Ok((rest, header)) => match spec_flv_file_body(rest) {
            Ok((rest, body)) => Ok((rest, FlvFileView { header, body })),
            Err(e) => Err(e),
        },
        Err(e) => Err(e),
    }
}

/// What decoding `input` as a file gives.
pub open spec fn spec_parse(input: Seq<u8>) -> Result<FlvFileView, Error> {
    match spec_flv_file(input) {
        Ok((_, file)) => Ok(file),
        Err(e) => Err(e),
    }
}

/// A tag with its size that decodes takes exactly fifteen bytes and the
/// bytes of the payload size that its header holds.
pub proof fn lemma_sized_tag_rest(input: Seq<u8>)
    ensures
        spec_flv_sized_tag(input) matches Ok((rest, entry)) ==> 15 + entry.0.header.data_size
            <= input.len() && rest == input.skip(15 + entry.0.header.data_size),
{
    if let Ok((rest, entry)) = spec_flv_sized_tag(input) {
        lemma_tag_spans_data_size(input);
        assert(rest =~= input.skip(15 + entry.0.header.data_size));
    }
}

/// A decoder's result with the rest of the input taken as a sequence and
/// the tag by what it holds.
pub open spec fn outcome_sized_tag<'a>(r: Result<(&'a [u8], (FlvTag<'a>, u32)), Error>) -> Result<
    (Seq<u8>, (FlvTagView, u32)),
    Error,
> {
    match r {
        Ok((rest, entry)) => Ok((rest@, (entry.0@, entry.1))),
        Err(e) => Err(e),
    }
}

/// Decodes a tag and the four bytes of size that follow it.
fn flv_sized_tag<'a>(input: &'a [u8]) -> (r: Result<(&'a [u8], (FlvTag<'a>, u32)), Error>)
    ensures
        outcome_sized_tag(r) == spec_flv_sized_tag(input@),
{
    let (rest, tag) = match flv_tag(input) {
        Ok(pair) => pair,
        Err(e) => {
            return Err(e);
        },
    };
    match be_u32(rest) {
        Ok((rest, size)) => Ok((rest, (tag, size))),
        Err(e) => Err(e),
    }
}

/// Decodes the header of a file.
pub fn flv_file_header(input: &[u8]) -> (r: Result<(&[u8], FlvFileHeader), Error>)
    ensures
        outcome_view(r) == spec_flv_file_header(input@),
        r matches Ok((_, header)) ==> header@.wf(),
{
    if input.len() < 9 {
        return Err(Error::Truncated { needed: 9 });
    }
    if input[0] != FLV_HEADER_SIGNATURE[0] || input[1] != FLV_HEADER_SIGNATURE[1] || input[2]
        != FLV_HEADER_SIGNATURE[2] {
        assert(input@.take(3)[0] == input@[0] && input@.take(3)[1] == input@[1] && input@.take(
            3,
        )[2] == input@[2]);
        return Err(Error::BadSignature);
    }
    assert(input@.take(3) =~= signature());
    let version = input[3];
    let flags = input[4];
    let data_offset = match be_u32(&input[5..9]) {
        Ok((_, value)) => value,
        Err(e) => {
            return Err(e);
        },
    };
    assert(input@.subrange(5, 9).take(4) =~= input@.subrange(5, 9));
    let header = FlvFileHeader {
        signature: FLV_HEADER_SIGNATURE,
        version,
        flags,
        has_audio: bits(flags, 2, 1) == 1,
        has_video: bits(flags, 0, 1) == 1,
        data_offset,
    };
    assert(header.signature@ =~= signature());
    let rest = &input[9..input.len()];
    assert(rest@ =~= input@.skip(9));
    Ok((rest, header))
}

/// Decodes the body of a file: tags up to the first that the input is too
/// short for.
pub fn flv_file_body<'a>(input: &'a [u8]) -> (r: Result<(&'a [u8], FlvFileBody<'a>), Error>)
    ensures
        outcome_view(r) == spec_flv_file_body(input@),
        r matches Ok((_, body)) ==> body@.wf(),
{
    let (start, first_previous_tag_size) = match be_u32(input) {
        Ok(pair) => pair,
        Err(e) => {
            return Err(e);
        },
    };
    let mut tags: Vec<(FlvTag<'a>, u32)> = Vec::new();
    let mut cur = start;
    proof {
        assert(tags_view(tags@) =~= Seq::empty());
        lemma_prepend_empty(spec_flv_tags(start@));
    }
    loop
        invariant
            start@ == input@.skip(4),
            input@.len() >= 4,
            first_previous_tag_size == be_uint(input@.take(4)),
            spec_flv_tags(start@) == prepend(tags_view(tags@), spec_flv_tags(cur@)),
        decreases cur@.len(),
    {
        match flv_sized_tag(cur) {
            Ok((rest, entry)) => {
                proof {
                    lemma_sized_tag_rest(cur@);
                    lemma_prepend_push(
                        tags_view(tags@),
                        (entry.0@, entry.1),
                        spec_flv_tags(rest@),
                    );
                    assert(tags_view(tags@.push(entry)) =~= tags_view(tags@).push(
                        (entry.0@, entry.1),
                    ));
                }
                tags.push(entry);
                cur = rest;
            },
            Err(Error::Truncated { .. }) => {
                proof {
                    lemma_prepend_end(tags_view(tags@), cur@);
                    lemma_file_wf(input@);
                }
                return Ok((cur, FlvFileBody { first_previous_tag_size, tags }));
            },
            Err(e) => {
                return Err(e);
            },
        }
    }
}

impl FlvFileHeader {
    /// Decodes the header of a file.
    pub fn parse(input: &[u8]) -> (r: Result<(&[u8], FlvFileHeader), Error>)
        ensures
            outcome_view(r) == spec_flv_file_header(input@),
            r matches Ok((_, header)) ==> header@.wf(),
    {
        flv_file_header(input)
    }
}

impl<'a> FlvFileBody<'a> {
    /// Decodes the body of a file.
    pub fn parse(input: &'a [u8]) -> (r: Result<(&'a [u8], FlvFileBody<'a>), Error>)
        ensures
            outcome_view(r) == spec_flv_file_body(input@),
            r matches Ok((_, body)) ==> body@.wf(),
    {
        flv_file_body(input)
    }
}

impl<'a> FlvFile<'a> {
    /// Decodes a file and gives what is left of the input with it.
    pub fn parse(input: &'a [u8]) -> (r: Result<(&'a [u8], FlvFile<'a>), Error>)
        ensures
            outcome_view(r) == spec_flv_file(input@),
            r matches Ok((_, file)) ==> file@.wf(),
    {
        let (rest, header) = match flv_file_header(input) {
            Ok(pair) => pair,
            Err(e) => {
                return Err(e);
            },
        };
        match flv_file_body(rest) {
            Ok((rest, body)) => Ok((rest, FlvFile { header, body })),
            Err(e) => Err(e),
        }
    }
}

/// Decodes a file and gives what is left of the input with it.
pub fn parse_flv_file<'a>(input: &'a [u8]) -> (r: Result<(&'a [u8], FlvFile<'a>), Error>)
    ensures
        outcome_view(r) == spec_flv_file(input@),
        r matches Ok((_, file)) ==> file@.wf(),
{
    FlvFile::parse(input)
}

/// How many of `tags` have `tag_type` in their header.
pub open spec fn count_of_type(tags: Seq<(FlvTagView, u32)>, tag_type: FlvTagType) -> nat
    decreases tags.len(),
{
    if tags.len() == 0 {
        0
    } else {
        count_of_type(tags.drop_last(), tag_type) + if tags.last().0.header.tag_type == tag_type {
            1nat
        } else {
            0nat
        }
    }
}

/// Every tag is of one of the three types, so the three counts add up to
/// the number of tags.
pub proof fn lemma_counts_add_up(tags: Seq<(FlvTagView, u32)>)
    ensures
        count_of_type(tags, FlvTagType::Script) + count_of_type(tags, FlvTagType::Video)
            + count_of_type(tags, FlvTagType::Audio) == tags.len(),
    decreases tags.len(),
{
    if tags.len() > 0 {
        lemma_counts_add_up(tags.drop_last());
    }
}

impl<'a> FlvFileBody<'a> {
    /// Counts the tags, in all and by the type in their headers.
    pub fn tag_counts(&self) -> (counts: TagCounts)
        ensures
            counts.total == self@.tags.len(),
            counts.script == count_of_type(self@.tags, FlvTagType::Script),
            counts.video == count_of_type(self@.tags, FlvTagType::Video),
            counts.audio == count_of_type(self@.tags, FlvTagType::Audio),
    {
        let mut counts = TagCounts { total: 0, script: 0, video: 0, audio: 0 };
        let mut i: usize = 0;
        while i < self.tags.len()
            invariant
                i <= self.tags@.len(),
                counts.total == i,
                counts.script == count_of_type(self@.tags.take(i as int), FlvTagType::Script),
                counts.video == count_of_type(self@.tags.take(i as int), FlvTagType::Video),
                counts.audio == count_of_type(self@.tags.take(i as int), FlvTagType::Audio),
            decreases self.tags@.len() - i,
        {
            proof {
                lemma_counts_add_up(self@.tags.take(i as int));
                assert(self@.tags.take(i + 1).drop_last() =~= self@.tags.take(i as int));
            }
            match self.tags[i].0.header.tag_type {
                FlvTagType::Script => {
                    counts.script = counts.script + 1;
                },
                FlvTagType::Video => {
                    counts.video = counts.video + 1;
                },
                FlvTagType::Audio => {
                    counts.audio = counts.audio + 1;
                },
            }
            counts.total = counts.total + 1;
            i = i + 1;
        }
        assert(self@.tags.take(i as int) =~= self@.tags);
        counts
    }
}

/// The tags of a stream that decodes are well formed.
pub proof fn lemma_tags_wf(input: Seq<u8>)
    ensures
        spec_flv_tags(input) matches Ok((_, tags)) ==> forall|i: int|
            0 <= i < tags.len() ==> (#[trigger] tags[i]).0.wf(),
    decreases input.len(),
{
    if let Ok((rest, entry)) = spec_flv_sized_tag(input) {
        lemma_sized_tag_rest(input);
        lemma_tag_wf(input);
        lemma_tags_wf(rest);
    }
}

/// A file that decodes is well formed.
pub proof fn lemma_file_wf(input: Seq<u8>)
    ensures
        spec_flv_file_header(input) matches Ok((_, header)) ==> header.wf(),
        spec_flv_file_body(input) matches Ok((_, body)) ==> body.wf(),
        spec_flv_file(input) matches Ok((_, file)) ==> file.wf(),
        spec_parse(input) matches Ok(file) ==> file.wf(),
{
    if input.len() >= 4 {
        lemma_tags_wf(input.skip(4));
    }
    if input.len() >= 13 {
        lemma_tags_wf(input.skip(9).skip(4));
    }
}

/// The tag stream never fails for want of bytes: the first tag that the
/// input is too short for ends it, and what was decoded before stands.
pub proof fn lemma_tags_never_truncated(input: Seq<u8>)
    ensures
        !(spec_flv_tags(input) matches Err(Error::Truncated { .. })),
    decreases input.len(),
{
    if let Ok((rest, _)) = spec_flv_sized_tag(input) {
        lemma_sized_tag_rest(input);
        lemma_tags_never_truncated(rest);
    }
}

/// The result of `parse` with the file taken by what it holds.
pub open spec fn parse_outcome(r: Result<FlvFile, Error>) -> Result<FlvFileView, Error> {
    match r {
        Ok(file) => Ok(file@),
        Err(e) => Err(e),
    }
}

/// Decoding the same bytes twice gives the same: two results of `parse` on
/// one input both fail with one error, or both hold the same file.
pub proof fn lemma_parse_twice_agrees(
    input: Seq<u8>,
    first: Result<FlvFile, Error>,
    second: Result<FlvFile, Error>,
)
    requires
        parse_outcome(first) == spec_parse(input),
        parse_outcome(second) == spec_parse(input),
    ensures
        first is Ok <==> second is Ok,
        first matches Ok(a) ==> second matches Ok(b) ==> a@ == b@,
        first matches Err(e) ==> second == Err::<FlvFile, _>(e),
{
}

/// An input of fewer than nine bytes, the empty one among them, fails at
/// the file header as truncated, with nine bytes needed.
pub proof fn lemma_parse_short_input(input: Seq<u8>)
    requires
        input.len() < 9,
    ensures
        spec_parse(input) == Err::<FlvFileView, _>(truncated(9)),
        truncated(9) == (Error::Truncated { needed: 9 }),
{
}

/// The flags of the header go by bit 2 and bit 0 of the flags byte.
pub proof fn lemma_header_flags(flags: u8)
    ensures
        bit_field(flags, 2, 1) == 1 <==> flags & 4 == 4,
        bit_field(flags, 0, 1) == 1 <==> flags & 1 == 1,
{
    crate::number::lemma_pow2_values();
    assert((flags / 4) % 2 == 1 <==> flags & 4 == 4) by (bit_vector);
    assert((flags / 1) % 2 == 1 <==> flags & 1 == 1) by (bit_vector);
}

/// Decodes a file.
pub fn parse<'a>(input: &'a [u8]) -> (r: Result<FlvFile<'a>, Error>)
    ensures
        parse_outcome(r) == spec_parse(input@),
        r matches Ok(file) ==> file@.wf(),
{
    match FlvFile::parse(input) {
        Ok((_, file)) => Ok(file),
        Err(e) => Err(e),
    }
}

} // verus!
