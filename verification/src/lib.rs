//! Decoder for the FLV container format.
//!
//! `parse` turns the bytes of a file into a `FlvFile`: the header of nine
//! bytes and the stream of tags, each an audio, a video or a script payload
//! behind a header of eleven bytes. The decoders that it is made of are
//! public too. Each takes the input and gives what is left of it with the
//! value decoded, or an `Error`, and nothing is copied: bodies and strings
//! borrow from the input.
//!
//! Each decoder of the format is held to a specification function
//! (`spec_flv_tag` for `flv_tag`, and so on), which says for every input
//! what the decoder gives, over sequences of bytes and the views of the
//! types; the decoder's contract is that its result is that function's. The
//! modules hold the lemmas that follow: which inputs fail and how, what a
//! successful decode leaves, that bytes appended to the input change no
//! value already decoded.
//!
//! Numbers and the milliseconds of dates are IEEE-754 doubles in the file
//! and are kept as their 64 bits (`f64::from_bits` gives the double).

pub mod audio;
pub mod error;
pub mod file;
pub mod number;
pub mod script;
pub mod script_laws;
pub mod tag;
pub mod video;

// The types whose names hold an acronym are at hand with it in capitals too.
pub use crate::audio::{
    aac_audio_packet, audio_tag, audio_tag_body, audio_tag_header, AACAudioPacket, AACPacketType,
    AudioTag, AudioTagBody, AudioTagHeader, SoundFormat, SoundRate, SoundSize, SoundType,
};
pub use crate::error::Error;
pub use crate::file::{
    flv_file_body, flv_file_header, parse, parse_flv_file, FlvFile, FlvFile as FLVFile,
    FlvFileBody, FlvFileBody as FLVFileBody, FlvFileHeader, FlvFileHeader as FLVFileHeader,
    TagCounts,
};
pub use crate::script::{
    script_data_boolean, script_data_date, script_data_ecma_array, script_data_long_string,
    script_data_number, script_data_object, script_data_object_end_marker,
    script_data_object_property, script_data_reference, script_data_strict_array,
    script_data_string, script_data_value, script_tag, ScriptDataDate, ScriptDataObjectProperty,
    ScriptDataValue, ScriptTag,
};
pub use crate::tag::{
    flv_tag, flv_tag_data, flv_tag_header, FlvTag, FlvTag as FLVTag, FlvTagData,
    FlvTagData as FLVTagData, FlvTagHeader, FlvTagHeader as FLVTagHeader, FlvTagType,
    FlvTagType as FLVTagType,
};
pub use crate::video::{
    avc_video_packet, video_tag, video_tag_body, video_tag_header, AvcPacketType,
    AvcPacketType as AVCPacketType, AvcVideoPacket, AvcVideoPacket as AVCVideoPacket, CodecID,
    FrameType, VideoTag, VideoTagBody, VideoTagHeader,
};
