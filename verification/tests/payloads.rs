use flvparse::{
    aac_audio_packet, audio_tag, audio_tag_body, audio_tag_header, avc_video_packet, video_tag,
    video_tag_body, video_tag_header, AACAudioPacket, AACPacketType, AudioTag, AudioTagBody,
    AudioTagHeader, AvcPacketType, AvcVideoPacket, CodecID, Error, FrameType, SoundFormat,
    SoundRate, SoundSize, SoundType, VideoTag, VideoTagBody, VideoTagHeader,
};

fn sound_format_name(field: u8) -> Option<SoundFormat> {
    match field {
        0 => Some(SoundFormat::PcmPlatformEndian),
        1 => Some(SoundFormat::ADPCM),
        2 => Some(SoundFormat::MP3),
        3 => Some(SoundFormat::PcmLittleEndian),
        4 => Some(SoundFormat::Nellymoser16kHzMono),
        5 => Some(SoundFormat::Nellymoser8kHzMono),
        6 => Some(SoundFormat::Nellymoser),
        7 => Some(SoundFormat::PcmALaw),
        8 => Some(SoundFormat::PcmMuLaw),
        9 => Some(SoundFormat::Reserved),
        10 => Some(SoundFormat::AAC),
        11 => Some(SoundFormat::Speex),
        14 => Some(SoundFormat::MP3_8kHz),
        15 => Some(SoundFormat::DeviceSpecific),
        _ => None,
    }
}

#[test]
fn sound_format_of_every_header_byte() {
    for byte in 0..=255u8 {
        let input = [byte, 0xee];
        let result = audio_tag_header(&input, 1);
        match sound_format_name(byte >> 4) {
            Some(format) => {
                let (rest, header) = result.unwrap();
                assert_eq!(rest, &[0xeeu8][..]);
                assert_eq!(header.sound_format, format);
            }
            None => assert_eq!(result, Err(Error::UnknownSoundFormat(byte >> 4))),
        }
    }
}

#[test]
fn sound_formats_12_and_13_fail() {
    assert_eq!(audio_tag_header(&[0xc0], 1), Err(Error::UnknownSoundFormat(12)));
    assert_eq!(audio_tag_header(&[0xdf], 1), Err(Error::UnknownSoundFormat(13)));
    assert_eq!(audio_tag(&[0xcf, 1, 2], 3), Err(Error::UnknownSoundFormat(12)));
}

#[test]
fn sound_rate_size_and_type_fields() {
    let rates = [SoundRate::_5_5KHZ, SoundRate::_11KHZ, SoundRate::_22KHZ, SoundRate::_44KHZ];
    let sizes = [SoundSize::_8Bit, SoundSize::_16Bit];
    let types = [SoundType::Mono, SoundType::Stereo];
    for rate in 0..4u8 {
        for size in 0..2u8 {
            for kind in 0..2u8 {
                let byte = (2 << 4) | (rate << 2) | (size << 1) | kind;
                assert_eq!(
                    audio_tag_header(&[byte], 1),
                    Ok((
                        &b""[..],
                        AudioTagHeader {
                            sound_format: SoundFormat::MP3,
                            sound_rate: rates[rate as usize],
                            sound_size: sizes[size as usize],
                            sound_type: types[kind as usize],
                        }
                    ))
                );
            }
        }
    }
}

#[test]
fn audio_tag_needs_a_header_byte() {
    assert_eq!(audio_tag_header(&[0xaf], 0), Err(Error::Truncated { needed: 1 }));
    assert_eq!(audio_tag_header(&[], 1), Err(Error::Truncated { needed: 1 }));
    assert_eq!(audio_tag(&[0xaf, 1, 2], 0), Err(Error::Truncated { needed: 1 }));
    assert_eq!(audio_tag(&[], 3), Err(Error::Truncated { needed: 1 }));
}

#[test]
fn audio_tag_takes_size_bytes() {
    let input = [0xaf, 1, 2, 3, 4];
    assert_eq!(
        audio_tag(&input, 3),
        Ok((
            &[3u8, 4][..],
            AudioTag {
                header: AudioTagHeader {
                    sound_format: SoundFormat::AAC,
                    sound_rate: SoundRate::_44KHZ,
                    sound_size: SoundSize::_16Bit,
                    sound_type: SoundType::Stereo,
                },
                body: AudioTagBody { data: &[1u8, 2][..] },
            }
        ))
    );
    assert_eq!(audio_tag(&input, 1).unwrap().1.body.data, &b""[..]);
    assert_eq!(audio_tag(&input, 6), Err(Error::Truncated { needed: 5 }));
}

#[test]
fn audio_tag_body_is_the_first_bytes() {
    let input = [9u8, 8, 7];
    assert_eq!(audio_tag_body(&input, 2), Ok((&[7u8][..], AudioTagBody { data: &[9u8, 8][..] })));
    assert_eq!(audio_tag_body(&input, 0), Ok((&input[..], AudioTagBody { data: &b""[..] })));
    assert_eq!(audio_tag_body(&input, 4), Err(Error::Truncated { needed: 4 }));
    assert_eq!(AudioTagBody::parse(&input, 3), audio_tag_body(&input, 3));
}

#[test]
fn aac_packet_types() {
    assert_eq!(
        aac_audio_packet(&[0, 0x12, 0x10, 0xff], 3),
        Ok((
            &[0xffu8][..],
            AACAudioPacket { packet_type: AACPacketType::SequenceHeader, aac_data: &[0x12u8, 0x10][..] }
        ))
    );
    assert_eq!(
        aac_audio_packet(&[1], 1),
        Ok((&b""[..], AACAudioPacket { packet_type: AACPacketType::Raw, aac_data: &b""[..] }))
    );
    for byte in 2..=255u8 {
        assert_eq!(aac_audio_packet(&[byte, 0], 2), Err(Error::UnknownAacPacketType(byte)));
    }
}

#[test]
fn aac_packet_needs_its_bytes() {
    assert_eq!(aac_audio_packet(&[0, 1], 3), Err(Error::Truncated { needed: 3 }));
    assert_eq!(aac_audio_packet(&[0, 1], 0), Err(Error::Truncated { needed: 1 }));
    assert_eq!(aac_audio_packet(&[], 0), Err(Error::Truncated { needed: 1 }));
}

fn frame_type_name(field: u8) -> FrameType {
    match field {
        1 => FrameType::Key,
        2 => FrameType::Inter,
        3 => FrameType::DisposableInter,
        4 => FrameType::Generated,
        5 => FrameType::Command,
        _ => FrameType::Unknown,
    }
}

fn codec_name(field: u8) -> CodecID {
    match field {
        2 => CodecID::SorensonH263,
        3 => CodecID::Screen1,
        4 => CodecID::VP6,
        5 => CodecID::VP6Alpha,
        6 => CodecID::Screen2,
        7 => CodecID::AVC,
        _ => CodecID::Unknown,
    }
}

#[test]
fn video_header_of_every_byte() {
    for byte in 0..=255u8 {
        assert_eq!(
            video_tag_header(&[byte], 1),
            Ok((
                &b""[..],
                VideoTagHeader {
                    frame_type: frame_type_name(byte >> 4),
                    codec_id: codec_name(byte & 0x0f),
                }
            ))
        );
    }
}

#[test]
fn unknown_frame_type_and_codec_are_no_errors() {
    assert_eq!(
        video_tag_header(&[0x00], 1),
        Ok((&b""[..], VideoTagHeader { frame_type: FrameType::Unknown, codec_id: CodecID::Unknown }))
    );
    assert_eq!(
        video_tag_header(&[0x61], 1),
        Ok((&b""[..], VideoTagHeader { frame_type: FrameType::Unknown, codec_id: CodecID::Unknown }))
    );
    assert_eq!(
        video_tag_header(&[0xf8], 1),
        Ok((&b""[..], VideoTagHeader { frame_type: FrameType::Unknown, codec_id: CodecID::Unknown }))
    );
}

#[test]
fn video_tag_takes_size_bytes() {
    let input = [0x27, 1, 2, 3];
    assert_eq!(
        video_tag(&input, 3),
        Ok((
            &[3u8][..],
            VideoTag {
                header: VideoTagHeader { frame_type: FrameType::Inter, codec_id: CodecID::AVC },
                body: VideoTagBody { data: &[1u8, 2][..] },
            }
        ))
    );
    assert_eq!(video_tag(&input, 0), Err(Error::Truncated { needed: 1 }));
    assert_eq!(video_tag(&[], 1), Err(Error::Truncated { needed: 1 }));
    assert_eq!(video_tag(&input, 5), Err(Error::Truncated { needed: 4 }));
    assert_eq!(video_tag_body(&input, 5), Err(Error::Truncated { needed: 5 }));
    assert_eq!(video_tag_body(&input, 1), Ok((&[1u8, 2, 3][..], VideoTagBody { data: &[0x27u8][..] })));
}

#[test]
fn avc_packet_types_and_composition_time() {
    assert_eq!(
        avc_video_packet(&[0, 0, 0, 0, 1, 0x64, 9], 6),
        Ok((
            &[9u8][..],
            AvcVideoPacket {
                packet_type: AvcPacketType::SequenceHeader,
                composition_time: 0,
                avc_data: &[1u8, 0x64][..],
            }
        ))
    );
    assert_eq!(
        avc_video_packet(&[1, 0x00, 0x00, 0x50], 4),
        Ok((
            &b""[..],
            AvcVideoPacket { packet_type: AvcPacketType::NALU, composition_time: 80, avc_data: &b""[..] }
        ))
    );
    assert_eq!(avc_video_packet(&[1, 0xff, 0xff, 0xff], 4).unwrap().1.composition_time, -1);
    assert_eq!(avc_video_packet(&[1, 0x80, 0x00, 0x00], 4).unwrap().1.composition_time, -8_388_608);
    assert_eq!(avc_video_packet(&[1, 0x7f, 0xff, 0xff], 4).unwrap().1.composition_time, 8_388_607);
    assert_eq!(avc_video_packet(&[2, 0, 0, 0], 4).unwrap().1.packet_type, AvcPacketType::EndOfSequence);
    for byte in 3..=255u8 {
        assert_eq!(avc_video_packet(&[byte, 0, 0, 0], 4).unwrap().1.packet_type, AvcPacketType::Unknown);
    }
}

#[test]
fn avc_packet_needs_its_bytes() {
    assert_eq!(avc_video_packet(&[0, 0, 0, 0], 5), Err(Error::Truncated { needed: 5 }));
    assert_eq!(avc_video_packet(&[0, 0, 0, 0], 3), Err(Error::Truncated { needed: 4 }));
    assert_eq!(avc_video_packet(&[], 0), Err(Error::Truncated { needed: 4 }));
}
