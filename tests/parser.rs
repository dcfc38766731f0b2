use stream_gears::error::{map_parse_err, Error, ParseError, ParseStage};
use stream_gears::flv_parser::{
    parse_aac_audio_packet_header, parse_avc_video_packet_header, parse_file_header, parse_script_data,
    parse_tag_body, parse_tag_header, AacPacketType, AvcPacketType, TagData, TagType,
};

#[test]
fn file_header_canonical() {
    let bytes = [0x46u8, 0x4c, 0x56, 0x01, 0x05, 0x00, 0x00, 0x00, 0x09, 0xaa];
    let (rest, h) = parse_file_header(&bytes).unwrap();
    assert_eq!(h.version, 1);
    assert!(h.has_audio);
    assert!(h.has_video);
    assert_eq!(h.header_size, 9);
    assert_eq!(rest, &[0xaau8][..]);
}

#[test]
fn file_header_flags_video_only() {
    let bytes = [0x46u8, 0x4c, 0x56, 0x01, 0x01, 0x00, 0x00, 0x00, 0x09];
    let (_, h) = parse_file_header(&bytes).unwrap();
    assert!(!h.has_audio);
    assert!(h.has_video);
}

#[test]
fn file_header_rejects_bad_signature() {
    let bytes = [0x46u8, 0x4c, 0x58, 0x01, 0x05, 0x00, 0x00, 0x00, 0x09];
    assert_eq!(parse_file_header(&bytes).unwrap_err(), ParseError::Malformed);
    // An HTTP or playlist body is rejected on its first byte.
    assert_eq!(parse_file_header(b"#EXTM3U\n#E").unwrap_err(), ParseError::Malformed);
}

#[test]
fn file_header_incomplete() {
    assert_eq!(parse_file_header(b"FL").unwrap_err(), ParseError::Incomplete(7));
    assert_eq!(parse_file_header(b"").unwrap_err(), ParseError::Incomplete(9));
}

#[test]
fn tag_header_fields() {
    let bytes = [9u8, 0x00, 0x01, 0x02, 0x12, 0x34, 0x56, 0x78, 0x00, 0x00, 0x00];
    let (rest, h) = parse_tag_header(&bytes).unwrap();
    assert!(rest.is_empty());
    assert_eq!(h.tag_type, TagType::Video);
    assert_eq!(h.data_size, 0x102);
    assert_eq!(h.timestamp, 0x7812_3456);
    assert_eq!(h.stream_id, 0);
}

#[test]
fn tag_header_types() {
    let mut bytes = [8u8, 0, 0, 1, 0, 0, 0, 0, 0, 0, 0];
    assert_eq!(parse_tag_header(&bytes).unwrap().1.tag_type, TagType::Audio);
    bytes[0] = 18;
    assert_eq!(parse_tag_header(&bytes).unwrap().1.tag_type, TagType::Script);
    bytes[0] = 7;
    assert_eq!(parse_tag_header(&bytes).unwrap_err(), ParseError::Malformed);
}

#[test]
fn tag_header_incomplete() {
    let bytes = [9u8, 0, 0, 1, 0];
    assert_eq!(parse_tag_header(&bytes).unwrap_err(), ParseError::Incomplete(6));
    assert_eq!(parse_tag_header(&[]).unwrap_err(), ParseError::Incomplete(11));
}

#[test]
fn audio_body() {
    let body = [0xafu8, 0x00, 0x12, 0x10];
    let (payload, data) = parse_tag_body(TagType::Audio, 4, &body).unwrap();
    match data {
        TagData::Audio(a) => {
            assert_eq!(a.sound_format, 10);
            assert_eq!(a.sound_rate, 3);
            assert_eq!(a.sound_size, 1);
            assert_eq!(a.sound_type, 1);
        }
        _ => panic!("not audio"),
    }
    assert_eq!(payload, &[0x00u8, 0x12, 0x10][..]);
    let (_, aac) = parse_aac_audio_packet_header(payload).unwrap();
    assert_eq!(aac.packet_type, AacPacketType::SequenceHeader);
}

#[test]
fn video_body_and_avc_header() {
    let body = [0x17u8, 0x01, 0xff, 0xff, 0xfe, 0x65];
    let (payload, data) = parse_tag_body(TagType::Video, 6, &body).unwrap();
    match data {
        TagData::Video(v) => {
            assert_eq!(v.frame_type, 1);
            assert_eq!(v.codec_id, 7);
        }
        _ => panic!("not video"),
    }
    let (rest, avc) = parse_avc_video_packet_header(payload).unwrap();
    assert_eq!(avc.packet_type, AvcPacketType::Nalu);
    assert_eq!(avc.composition_time, -2);
    assert_eq!(rest, &[0x65u8][..]);
}

#[test]
fn avc_header_positive_composition_time() {
    let (_, avc) = parse_avc_video_packet_header(&[0x00, 0x00, 0x01, 0x00]).unwrap();
    assert_eq!(avc.packet_type, AvcPacketType::SequenceHeader);
    assert_eq!(avc.composition_time, 256);
    assert_eq!(parse_avc_video_packet_header(&[0x03, 0, 0, 0]).unwrap_err(), ParseError::Malformed);
    assert_eq!(parse_avc_video_packet_header(&[0x02]).unwrap_err(), ParseError::Incomplete(3));
}

#[test]
fn aac_header_errors() {
    assert_eq!(parse_aac_audio_packet_header(&[]).unwrap_err(), ParseError::Incomplete(1));
    assert_eq!(parse_aac_audio_packet_header(&[2]).unwrap_err(), ParseError::Malformed);
    assert_eq!(parse_aac_audio_packet_header(&[1]).unwrap().1.packet_type, AacPacketType::Raw);
}

#[test]
fn tag_body_errors() {
    assert_eq!(parse_tag_body(TagType::Video, 5, &[0x17, 0x00]).unwrap_err(), ParseError::Incomplete(3));
    assert_eq!(parse_tag_body(TagType::Audio, 0, &[]).unwrap_err(), ParseError::Malformed);
    let (payload, data) = parse_tag_body(TagType::Script, 2, &[0x02, 0x00, 0x77]).unwrap();
    assert_eq!(data, TagData::Script);
    assert_eq!(payload, &[0x02u8, 0x00][..]);
}

#[test]
fn script_data_name() {
    let mut body = vec![0x02u8, 0x00, 0x0a];
    body.extend_from_slice(b"onMetaData");
    body.extend_from_slice(&[0x08, 0, 0, 0, 0]);
    let (rest, sd) = parse_script_data(&body).unwrap();
    assert_eq!(sd.name, b"onMetaData".to_vec());
    assert_eq!(rest, &[0x08u8, 0, 0, 0, 0][..]);
}

#[test]
fn script_data_errors() {
    assert_eq!(parse_script_data(&[]).unwrap_err(), ParseError::Incomplete(1));
    assert_eq!(parse_script_data(&[0x03, 0, 0]).unwrap_err(), ParseError::Malformed);
    assert_eq!(parse_script_data(&[0x02, 0]).unwrap_err(), ParseError::Incomplete(1));
    assert_eq!(parse_script_data(&[0x02, 0, 4, b'a']).unwrap_err(), ParseError::Incomplete(3));
}

#[test]
fn map_parse_err_variants() {
    let ok: Result<(&[u8], u8), ParseError> = Ok((&[][..], 5));
    assert_eq!(map_parse_err(ok, ParseStage::TagHeader).unwrap().1, 5);
    let inc: Result<(&[u8], u8), ParseError> = Err(ParseError::Incomplete(3));
    assert_eq!(map_parse_err(inc, ParseStage::TagData).unwrap_err(), Error::Incomplete(ParseStage::TagData, 3));
    let bad: Result<(&[u8], u8), ParseError> = Err(ParseError::Malformed);
    assert_eq!(map_parse_err(bad, ParseStage::ScriptData).unwrap_err(), Error::Malformed(ParseStage::ScriptData));
}
