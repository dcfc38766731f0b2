use vstd::prelude::*;
use vstd::slice::{slice_subrange, slice_to_vec};
use crate::error::ParseError;

verus! {

/// Big-endian value of the two bytes of `b` starting at `i`.
pub open spec fn be_u16(b: Seq<u8>, i: int) -> int {
    b[i] as int * 256 + b[i + 1] as int
}

/// Big-endian value of the three bytes of `b` starting at `i`.
pub open spec fn be_u24(b: Seq<u8>, i: int) -> int {
    b[i] as int * 65536 + b[i + 1] as int * 256 + b[i + 2] as int
}

/// Big-endian value of the four bytes of `b` starting at `i`.
pub open spec fn be_u32(b: Seq<u8>, i: int) -> int {
    b[i] as int * 16777216 + be_u24(b, i + 1)
}

/// The three signature bytes that open every FLV file.
pub open spec fn flv_signature() -> Seq<u8> {
    seq![0x46u8, 0x4cu8, 0x56u8]
}

/// Kind of an FLV tag, carried in the first byte of its header.
#[derive(Clone, Copy, Debug, PartialEq, Eq, Structural)]
pub enum TagType {
    Audio,
    Video,
    Script,
}

pub open spec fn tag_type_code(t: TagType) -> u8 {
    match t {
        TagType::Audio => 8,
        TagType::Video => 9,
        TagType::Script => 18,
    }
}

pub open spec fn is_tag_type_code(b: u8) -> bool {
    b == 8 || b == 9 || b == 18
}

pub open spec fn tag_type_of_code(b: u8) -> TagType {
    if b == 8 {
        TagType::Audio
    } else if b == 9 {
        TagType::Video
    } else {
        TagType::Script
    }
}

/// The fixed 11-byte header in front of every tag body.
#[derive(Clone, Copy, Debug, PartialEq, Eq, Structural)]
pub struct TagHeader {
    pub tag_type: TagType,
    /// Length of the body in bytes (24 bits on the wire).
    pub data_size: u32,
    /// Milliseconds; the high byte travels after the low 24 bits.
    pub timestamp: u32,
    /// Always 0 in practice (24 bits on the wire).
    pub stream_id: u32,
}

impl TagHeader {
    /// The fields fit their widths on the wire.
    pub open spec fn wf(&self) -> bool {
        self.data_size < 0x100_0000 && self.stream_id < 0x100_0000
    }
}

/// The header that the 11 bytes of `b` starting at 0 encode.
pub open spec fn decode_tag_header(b: Seq<u8>) -> TagHeader {
    TagHeader {
        tag_type: tag_type_of_code(b[0]),
        data_size: be_u24(b, 1) as u32,
        timestamp: (be_u24(b, 4) + b[7] as int * 16777216) as u32,
        stream_id: be_u24(b, 8) as u32,
    }
}

/// The FLV file header: signature, version, stream flags and header size.
#[derive(Clone, Copy, Debug, PartialEq, Eq, Structural)]
pub struct FileHeader {
    pub version: u8,
    pub has_audio: bool,
    pub has_video: bool,
    pub header_size: u32,
}

/// The file header that the 9 bytes of `b` starting at 0 encode.
pub open spec fn decode_file_header(b: Seq<u8>) -> FileHeader {
    FileHeader {
        version: b[3],
        has_audio: (b[4] / 4) % 2 == 1,
        has_video: b[4] % 2 == 1,
        header_size: be_u32(b, 5) as u32,
    }
}

/// Whether the bytes available agree with the signature as far as they go.
pub open spec fn signature_agrees(b: Seq<u8>) -> bool {
    forall|i: int| 0 <= i < 3 && i < b.len() ==> b[i] == #[trigger] flv_signature()[i]
}

/// Parses the 9-byte file header.
pub fn parse_file_header<'a>(input: &'a [u8]) -> (r: Result<(&'a [u8], FileHeader), ParseError>)
    ensures
        match r {
            Ok((rest, h)) => input@.len() >= 9 && input@.subrange(0, 3) == flv_signature()
                && h == decode_file_header(input@) && rest@ == input@.subrange(9, input@.len() as int),
            Err(ParseError::Incomplete(n)) => signature_agrees(input@) && input@.len() < 9 && n == 9 - input@.len(),
            Err(ParseError::Malformed) => !signature_agrees(input@),
        },
{
    let sig: [u8; 3] = [0x46, 0x4c, 0x56];
    let mut i: usize = 0;
    while i < 3 && i < input.len()
        invariant
            i <= 3,
            sig@ == flv_signature(),
            forall|k: int| 0 <= k < i ==> input@[k] == #[trigger] flv_signature()[k],
        decreases 3 - i,
    {
        if input[i] != sig[i] {
            return Err(ParseError::Malformed);
        }
        i = i + 1;
    }
    if input.len() < 9 {
        return Err(ParseError::Incomplete(9 - input.len()));
    }
    assert(input@.subrange(0, 3) =~= flv_signature());
    let flags = input[4];
    let size = input[5] as u32 * 16777216 + input[6] as u32 * 65536 + input[7] as u32 * 256 + input[8] as u32;
    let h = FileHeader {
        version: input[3],
        has_audio: (flags / 4) % 2 == 1,
        has_video: flags % 2 == 1,
        header_size: size,
    };
    Ok((slice_subrange(input, 9, input.len()), h))
}

/// Parses an 11-byte tag header.
pub fn parse_tag_header<'a>(input: &'a [u8]) -> (r: Result<(&'a [u8], TagHeader), ParseError>)
    ensures
        match r {
            Ok((rest, h)) => input@.len() >= 11 && is_tag_type_code(input@[0])
                && h == decode_tag_header(input@) && h.wf()
                && rest@ == input@.subrange(11, input@.len() as int),
            Err(ParseError::Incomplete(n)) => input@.len() < 11 && (input@.len() == 0 || is_tag_type_code(input@[0]))
                && n == 11 - input@.len(),
            Err(ParseError::Malformed) => input@.len() >= 1 && !is_tag_type_code(input@[0]),
        },
{
    if input.len() >= 1 && input[0] != 8 && input[0] != 9 && input[0] != 18 {
        return Err(ParseError::Malformed);
    }
    if input.len() < 11 {
        return Err(ParseError::Incomplete(11 - input.len()));
    }
    let tag_type = if input[0] == 8 {
        TagType::Audio
    } else if input[0] == 9 {
        TagType::Video
    } else {
        TagType::Script
    };
    let data_size = input[1] as u32 * 65536 + input[2] as u32 * 256 + input[3] as u32;
    let timestamp = input[7] as u32 * 16777216 + input[4] as u32 * 65536 + input[5] as u32 * 256 + input[6] as u32;
    let stream_id = input[8] as u32 * 65536 + input[9] as u32 * 256 + input[10] as u32;
    let h = TagHeader { tag_type, data_size, timestamp, stream_id };
    Ok((slice_subrange(input, 11, input.len()), h))
}

/// The codec byte of an audio tag, unpacked.
#[derive(Clone, Copy, Debug, PartialEq, Eq, Structural)]
pub struct AudioHeader {
    /// High nibble; 10 is AAC.
    pub sound_format: u8,
    pub sound_rate: u8,
    pub sound_size: u8,
    pub sound_type: u8,
}

/// The codec byte of a video tag, unpacked.
#[derive(Clone, Copy, Debug, PartialEq, Eq, Structural)]
pub struct VideoHeader {
    /// High nibble; 1 is a keyframe.
    pub frame_type: u8,
    /// Low nibble; 7 is H.264.
    pub codec_id: u8,
}

/// Sound format code of AAC.
pub const SOUND_FORMAT_AAC: u8 = 10;
/// Codec id of H.264 (AVC).
pub const CODEC_ID_H264: u8 = 7;
/// Frame type of a keyframe.
pub const FRAME_TYPE_KEY: u8 = 1;

/// Typed view of a tag body.
#[derive(Clone, Copy, Debug, PartialEq, Eq, Structural)]
pub enum TagData {
    Audio(AudioHeader),
    Video(VideoHeader),
    Script,
}

pub open spec fn decode_audio_header(b: u8) -> AudioHeader {
    AudioHeader { sound_format: b / 16, sound_rate: (b / 4) % 4, sound_size: (b / 2) % 2, sound_type: b % 2 }
}

pub open spec fn decode_video_header(b: u8) -> VideoHeader {
    VideoHeader { frame_type: b / 16, codec_id: b % 16 }
}

/// Parses the body of a tag of the given type and size. On success the
/// remaining input is the codec payload: for audio and video the body after
/// its first byte, for script data the whole body.
pub fn parse_tag_body<'a>(tag_type: TagType, data_size: usize, input: &'a [u8]) -> (r: Result<(&'a [u8], TagData), ParseError>)
    ensures
        input@.len() < data_size ==> r == Err::<(&'a [u8], TagData), ParseError>(ParseError::Incomplete((data_size - input@.len()) as usize)),
        input@.len() >= data_size ==> match tag_type {
            TagType::Audio => if data_size == 0 {
                r == Err::<(&'a [u8], TagData), ParseError>(ParseError::Malformed)
            } else {
                (r matches Ok((rest, d)) && d == TagData::Audio(decode_audio_header(input@[0]))
                    && rest@ == input@.subrange(1, data_size as int))
            },
            TagType::Video => if data_size == 0 {
                r == Err::<(&'a [u8], TagData), ParseError>(ParseError::Malformed)
            } else {
                (r matches Ok((rest, d)) && d == TagData::Video(decode_video_header(input@[0]))
                    && rest@ == input@.subrange(1, data_size as int))
            },
            TagType::Script => (r matches Ok((rest, d)) && d == TagData::Script
                && rest@ == input@.subrange(0, data_size as int)),
        },
{
    if input.len() < data_size {
        return Err(ParseError::Incomplete(data_size - input.len()));
    }
    match tag_type {
        TagType::Audio => {
            if data_size == 0 {
                return Err(ParseError::Malformed);
            }
            let b = input[0];
            let h = AudioHeader { sound_format: b / 16, sound_rate: (b / 4) % 4, sound_size: (b / 2) % 2, sound_type: b % 2 };
            Ok((slice_subrange(input, 1, data_size), TagData::Audio(h)))
        },
        TagType::Video => {
            if data_size == 0 {
                return Err(ParseError::Malformed);
            }
            let b = input[0];
            let h = VideoHeader { frame_type: b / 16, codec_id: b % 16 };
            Ok((slice_subrange(input, 1, data_size), TagData::Video(h)))
        },
        TagType::Script => Ok((slice_subrange(input, 0, data_size), TagData::Script)),
    }
}

/// Packet type that follows the codec byte of an AAC audio tag.
#[derive(Clone, Copy, Debug, PartialEq, Eq, Structural)]
pub enum AacPacketType {
    SequenceHeader,
    Raw,
}

/// Packet type that follows the codec byte of an H.264 video tag.
#[derive(Clone, Copy, Debug, PartialEq, Eq, Structural)]
pub enum AvcPacketType {
    SequenceHeader,
    Nalu,
    EndOfSequence,
}

#[derive(Clone, Copy, Debug, PartialEq, Eq, Structural)]
pub struct AacAudioPacketHeader {
    pub packet_type: AacPacketType,
}

#[derive(Clone, Copy, Debug, PartialEq, Eq, Structural)]
pub struct AvcVideoPacketHeader {
    pub packet_type: AvcPacketType,
    /// Signed 24-bit composition time offset.
    pub composition_time: i32,
}

pub open spec fn aac_packet_type_of(b: u8) -> AacPacketType {
    if b == 0 { AacPacketType::SequenceHeader } else { AacPacketType::Raw }
}

pub open spec fn avc_packet_type_of(b: u8) -> AvcPacketType {
    if b == 0 {
        AvcPacketType::SequenceHeader
    } else if b == 1 {
        AvcPacketType::Nalu
    } else {
        AvcPacketType::EndOfSequence
    }
}

/// The signed 24-bit big-endian value of the three bytes of `b` at `i`.
pub open spec fn be_i24(b: Seq<u8>, i: int) -> int {
    if be_u24(b, i) >= 0x80_0000 { be_u24(b, i) - 0x100_0000 } else { be_u24(b, i) }
}

/// Parses the AAC packet header at the start of an AAC audio payload.
pub fn parse_aac_audio_packet_header<'a>(input: &'a [u8]) -> (r: Result<(&'a [u8], AacAudioPacketHeader), ParseError>)
    ensures
        match r {
            Ok((rest, h)) => input@.len() >= 1 && input@[0] <= 1
                && h.packet_type == aac_packet_type_of(input@[0])
                && rest@ == input@.subrange(1, input@.len() as int),
            Err(ParseError::Incomplete(n)) => input@.len() == 0 && n == 1,
            Err(ParseError::Malformed) => input@.len() >= 1 && input@[0] > 1,
        },
{
    if input.len() == 0 {
        return Err(ParseError::Incomplete(1));
    }
    let packet_type = if input[0] == 0 {
        AacPacketType::SequenceHeader
    } else if input[0] == 1 {
        AacPacketType::Raw
    } else {
        return Err(ParseError::Malformed);
    };
    Ok((slice_subrange(input, 1, input.len()), AacAudioPacketHeader { packet_type }))
}

/// Parses the AVC packet header (packet type and composition time) at the
/// start of an H.264 video payload.
pub fn parse_avc_video_packet_header<'a>(input: &'a [u8]) -> (r: Result<(&'a [u8], AvcVideoPacketHeader), ParseError>)
    ensures
        match r {
            Ok((rest, h)) => input@.len() >= 4 && input@[0] <= 2
                && h.packet_type == avc_packet_type_of(input@[0])
                && h.composition_time == be_i24(input@, 1)
                && rest@ == input@.subrange(4, input@.len() as int),
            Err(ParseError::Incomplete(n)) => (input@.len() == 0 || input@[0] <= 2) && input@.len() < 4
                && n == 4 - input@.len(),
            Err(ParseError::Malformed) => input@.len() >= 1 && input@[0] > 2,
        },
{
    if input.len() >= 1 && input[0] > 2 {
        return Err(ParseError::Malformed);
    }
    if input.len() < 4 {
        return Err(ParseError::Incomplete(4 - input.len()));
    }
    let packet_type = if input[0] == 0 {
        AvcPacketType::SequenceHeader
    } else if input[0] == 1 {
        AvcPacketType::Nalu
    } else {
        AvcPacketType::EndOfSequence
    };
    let u = input[1] as i32 * 65536 + input[2] as i32 * 256 + input[3] as i32;
    let composition_time = if u >= 0x80_0000 { u - 0x100_0000 } else { u };
    Ok((slice_subrange(input, 4, input.len()), AvcVideoPacketHeader { packet_type, composition_time }))
}

/// AMF0 type marker of a string value.
pub const AMF0_STRING_MARKER: u8 = 2;

/// The name that opens a script tag; the AMF0 value after it stays undecoded.
#[derive(Debug)]
pub struct ScriptData {
    pub name: Vec<u8>,
}

/// Decodes the AMF0 string that names a script tag's data (`onMetaData`).
/// The remaining input is the AMF0 value that follows the name.
pub fn parse_script_data<'a>(input: &'a [u8]) -> (r: Result<(&'a [u8], ScriptData), ParseError>)
    ensures
        input@.len() == 0 ==> r == Err::<(&'a [u8], ScriptData), ParseError>(ParseError::Incomplete(1)),
        input@.len() >= 1 && input@[0] != AMF0_STRING_MARKER ==> r == Err::<(&'a [u8], ScriptData), ParseError>(ParseError::Malformed),
        input@.len() >= 1 && input@[0] == AMF0_STRING_MARKER && input@.len() < 3 ==>
            r == Err::<(&'a [u8], ScriptData), ParseError>(ParseError::Incomplete((3 - input@.len()) as usize)),
        input@.len() >= 3 && input@[0] == AMF0_STRING_MARKER && input@.len() < 3 + be_u16(input@, 1) ==>
            r == Err::<(&'a [u8], ScriptData), ParseError>(ParseError::Incomplete((3 + be_u16(input@, 1) - input@.len()) as usize)),
        input@.len() >= 3 && input@[0] == AMF0_STRING_MARKER && input@.len() >= 3 + be_u16(input@, 1) ==>
            (r matches Ok((rest, d)) && d.name@ == input@.subrange(3, 3 + be_u16(input@, 1))
                && rest@ == input@.subrange(3 + be_u16(input@, 1), input@.len() as int)),
{
    if input.len() == 0 {
        return Err(ParseError::Incomplete(1));
    }
    if input[0] != AMF0_STRING_MARKER {
        return Err(ParseError::Malformed);
    }
    if input.len() < 3 {
        return Err(ParseError::Incomplete(3 - input.len()));
    }
    let n = input[1] as usize * 256 + input[2] as usize;
    if input.len() - 3 < n {
        return Err(ParseError::Incomplete(3 + n - input.len()));
    }
    let name = slice_to_vec(slice_subrange(input, 3, 3 + n));
    Ok((slice_subrange(input, 3 + n, input.len()), ScriptData { name }))
}

} // verus!
