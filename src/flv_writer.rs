use vstd::prelude::*;
use crate::error::{Error, ParseStage, map_parse_err};
use crate::flv_parser::{
    TagHeader, TagType, TagData, ScriptData, AacPacketType, AvcPacketType, decode_tag_header, tag_type_code,
    decode_audio_header, decode_video_header, aac_packet_type_of, avc_packet_type_of, be_i24, be_u16,
    parse_tag_body, parse_aac_audio_packet_header, parse_avc_video_packet_header, parse_script_data,
    SOUND_FORMAT_AAC, CODEC_ID_H264,
};
use crate::segmenter::TagRec;

verus! {

/// Big-endian bytes of a 24-bit value.
pub open spec fn u24_bytes(x: int) -> Seq<u8> {
    seq![(x / 65536) as u8, ((x / 256) % 256) as u8, (x % 256) as u8]
}

/// Big-endian bytes of a 32-bit value.
pub open spec fn u32_bytes(x: int) -> Seq<u8> {
    seq![(x / 16777216) as u8] + u24_bytes(x % 16777216)
}

/// The 11 bytes that encode a tag header: type, size, the low 24 bits of the
/// timestamp, its high byte, and the stream id.
pub open spec fn encode_tag_header(h: TagHeader) -> Seq<u8> {
    seq![tag_type_code(h.tag_type)] + u24_bytes(h.data_size as int) + u24_bytes(h.timestamp as int % 16777216)
        + seq![(h.timestamp as int / 16777216) as u8] + u24_bytes(h.stream_id as int)
}

/// A whole tag as it stands in a file: header, body, previous-tag-size trailer.
pub open spec fn encode_tag(h: TagHeader, body: Seq<u8>, trailer: Seq<u8>) -> Seq<u8> {
    encode_tag_header(h) + body + trailer
}

/// The canonical file header: signature, version 1, audio and video present, size 9.
pub open spec fn flv_header_bytes() -> Seq<u8> {
    seq![0x46u8, 0x4cu8, 0x56u8, 0x01u8, 0x05u8, 0x00u8, 0x00u8, 0x00u8, 0x09u8]
}

/// What a fresh file starts with: the file header and a zero trailer.
pub open spec fn file_prelude() -> Seq<u8> {
    flv_header_bytes() + u32_bytes(0)
}

fn push_u24(out: &mut Vec<u8>, x: u32)
    requires
        x < 0x100_0000,
    ensures
        final(out)@ == old(out)@ + u24_bytes(x as int),
{
    out.push((x / 65536) as u8);
    out.push(((x / 256) % 256) as u8);
    out.push((x % 256) as u8);
    assert(final(out)@ =~= old(out)@ + u24_bytes(x as int));
}

/// Appends the previous-tag-size trailer, big-endian.
pub fn write_previous_tag_size(writer: &mut Vec<u8>, previous_tag_size: u32)
    ensures
        final(writer)@ == old(writer)@ + u32_bytes(previous_tag_size as int),
{
    writer.push((previous_tag_size / 16777216) as u8);
    push_u24(writer, previous_tag_size % 16777216);
    assert(final(writer)@ =~= old(writer)@ + u32_bytes(previous_tag_size as int));
}

/// Appends the 11 bytes of a tag header.
pub fn write_tag_header(writer: &mut Vec<u8>, tag_header: &TagHeader)
    requires
        tag_header.wf(),
    ensures
        final(writer)@ == old(writer)@ + encode_tag_header(*tag_header),
{
    let code: u8 = match tag_header.tag_type {
        TagType::Audio => 8,
        TagType::Video => 9,
        TagType::Script => 18,
    };
    writer.push(code);
    push_u24(writer, tag_header.data_size);
    push_u24(writer, tag_header.timestamp % 16777216);
    writer.push((tag_header.timestamp / 16777216) as u8);
    push_u24(writer, tag_header.stream_id);
    assert(final(writer)@ =~= old(writer)@ + encode_tag_header(*tag_header));
}

/// Appends a whole tag: its header, then `body` and `previous_tag_size` verbatim.
pub fn write_tag(out: &mut Vec<u8>, tag_header: &TagHeader, body: &[u8], previous_tag_size: &[u8])
    requires
        tag_header.wf(),
    ensures
        final(out)@ == old(out)@ + encode_tag(*tag_header, body@, previous_tag_size@),
        final(out)@.len() == old(out)@.len() + 11 + body@.len() + previous_tag_size@.len(),
{
    write_tag_header(out, tag_header);
    let ghost mid = out@;
    let mut i: usize = 0;
    while i < body.len()
        invariant
            i <= body@.len(),
            out@ == mid + body@.subrange(0, i as int),
        decreases body@.len() - i,
    {
        out.push(body[i]);
        i = i + 1;
        assert(out@ =~= mid + body@.subrange(0, i as int));
    }
    assert(body@.subrange(0, body@.len() as int) =~= body@);
    let ghost mid2 = out@;
    let mut j: usize = 0;
    while j < previous_tag_size.len()
        invariant
            j <= previous_tag_size@.len(),
            out@ == mid2 + previous_tag_size@.subrange(0, j as int),
        decreases previous_tag_size@.len() - j,
    {
        out.push(previous_tag_size[j]);
        j = j + 1;
        assert(out@ =~= mid2 + previous_tag_size@.subrange(0, j as int));
    }
    assert(previous_tag_size@.subrange(0, previous_tag_size@.len() as int) =~= previous_tag_size@);
    assert(final(out)@ =~= old(out)@ + encode_tag(*tag_header, body@, previous_tag_size@));
}

/// Starts a new file in `out`: the canonical 9-byte header (audio and video
/// present) followed by a zero previous-tag-size.
pub fn create_flv_file(out: &mut Vec<u8>)
    ensures
        final(out)@ == old(out)@ + file_prelude(),
{
    let header: [u8; 9] = [0x46, 0x4c, 0x56, 0x01, 0x05, 0x00, 0x00, 0x00, 0x09];
    let mut i: usize = 0;
    while i < 9
        invariant
            i <= 9,
            header@ == flv_header_bytes(),
            out@ == old(out)@ + flv_header_bytes().subrange(0, i as int),
        decreases 9 - i,
    {
        out.push(header[i]);
        i = i + 1;
        assert(out@ =~= old(out)@ + flv_header_bytes().subrange(0, i as int));
    }
    assert(flv_header_bytes().subrange(0, 9) =~= flv_header_bytes());
    write_previous_tag_size(out, 0);
    assert(final(out)@ =~= old(out)@ + file_prelude());
}

/// Writing a tag header and parsing the bytes back gives the same header.
pub proof fn lemma_tag_header_round_trip(h: TagHeader)
    requires
        h.wf(),
    ensures
        encode_tag_header(h).len() == 11,
        decode_tag_header(encode_tag_header(h)) == h,
{
    let b = encode_tag_header(h);
    let ds = h.data_size as int;
    let ts = h.timestamp as int;
    let lo = ts % 16777216;
    let sid = h.stream_id as int;
    assert((ds / 65536) * 65536 + ((ds / 256) % 256) * 256 + ds % 256 == ds) by (nonlinear_arith)
        requires 0 <= ds < 0x100_0000;
    assert((lo / 65536) * 65536 + ((lo / 256) % 256) * 256 + lo % 256 == lo) by (nonlinear_arith)
        requires 0 <= lo < 0x100_0000;
    assert((sid / 65536) * 65536 + ((sid / 256) % 256) * 256 + sid % 256 == sid) by (nonlinear_arith)
        requires 0 <= sid < 0x100_0000;
    assert(lo + (ts / 16777216) * 16777216 == ts) by (nonlinear_arith)
        requires 0 <= ts < 0x1_0000_0000, lo == ts % 16777216;
    assert(decode_tag_header(b) =~= h);
}

/// A tag header with the codec fields of its body, as the stream dump shows it.
#[derive(Debug)]
pub struct FlvTag {
    pub header: TagHeader,
    pub data: TagDataHeader,
}

/// The codec fields of a tag body.
#[derive(Debug)]
#[allow(inconsistent_fields)]
pub enum TagDataHeader {
    Audio {
        sound_format: u8,
        sound_rate: u8,
        sound_size: u8,
        sound_type: u8,
        /// Present for AAC.
        packet_type: Option<AacPacketType>,
    },
    Video {
        frame_type: u8,
        codec_id: u8,
        /// Present for H.264.
        packet_type: Option<AvcPacketType>,
        composition_time: Option<i32>,
    },
    Script(ScriptData),
}

/// What `FlvTag::parse` returns for a body that parses.
pub open spec fn describes(t: FlvTag, header: TagHeader, body: Seq<u8>) -> bool {
    &&& t.header == header
    &&& match header.tag_type {
        TagType::Audio => {
            let a = decode_audio_header(body[0]);
            t.data matches TagDataHeader::Audio { sound_format, sound_rate, sound_size, sound_type, packet_type }
                && sound_format == a.sound_format && sound_rate == a.sound_rate && sound_size == a.sound_size
                && sound_type == a.sound_type
                && packet_type == if a.sound_format == 10 { Some(aac_packet_type_of(body[1])) } else { None }
        },
        TagType::Video => {
            let v = decode_video_header(body[0]);
            t.data matches TagDataHeader::Video { frame_type, codec_id, packet_type, composition_time }
                && frame_type == v.frame_type && codec_id == v.codec_id
                && packet_type == if v.codec_id == 7 { Some(avc_packet_type_of(body[1])) } else { None }
                && composition_time == if v.codec_id == 7 { Some(be_i24(body, 2) as i32) } else { None }
        },
        TagType::Script => t.data matches TagDataHeader::Script(d) && d.name@ == body.subrange(3, 3 + be_u16(body, 1)),
    }
}

impl FlvTag {
    /// Parses a tag body, with the AAC, AVC or script sub-header that it carries.
    pub fn parse(header: TagHeader, body: &[u8]) -> (r: Result<FlvTag, Error>)
        requires
            body@.len() == header.data_size,
        ensures
            r is Ok <==> (TagRec { header, body: body@, trailer: Seq::empty() }).parses(),
            r matches Ok(t) ==> describes(t, header, body@),
    {
        let (payload, data) = map_parse_err(parse_tag_body(header.tag_type, header.data_size as usize, body), ParseStage::TagData)?;
        let data = match data {
            TagData::Audio(a) => {
                let packet_type = if a.sound_format == SOUND_FORMAT_AAC {
                    let (_, h) = map_parse_err(parse_aac_audio_packet_header(payload), ParseStage::AacHeader)?;
                    Some(h.packet_type)
                } else {
                    None
                };
                TagDataHeader::Audio {
                    sound_format: a.sound_format,
                    sound_rate: a.sound_rate,
                    sound_size: a.sound_size,
                    sound_type: a.sound_type,
                    packet_type,
                }
            },
            TagData::Video(v) => {
                let (packet_type, composition_time) = if v.codec_id == CODEC_ID_H264 {
                    let (_, h) = map_parse_err(parse_avc_video_packet_header(payload), ParseStage::AvcHeader)?;
                    (Some(h.packet_type), Some(h.composition_time))
                } else {
                    (None, None)
                };
                TagDataHeader::Video { frame_type: v.frame_type, codec_id: v.codec_id, packet_type, composition_time }
            },
            TagData::Script => {
                assert(payload@ =~= body@);
                let (_, d) = map_parse_err(parse_script_data(payload), ParseStage::ScriptData)?;
                TagDataHeader::Script(d)
            },
        };
        Ok(FlvTag { header, data })
    }
}

} // verus!
