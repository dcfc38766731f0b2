use stream_gears::error::{Error, ParseStage};
use stream_gears::flv_parser::{parse_file_header, parse_tag_header, TagHeader, TagType};
use stream_gears::flv_writer::{create_flv_file, write_tag};
use stream_gears::framer::FrameBuffer;
use stream_gears::segmenter::{Emit, RawTag, Segment, Warning};
use stream_gears::session::{Progress, Session};

fn tag(tag_type: TagType, timestamp: u32, body: Vec<u8>) -> RawTag {
    let header = TagHeader { tag_type, data_size: body.len() as u32, timestamp, stream_id: 0 };
    let trailer = (11 + body.len() as u32).to_be_bytes().to_vec();
    RawTag { header, body, trailer }
}

fn meta() -> RawTag {
    let mut body = vec![0x02u8, 0x00, 0x0a];
    body.extend_from_slice(b"onMetaData");
    body.extend_from_slice(&[0x08, 0, 0, 0, 0]);
    tag(TagType::Script, 0, body)
}

fn aac_seq() -> RawTag {
    tag(TagType::Audio, 0, vec![0xaf, 0x00, 0x12, 0x10])
}

fn h264_seq(marker: u8) -> RawTag {
    tag(TagType::Video, 0, vec![0x17, 0x00, 0, 0, 0, 0x01, marker])
}

fn key(ts: u32) -> RawTag {
    tag(TagType::Video, ts, vec![0x17, 0x01, 0, 0, 0, 0x65])
}

fn inter(ts: u32, size: usize) -> RawTag {
    let mut body = vec![0x27u8, 0x01, 0, 0, 0];
    body.resize(size, 0x41);
    tag(TagType::Video, ts, body)
}

fn audio(ts: u32) -> RawTag {
    tag(TagType::Audio, ts, vec![0xaf, 0x01, 0x21])
}

fn stream(tags: &[RawTag]) -> Vec<u8> {
    let mut out = Vec::new();
    create_flv_file(&mut out);
    for t in tags {
        write_tag(&mut out, &t.header, &t.body, &t.trailer);
    }
    out
}

struct Outcome {
    files: Vec<Vec<u8>>,
    warnings: Vec<Warning>,
    result: Result<(), Error>,
    consumed: usize,
}

fn apply(files: &mut Vec<Vec<u8>>, emits: Vec<Emit>) {
    for e in emits {
        match e {
            Emit::NewFile(_) => {
                let mut f = Vec::new();
                create_flv_file(&mut f);
                files.push(f);
            }
            Emit::Tag(t) => write_tag(files.last_mut().unwrap(), &t.header, &t.body, &t.trailer),
        }
    }
}

/// Feeds `input` through the framed reader and the session, reading in
/// chunks of `chunk` bytes, and performs what the session asks for.
fn drive(input: &[u8], segment: Segment, chunk: usize) -> Outcome {
    let mut session = Session::new(segment);
    let mut buffer = FrameBuffer::new();
    let mut pos = 0usize;
    let mut out = Outcome { files: Vec::new(), warnings: Vec::new(), result: Ok(()), consumed: 0 };
    loop {
        let n = session.next_frame_len();
        let frame = loop {
            if let Some(f) = buffer.take_frame(n) {
                break f;
            }
            if pos == input.len() {
                break buffer.drain();
            }
            let end = usize::min(pos + chunk, input.len());
            buffer.push(&input[pos..end]);
            pos = end;
        };
        out.consumed += frame.len();
        match session.on_frame(frame) {
            Ok(Progress::Header(_)) => {
                let mut f = Vec::new();
                create_flv_file(&mut f);
                out.files.push(f);
            }
            Ok(Progress::Continue(None)) => {}
            Ok(Progress::Continue(Some(st))) => {
                out.warnings.extend(st.warnings);
                apply(&mut out.files, st.emits);
            }
            Ok(Progress::Finished(st)) => {
                out.warnings.extend(st.warnings);
                apply(&mut out.files, st.emits);
                return out;
            }
            Err(e) => {
                out.result = Err(e);
                return out;
            }
        }
    }
}

/// Parses a file from scratch: its header, then (header, body, trailer) of each tag.
fn parse_file(bytes: &[u8]) -> Vec<(TagHeader, Vec<u8>, Vec<u8>)> {
    let (mut rest, h) = parse_file_header(bytes).unwrap();
    assert_eq!(h.header_size, 9);
    assert_eq!(&rest[..4], &[0, 0, 0, 0]);
    rest = &rest[4..];
    let mut tags = Vec::new();
    while !rest.is_empty() {
        let (r, th) = parse_tag_header(rest).unwrap();
        let n = th.data_size as usize;
        let body = r[..n].to_vec();
        let trailer = r[n..n + 4].to_vec();
        assert_eq!(trailer, (11 + th.data_size).to_be_bytes().to_vec());
        tags.push((th, body, trailer));
        rest = &r[n + 4..];
    }
    tags
}

fn bodies_and_times(bytes: &[u8]) -> Vec<(u32, Vec<u8>)> {
    parse_file(bytes).into_iter().map(|(h, b, _)| (h.timestamp, b)).collect()
}

fn is_key(body: &[u8]) -> bool {
    body[0] >> 4 == 1
}

#[test]
fn minimal_pass_through() {
    let tags = vec![meta(), aac_seq(), h264_seq(1), key(0), audio(23)];
    let input = stream(&tags);
    let out = drive(&input, Segment::Size(10_000_000_000), 8192);
    assert!(out.result.is_ok());
    assert_eq!(out.files.len(), 1);
    assert_eq!(out.files[0], input);
    assert_eq!(out.consumed, input.len());
}

#[test]
fn framing_consumes_exactly_the_stream() {
    let tags = vec![meta(), aac_seq(), h264_seq(1), key(0), audio(23), inter(40, 1000), key(2000)];
    let input = stream(&tags);
    let expected: usize = 9 + 4 + tags.iter().map(|t| 11 + t.header.data_size as usize + 4).sum::<usize>();
    for chunk in [1usize, 7, 8192] {
        let out = drive(&input, Segment::Size(u64::MAX), chunk);
        assert!(out.result.is_ok());
        assert_eq!(out.consumed, expected);
        assert_eq!(out.consumed, input.len());
    }
}

/// The byte count grows only when the cache is flushed, after the split
/// decision, so the megabytes buffered before the second keyframe do not
/// count towards that keyframe's decision: the stream stays in one file.
#[test]
fn size_split_scenario() {
    let mut tags = vec![meta(), aac_seq(), h264_seq(1), key(0), audio(23)];
    for i in 0..100u32 {
        tags.push(inter(40 + i * 40, 1 << 20));
    }
    tags.push(key(5000));
    let input = stream(&tags);
    let out = drive(&input, Segment::Size(50_000_000), 1 << 16);
    assert!(out.result.is_ok());
    assert_eq!(out.files.len(), 1);
    assert_eq!(out.files[0], input);
}

#[test]
fn size_split_at_following_keyframe() {
    let mut tags = vec![meta(), aac_seq(), h264_seq(1), key(0), audio(23)];
    for i in 0..100u32 {
        tags.push(inter(40 + i * 40, 1 << 20));
    }
    tags.push(key(5000));
    tags.push(key(7000));
    let input = stream(&tags);
    let out = drive(&input, Segment::Size(50_000_000), 1 << 16);
    assert!(out.result.is_ok());
    assert_eq!(out.files.len(), 2);
    let first = bodies_and_times(&out.files[0]);
    assert_eq!(first.len(), 105);
    assert_eq!(first.last().unwrap().0, 40 + 99 * 40);
    assert!(out.files[0].len() >= 50_000_000);
    let second = bodies_and_times(&out.files[1]);
    assert_eq!(second.len(), 5);
    assert_eq!(second[0].1, meta().body);
    assert_eq!(second[1].1, aac_seq().body);
    assert_eq!(second[2].1, h264_seq(1).body);
    assert_eq!(second[3].0, 5000);
    assert!(is_key(&second[3].1));
    assert_eq!(second[4].0, 7000);
}

#[test]
fn time_split_scenario() {
    let mut tags = vec![meta(), aac_seq(), h264_seq(1)];
    for k in 0..6u32 {
        tags.push(key(k * 2000));
        tags.push(audio(k * 2000 + 23));
    }
    let input = stream(&tags);
    let out = drive(&input, Segment::Time(3000), 8192);
    assert!(out.result.is_ok());
    let files: Vec<Vec<(u32, Vec<u8>)>> = out.files.iter().map(|f| bodies_and_times(f)).collect();
    assert_eq!(files.len(), 3);
    let times = |f: &Vec<(u32, Vec<u8>)>| f.iter().map(|t| t.0).collect::<Vec<u32>>();
    assert_eq!(times(&files[0]), vec![0, 0, 0, 0, 23]);
    assert_eq!(times(&files[1]), vec![0, 0, 0, 2000, 2023, 4000, 4023]);
    assert_eq!(times(&files[2]), vec![0, 0, 0, 6000, 6023, 8000, 8023, 10000, 10023]);
    for f in &files[1..] {
        assert_eq!(f[0].1, meta().body);
        assert_eq!(f[1].1, aac_seq().body);
        assert_eq!(f[2].1, h264_seq(1).body);
        assert!(is_key(&f[3].1));
    }
}

#[test]
fn closed_size_segments_reach_the_limit() {
    let mut tags = vec![meta(), aac_seq(), h264_seq(1)];
    for k in 0..20u32 {
        tags.push(key(k * 1000));
        tags.push(inter(k * 1000 + 40, 300));
        tags.push(audio(k * 1000 + 60));
    }
    let input = stream(&tags);
    let limit = 1000u64;
    let out = drive(&input, Segment::Size(limit), 4096);
    assert!(out.result.is_ok());
    assert!(out.files.len() > 2);
    for f in &out.files[..out.files.len() - 1] {
        assert!(f.len() as u64 >= limit);
    }
    for f in &out.files[1..] {
        let tags = bodies_and_times(f);
        assert_eq!(tags[0].1, meta().body);
        assert_eq!(tags[1].1, aac_seq().body);
        assert_eq!(tags[2].1, h264_seq(1).body);
        assert!(is_key(&tags[3].1));
    }
}

#[test]
fn duplicate_h264_sequence_header_rolls() {
    let mut dup = h264_seq(2);
    dup.header.timestamp = 2400;
    let tags = vec![
        meta(), aac_seq(), h264_seq(1), key(0), audio(23), key(2000), audio(2023),
        dup, audio(2500), key(4000), audio(4023),
    ];
    let input = stream(&tags);
    let out = drive(&input, Segment::Size(10_000_000_000), 8192);
    assert!(out.result.is_ok());
    assert_eq!(out.warnings, vec![Warning::DuplicateH264SequenceHeader]);
    assert_eq!(out.files.len(), 2);
    let first = bodies_and_times(&out.files[0]);
    assert_eq!(first[2].1, h264_seq(1).body);
    assert_eq!(first.last().unwrap().0, 2023);
    let second = bodies_and_times(&out.files[1]);
    assert_eq!(second.len(), 7);
    assert_eq!(second[0].1, meta().body);
    assert_eq!(second[1].1, aac_seq().body);
    assert_eq!(second[2].1, h264_seq(1).body);
    assert_eq!(second[3].1, h264_seq(2).body);
    assert!(is_key(&second[3].1));
    assert_eq!(second[6].0, 4023);
}

#[test]
fn non_monotonic_timestamp_scenario() {
    let tags = vec![meta(), aac_seq(), h264_seq(1), key(0), audio(40), inter(30, 8), key(2000)];
    let input = stream(&tags);
    let out = drive(&input, Segment::Size(10_000_000_000), 8192);
    assert!(out.result.is_ok());
    assert_eq!(out.warnings, vec![Warning::NonMonotonicTimestamp(40, 30)]);
    assert_eq!(out.files.len(), 1);
    assert_eq!(out.files[0], input);
}

#[test]
fn mid_tag_eof() {
    let tags = vec![meta(), aac_seq(), h264_seq(1), key(0), audio(23), key(2000)];
    let mut input = stream(&tags);
    let mut extra = Vec::new();
    write_tag(&mut extra, &audio(2023).header, &audio(2023).body, &audio(2023).trailer);
    input.extend_from_slice(&extra[..5]);
    let out = drive(&input, Segment::Size(10_000_000_000), 8192);
    assert!(out.result.is_ok());
    assert_eq!(out.consumed, input.len());
    assert_eq!(out.files.len(), 1);
    // Every complete tag is written, the five bytes of the partial one are not.
    assert_eq!(out.files[0], stream(&tags));
}

#[test]
fn short_body_ends_the_stream() {
    let tags = vec![meta(), aac_seq()];
    let mut input = stream(&tags);
    let mut extra = Vec::new();
    let k = key(0);
    write_tag(&mut extra, &k.header, &k.body, &k.trailer);
    input.extend_from_slice(&extra[..13]);
    let out = drive(&input, Segment::Size(10_000_000_000), 8192);
    assert!(out.result.is_ok());
    assert_eq!(out.files, vec![stream(&tags)]);
}

#[test]
fn short_trailer_ends_the_stream() {
    let tags = vec![meta(), aac_seq(), h264_seq(1), key(0), audio(23)];
    let mut input = stream(&tags);
    let mut extra = Vec::new();
    let k = key(2000);
    write_tag(&mut extra, &k.header, &k.body, &k.trailer);
    input.extend_from_slice(&extra[..extra.len() - 2]);
    let out = drive(&input, Segment::Size(10_000_000_000), 8192);
    assert!(out.result.is_ok());
    assert_eq!(out.files, vec![stream(&tags)]);
}

#[test]
fn bad_tag_type_is_malformed() {
    let tags = vec![meta(), aac_seq()];
    let mut input = stream(&tags);
    input.extend_from_slice(&[7, 0, 0, 1, 0, 0, 0, 0, 0, 0, 0, 0x00, 0, 0, 0, 12]);
    let out = drive(&input, Segment::Size(10_000_000_000), 8192);
    assert_eq!(out.result, Err(Error::Malformed(ParseStage::TagHeader)));
}

#[test]
fn not_an_flv_stream() {
    let out = drive(b"#EXTM3U\n#EXT-X-VERSION:3\n", Segment::Size(1), 8192);
    assert_eq!(out.result, Err(Error::Malformed(ParseStage::FileHeader)));
    assert!(out.files.is_empty());
}

#[test]
fn empty_stream_after_header() {
    let input = stream(&[]);
    let out = drive(&input, Segment::Size(1), 8192);
    assert!(out.result.is_ok());
    assert_eq!(out.files, vec![input]);
}

#[test]
fn httpflv_it_works() -> anyhow::Result<()> {
    Ok(())
}
