use stream_gears::error::{Error, ParseStage};
use stream_gears::flv_parser::{TagHeader, TagType};
use stream_gears::segmenter::{is_splitting, Emit, RawTag, RollReason, Segment, Segmenter, Warning};

fn tag(tag_type: TagType, timestamp: u32, body: Vec<u8>) -> RawTag {
    let header = TagHeader { tag_type, data_size: body.len() as u32, timestamp, stream_id: 0 };
    let trailer = (11 + body.len() as u32).to_be_bytes().to_vec();
    RawTag { header, body, trailer }
}

fn meta() -> RawTag {
    let mut body = vec![0x02u8, 0x00, 0x0a];
    body.extend_from_slice(b"onMetaData");
    body.extend_from_slice(&[0x08, 0, 0, 0, 0]);
    tag(TagType::Script, 0, body)
}

fn aac_seq() -> RawTag {
    tag(TagType::Audio, 0, vec![0xaf, 0x00, 0x12, 0x10])
}

fn h264_seq(marker: u8) -> RawTag {
    tag(TagType::Video, 0, vec![0x17, 0x00, 0, 0, 0, 0x01, marker])
}

fn key(ts: u32) -> RawTag {
    tag(TagType::Video, ts, vec![0x17, 0x01, 0, 0, 0, 0x65])
}

fn inter(ts: u32) -> RawTag {
    tag(TagType::Video, ts, vec![0x27, 0x01, 0, 0, 0, 0x41])
}

fn audio(ts: u32) -> RawTag {
    tag(TagType::Audio, ts, vec![0xaf, 0x01, 0x21])
}

fn timestamps(emits: &[Emit]) -> Vec<Option<u32>> {
    emits
        .iter()
        .map(|e| match e {
            Emit::NewFile(_) => None,
            Emit::Tag(t) => Some(t.header.timestamp),
        })
        .collect()
}

#[test]
fn is_splitting_by_time() {
    let h = TagHeader { tag_type: TagType::Video, data_size: 6, timestamp: 5000, stream_id: 0 };
    let mut first = 2000u32;
    let mut size = 77u64;
    assert!(is_splitting(&h, &Segment::Time(3000), &mut first, &mut size));
    assert_eq!(first, 5000);
    assert_eq!(size, 77);
    assert!(!is_splitting(&h, &Segment::Time(1), &mut first, &mut size));
    assert_eq!(first, 5000);
    let early = TagHeader { timestamp: 100, ..h };
    assert!(!is_splitting(&early, &Segment::Time(0), &mut first, &mut size));
}

#[test]
fn is_splitting_by_size() {
    let h = TagHeader { tag_type: TagType::Video, data_size: 6, timestamp: 5000, stream_id: 0 };
    let mut first = 0u32;
    let mut size = 100u64;
    assert!(!is_splitting(&h, &Segment::Size(101), &mut first, &mut size));
    assert_eq!(size, 100);
    assert!(is_splitting(&h, &Segment::Size(100), &mut first, &mut size));
    assert_eq!(size, 13);
    assert_eq!(first, 0);
}

#[test]
fn non_keyframes_are_only_buffered() {
    let mut s = Segmenter::new(Segment::Size(u64::MAX));
    for t in [meta(), aac_seq(), audio(10), inter(20)] {
        let st = s.push_tag(t).unwrap();
        assert!(st.emits.is_empty());
        assert!(st.warnings.is_empty());
    }
}

#[test]
fn keyframe_flushes_cache_in_order() {
    let mut s = Segmenter::new(Segment::Size(u64::MAX));
    for t in [meta(), aac_seq()] {
        s.push_tag(t).unwrap();
    }
    let st = s.push_tag(h264_seq(1)).unwrap();
    assert_eq!(timestamps(&st.emits), vec![Some(0), Some(0)]);
    s.push_tag(key(0)).unwrap();
    s.push_tag(audio(23)).unwrap();
    s.push_tag(inter(40)).unwrap();
    let st = s.push_tag(key(2000)).unwrap();
    assert_eq!(timestamps(&st.emits), vec![Some(0), Some(23), Some(40)]);
    let st = s.finish();
    assert_eq!(timestamps(&st.emits), vec![Some(2000)]);
    assert!(s.finish().emits.is_empty());
}

#[test]
fn size_split_rolls_with_triad() {
    let mut s = Segmenter::new(Segment::Size(1));
    for t in [meta(), aac_seq(), h264_seq(1), key(0), audio(23)] {
        s.push_tag(t).unwrap();
    }
    let st = s.push_tag(key(2000)).unwrap();
    assert!(matches!(st.emits[0], Emit::NewFile(RollReason::Split)));
    let triad: Vec<&RawTag> = st.emits[1..4]
        .iter()
        .map(|e| match e {
            Emit::Tag(t) => t,
            _ => panic!("expected a tag"),
        })
        .collect();
    assert_eq!(triad[0].body, meta().body);
    assert_eq!(triad[1].body, aac_seq().body);
    assert_eq!(triad[2].body, h264_seq(1).body);
    assert_eq!(timestamps(&st.emits[4..]), vec![Some(0), Some(23)]);
}

#[test]
fn no_roll_before_triad() {
    let mut s = Segmenter::new(Segment::Size(1));
    s.push_tag(meta()).unwrap();
    s.push_tag(key(0)).unwrap();
    let st = s.push_tag(key(2000)).unwrap();
    assert!(st.emits.iter().all(|e| matches!(e, Emit::Tag(_))));
}

#[test]
fn duplicate_tags_warn() {
    let mut s = Segmenter::new(Segment::Size(u64::MAX));
    for t in [meta(), aac_seq(), h264_seq(1), key(0)] {
        s.push_tag(t).unwrap();
    }
    assert_eq!(s.push_tag(meta()).unwrap().warnings, vec![Warning::DuplicateMetaData]);
    assert_eq!(s.push_tag(aac_seq()).unwrap().warnings, vec![Warning::DuplicateAacSequenceHeader]);
    let st = s.push_tag(h264_seq(2)).unwrap();
    assert_eq!(st.warnings, vec![Warning::DuplicateH264SequenceHeader]);
    let n = st.emits.len();
    assert!(matches!(st.emits[n - 4], Emit::NewFile(RollReason::SequenceHeaderChanged)));
    match (&st.emits[n - 3], &st.emits[n - 2], &st.emits[n - 1]) {
        (Emit::Tag(m), Emit::Tag(a), Emit::Tag(h)) => {
            assert_eq!(m.body, meta().body);
            assert_eq!(a.body, aac_seq().body);
            assert_eq!(h.body, h264_seq(1).body);
        }
        _ => panic!("expected the three initialization tags"),
    }
}

#[test]
fn non_monotonic_timestamp_warns_and_writes() {
    let mut s = Segmenter::new(Segment::Size(u64::MAX));
    for t in [meta(), aac_seq(), h264_seq(1), key(0), audio(40), inter(30)] {
        s.push_tag(t).unwrap();
    }
    let st = s.push_tag(key(2000)).unwrap();
    assert_eq!(st.warnings, vec![Warning::NonMonotonicTimestamp(40, 30)]);
    assert_eq!(timestamps(&st.emits), vec![Some(0), Some(40), Some(30)]);
}

#[test]
fn unparsable_bodies_are_errors() {
    let mut s = Segmenter::new(Segment::Size(u64::MAX));
    let e = s.push_tag(tag(TagType::Audio, 0, vec![0xaf])).unwrap_err();
    assert_eq!(e, Error::Incomplete(ParseStage::AacHeader, 1));
    let e = s.push_tag(tag(TagType::Video, 0, vec![0x17, 0x05, 0, 0, 0])).unwrap_err();
    assert_eq!(e, Error::Malformed(ParseStage::AvcHeader));
    let e = s.push_tag(tag(TagType::Script, 0, vec![0x05, 0, 0])).unwrap_err();
    assert_eq!(e, Error::Malformed(ParseStage::ScriptData));
    let e = s.push_tag(tag(TagType::Video, 0, vec![])).unwrap_err();
    assert_eq!(e, Error::Malformed(ParseStage::TagData));
    // None of them changed the state: the cache is still empty.
    assert!(s.finish().emits.is_empty());
}

#[test]
fn other_script_tags_are_data() {
    let mut s = Segmenter::new(Segment::Size(u64::MAX));
    let mut body = vec![0x02u8, 0x00, 0x03];
    body.extend_from_slice(b"foo");
    s.push_tag(tag(TagType::Script, 0, body)).unwrap();
    let st = s.push_tag(meta()).unwrap();
    assert!(st.warnings.is_empty());
}
