use vstd::prelude::*;
use vstd::slice::slice_to_vec;
use crate::error::Error;
use crate::flv_parser::{TagHeader, TagType, AacPacketType, AvcPacketType, be_u16, FRAME_TYPE_KEY};
use crate::flv_writer::{FlvTag, TagDataHeader};

verus! {

/// How the stream is cut into files: after a span of media time, or after a
/// number of bytes.
#[derive(Clone, Copy, Debug, PartialEq, Eq, Structural)]
pub enum Segment {
    /// Milliseconds of media time per file.
    Time(u64),
    /// Bytes per file.
    Size(u64),
}

/// A tag as read from the wire: parsed header, raw body, raw trailer.
#[derive(Debug)]
pub struct RawTag {
    pub header: TagHeader,
    pub body: Vec<u8>,
    pub trailer: Vec<u8>,
}

/// Mathematical value of a tag.
pub struct TagRec {
    pub header: TagHeader,
    pub body: Seq<u8>,
    pub trailer: Seq<u8>,
}

impl View for RawTag {
    type V = TagRec;

    open spec fn view(&self) -> TagRec {
        TagRec { header: self.header, body: self.body@, trailer: self.trailer@ }
    }
}

impl TagRec {
    /// Framing as read: the body holds `data_size` bytes and the trailer four.
    pub open spec fn wf(&self) -> bool {
        self.header.wf() && self.body.len() == self.header.data_size && self.trailer.len() == 4
    }

    /// Bytes that the tag occupies in a file.
    pub open spec fn size(&self) -> int {
        11 + self.header.data_size + 4
    }

    /// The body parses as the kind of tag that the header announces, codec
    /// sub-headers included.
    pub open spec fn parses(&self) -> bool {
        let b = self.body;
        match self.header.tag_type {
            TagType::Audio => b.len() >= 1 && (b[0] / 16 == 10 ==> b.len() >= 2 && b[1] <= 1),
            TagType::Video => b.len() >= 1 && (b[0] % 16 == 7 ==> b.len() >= 5 && b[1] <= 2),
            TagType::Script => b.len() >= 3 && b[0] == 2 && b.len() >= 3 + be_u16(b, 1),
        }
    }

    /// A script tag named `onMetaData`.
    pub open spec fn is_meta(&self) -> bool {
        self.header.tag_type == TagType::Script
            && self.body.subrange(3, 3 + be_u16(self.body, 1)) == on_meta_data_name()
    }

    /// An AAC sequence header.
    pub open spec fn is_aac_seq(&self) -> bool {
        self.header.tag_type == TagType::Audio && self.body[0] / 16 == 10 && self.body[1] == 0
    }

    /// An H.264 sequence header.
    pub open spec fn is_h264_seq(&self) -> bool {
        self.header.tag_type == TagType::Video && self.body[0] % 16 == 7 && self.body[1] == 0
    }

    /// A video tag whose frame type is a keyframe.
    pub open spec fn is_key(&self) -> bool {
        self.header.tag_type == TagType::Video && self.body.len() >= 1 && self.body[0] / 16 == 1
    }
}

impl RawTag {
    pub open spec fn wf(&self) -> bool {
        self@.wf()
    }

    /// A copy with the same header and bytes.
    pub fn copy(&self) -> (r: RawTag)
        ensures
            r@ == self@,
    {
        RawTag {
            header: self.header,
            body: slice_to_vec(self.body.as_slice()),
            trailer: slice_to_vec(self.trailer.as_slice()),
        }
    }
}

/// The bytes of the name `onMetaData`.
pub open spec fn on_meta_data_name() -> Seq<u8> {
    seq![0x6fu8, 0x6eu8, 0x4du8, 0x65u8, 0x74u8, 0x61u8, 0x44u8, 0x61u8, 0x74u8, 0x61u8]
}

fn is_on_meta_data(name: &Vec<u8>) -> (r: bool)
    ensures
        r == (name@ == on_meta_data_name()),
{
    let expected: [u8; 10] = [0x6f, 0x6e, 0x4d, 0x65, 0x74, 0x61, 0x44, 0x61, 0x74, 0x61];
    if name.len() != 10 {
        return false;
    }
    let mut i: usize = 0;
    while i < 10
        invariant
            i <= 10,
            name@.len() == 10,
            expected@ == on_meta_data_name(),
            forall|k: int| 0 <= k < i ==> name@[k] == on_meta_data_name()[k],
        decreases 10 - i,
    {
        if name[i] != expected[i] {
            return false;
        }
        i = i + 1;
    }
    assert(name@ =~= on_meta_data_name());
    true
}

/// What the segmenter learned from a tag body.
struct TagClass {
    meta: bool,
    aac_seq: bool,
    h264_seq: bool,
    key: bool,
}

/// Parses a tag's body far enough to tell whether it is one of the
/// initialization tags or a keyframe.
fn classify(tag: &RawTag) -> (r: Result<TagClass, Error>)
    requires
        tag.wf(),
    ensures
        r is Ok <==> tag@.parses(),
        r matches Ok(c) ==> c.meta == tag@.is_meta() && c.aac_seq == tag@.is_aac_seq()
            && c.h264_seq == tag@.is_h264_seq() && c.key == tag@.is_key(),
{
    let t = FlvTag::parse(tag.header, tag.body.as_slice())?;
    assert((TagRec { header: tag.header, body: tag.body@, trailer: Seq::empty() }).parses() == tag@.parses());
    match t.data {
        TagDataHeader::Audio { packet_type, .. } => {
            let aac_seq = match packet_type {
                Some(AacPacketType::SequenceHeader) => true,
                _ => false,
            };
            Ok(TagClass { meta: false, aac_seq, h264_seq: false, key: false })
        },
        TagDataHeader::Video { frame_type, packet_type, .. } => {
            let h264_seq = match packet_type {
                Some(AvcPacketType::SequenceHeader) => true,
                _ => false,
            };
            Ok(TagClass { meta: false, aac_seq: false, h264_seq, key: frame_type == FRAME_TYPE_KEY })
        },
        TagDataHeader::Script(d) => {
            Ok(TagClass { meta: is_on_meta_data(&d.name), aac_seq: false, h264_seq: false, key: false })
        },
    }
}

/// Why the segmenter opened a new file.
#[derive(Clone, Copy, Debug, PartialEq, Eq, Structural)]
pub enum RollReason {
    /// The split predicate held at a keyframe.
    Split,
    /// A second H.264 sequence header arrived.
    SequenceHeaderChanged,
}

/// One instruction for the writer side.
#[derive(Debug)]
pub enum Emit {
    /// Close the current file and start a new one (file header and a zero trailer).
    NewFile(RollReason),
    /// Append this tag, verbatim, to the current file.
    Tag(RawTag),
}

/// Mathematical value of an [`Emit`].
pub enum EmitRec {
    NewFile(RollReason),
    Tag(TagRec),
}

impl View for Emit {
    type V = EmitRec;

    open spec fn view(&self) -> EmitRec {
        match self {
            Emit::NewFile(r) => EmitRec::NewFile(*r),
            Emit::Tag(t) => EmitRec::Tag(t@),
        }
    }
}

/// Anomalies that are reported and otherwise tolerated.
#[derive(Clone, Copy, Debug, PartialEq, Eq, Structural)]
pub enum Warning {
    DuplicateMetaData,
    DuplicateAacSequenceHeader,
    DuplicateH264SequenceHeader,
    /// A tag written with a timestamp below its predecessor's (previous, current).
    NonMonotonicTimestamp(u32, u32),
}

/// Mathematical state of the segmenter.
pub struct SegState {
    pub segment: Segment,
    pub on_meta_data: Option<TagRec>,
    pub aac_sequence_header: Option<TagRec>,
    pub h264_sequence_header: Option<TagRec>,
    pub cache: Seq<TagRec>,
    pub first_tag_time: u32,
    pub time_origin_set: bool,
    pub downloaded_size: u64,
    pub prev_timestamp: u32,
    pub create_new: bool,
}

/// Bytes of the file header and the zero trailer after it.
pub const FILE_PRELUDE_SIZE: u64 = 13;

/// The state before the first tag.
pub open spec fn initial_state(segment: Segment) -> SegState {
    SegState {
        segment,
        on_meta_data: None,
        aac_sequence_header: None,
        h264_sequence_header: None,
        cache: Seq::empty(),
        first_tag_time: 0,
        time_origin_set: false,
        downloaded_size: FILE_PRELUDE_SIZE,
        prev_timestamp: 0,
        create_new: false,
    }
}

/// Keeps the first tag that hits a slot.
pub open spec fn capture(slot: Option<TagRec>, hit: bool, t: TagRec) -> Option<TagRec> {
    if hit && slot is None { Some(t) } else { slot }
}

/// The split predicate, evaluated at a keyframe with timestamp `ts`.
pub open spec fn split_due(segment: Segment, ts: u32, first_tag_time: u32, downloaded_size: u64) -> bool {
    match segment {
        Segment::Time(d) => ts as int - first_tag_time as int >= d as int,
        Segment::Size(b) => downloaded_size >= b,
    }
}

/// `downloaded_size` after writing `tags`, saturating at the top of `u64`.
pub open spec fn add_sizes(ds: u64, tags: Seq<TagRec>) -> u64
    decreases tags.len(),
{
    if tags.len() == 0 {
        ds
    } else {
        let p = add_sizes(ds, tags.drop_last());
        if p + tags.last().size() > u64::MAX { u64::MAX } else { (p + tags.last().size()) as u64 }
    }
}

/// Timestamp of the last tag written, `prev` when `tags` is empty.
pub open spec fn last_timestamp(prev: u32, tags: Seq<TagRec>) -> u32 {
    if tags.len() == 0 { prev } else { tags.last().header.timestamp }
}

/// One warning for each tag of `tags` written with a timestamp below its predecessor's.
pub open spec fn order_warnings(prev: u32, tags: Seq<TagRec>) -> Seq<Warning>
    decreases tags.len(),
{
    if tags.len() == 0 {
        Seq::empty()
    } else {
        let w = order_warnings(prev, tags.drop_last());
        let p = last_timestamp(prev, tags.drop_last());
        if tags.last().header.timestamp < p {
            w.push(Warning::NonMonotonicTimestamp(p, tags.last().header.timestamp))
        } else {
            w
        }
    }
}

pub open spec fn tag_emits(tags: Seq<TagRec>) -> Seq<EmitRec> {
    tags.map_values(|t: TagRec| EmitRec::Tag(t))
}

pub open spec fn duplicate_warnings(s: SegState, t: TagRec) -> Seq<Warning> {
    (if t.is_meta() && s.on_meta_data is Some { seq![Warning::DuplicateMetaData] } else { Seq::empty() })
    + (if t.is_aac_seq() && s.aac_sequence_header is Some { seq![Warning::DuplicateAacSequenceHeader] } else { Seq::empty() })
    + (if t.is_h264_seq() && s.h264_sequence_header is Some { seq![Warning::DuplicateH264SequenceHeader] } else { Seq::empty() })
}

/// The state after a tag's initialization slots and new-file flag are updated.
pub open spec fn after_capture(s: SegState, t: TagRec) -> SegState {
    SegState {
        on_meta_data: capture(s.on_meta_data, t.is_meta(), t),
        aac_sequence_header: capture(s.aac_sequence_header, t.is_aac_seq(), t),
        h264_sequence_header: capture(s.h264_sequence_header, t.is_h264_seq(), t),
        create_new: s.create_new || (t.is_h264_seq() && s.h264_sequence_header is Some),
        ..s
    }
}

/// A roll may happen: the three initialization tags are held and the cache
/// starts at a keyframe.
pub open spec fn can_roll(s: SegState) -> bool {
    s.on_meta_data is Some && s.aac_sequence_header is Some && s.h264_sequence_header is Some
        && s.cache.len() > 0 && s.cache[0].is_key()
}

/// The time origin in force at a keyframe with timestamp `ts`.
pub open spec fn time_origin(s: SegState, ts: u32) -> u32 {
    if s.time_origin_set { s.first_tag_time } else { ts }
}

/// Whether the keyframe `t` rolls to a new file before the cache is flushed.
pub open spec fn splits_at(s: SegState, t: TagRec) -> bool {
    let c = after_capture(s, t);
    can_roll(c) && split_due(c.segment, t.header.timestamp, time_origin(c, t.header.timestamp), c.downloaded_size)
}

/// Whether the keyframe `t` rolls to a new file after the cache is flushed,
/// because the H.264 sequence header changed.
pub open spec fn forced_at(s: SegState, t: TagRec) -> bool {
    let c = after_capture(s, t);
    c.create_new && c.on_meta_data is Some && c.aac_sequence_header is Some && c.h264_sequence_header is Some
}

/// What a keyframe's split writes: a new file and the three initialization tags.
pub open spec fn split_emits(c: SegState) -> Seq<EmitRec> {
    seq![EmitRec::NewFile(RollReason::Split), EmitRec::Tag(c.on_meta_data.unwrap()),
        EmitRec::Tag(c.aac_sequence_header.unwrap()), EmitRec::Tag(c.h264_sequence_header.unwrap())]
}

/// What a forced roll writes: a new file and the three initialization tags
/// first captured (the H.264 sequence header is the original, not the one
/// that arrived again).
pub open spec fn forced_emits(c: SegState) -> Seq<EmitRec> {
    seq![EmitRec::NewFile(RollReason::SequenceHeaderChanged), EmitRec::Tag(c.on_meta_data.unwrap()),
        EmitRec::Tag(c.aac_sequence_header.unwrap()), EmitRec::Tag(c.h264_sequence_header.unwrap())]
}

/// The effect of one tag: next state, what is written, what is reported.
pub open spec fn step(s: SegState, t: TagRec) -> (SegState, Seq<EmitRec>, Seq<Warning>) {
    let c = after_capture(s, t);
    let w = duplicate_warnings(s, t);
    if !t.is_key() {
        (SegState { cache: s.cache.push(t), ..c }, Seq::empty(), w)
    } else {
        let ts = t.header.timestamp;
        let split = splits_at(s, t);
        let origin = time_origin(c, ts);
        let first_tag_time = if split && c.segment is Time { ts } else { origin };
        let size0 = if split && c.segment is Size { FILE_PRELUDE_SIZE } else { c.downloaded_size };
        let forced = forced_at(s, t);
        let e1 = if split { split_emits(c) } else { Seq::empty() };
        let e3 = if forced { forced_emits(c) } else { Seq::empty() };
        (SegState {
            cache: seq![t],
            first_tag_time,
            time_origin_set: true,
            downloaded_size: add_sizes(size0, s.cache),
            prev_timestamp: last_timestamp(s.prev_timestamp, s.cache),
            create_new: c.create_new && !forced,
            ..c
        }, e1 + tag_emits(s.cache) + e3, w + order_warnings(s.prev_timestamp, s.cache))
    }
}

/// Decides, at a keyframe with the given header, whether the current file is
/// complete; on a split it moves the time origin or resets the byte count.
pub fn is_splitting(flv_tag: &TagHeader, segment: &Segment, first_tag_time: &mut u32, downloaded_size: &mut u64) -> (r: bool)
    ensures
        r == split_due(*segment, flv_tag.timestamp, *old(first_tag_time), *old(downloaded_size)),
        *final(first_tag_time) == if r && segment is Time { flv_tag.timestamp } else { *old(first_tag_time) },
        *final(downloaded_size) == if r && segment is Size { FILE_PRELUDE_SIZE } else { *old(downloaded_size) },
{
    match segment {
        Segment::Time(duration) => {
            if flv_tag.timestamp >= *first_tag_time && (flv_tag.timestamp - *first_tag_time) as u64 >= *duration {
                *first_tag_time = flv_tag.timestamp;
                true
            } else {
                false
            }
        },
        Segment::Size(file_size) => {
            if *downloaded_size >= *file_size {
                *downloaded_size = FILE_PRELUDE_SIZE;
                true
            } else {
                false
            }
        },
    }
}

pub open spec fn tag_recs(v: Seq<RawTag>) -> Seq<TagRec> {
    v.map_values(|t: RawTag| t@)
}

pub open spec fn emit_recs(v: Seq<Emit>) -> Seq<EmitRec> {
    v.map_values(|e: Emit| e@)
}

pub open spec fn opt_rec(o: Option<RawTag>) -> Option<TagRec> {
    match o {
        Some(t) => Some(t@),
        None => None,
    }
}

/// What one tag produced: the writes to perform, in order, and the anomalies seen.
#[derive(Debug)]
pub struct Step {
    pub emits: Vec<Emit>,
    pub warnings: Vec<Warning>,
}

/// The segmentation state machine. It keeps the initialization tags, buffers
/// tags from one keyframe to the next, and decides when to start a new file.
pub struct Segmenter {
    segment: Segment,
    on_meta_data: Option<RawTag>,
    aac_sequence_header: Option<RawTag>,
    h264_sequence_header: Option<RawTag>,
    cache: Vec<RawTag>,
    first_tag_time: u32,
    time_origin_set: bool,
    downloaded_size: u64,
    prev_timestamp: u32,
    create_new: bool,
}

impl View for Segmenter {
    type V = SegState;

    closed spec fn view(&self) -> SegState {
        SegState {
            segment: self.segment,
            on_meta_data: opt_rec(self.on_meta_data),
            aac_sequence_header: opt_rec(self.aac_sequence_header),
            h264_sequence_header: opt_rec(self.h264_sequence_header),
            cache: tag_recs(self.cache@),
            first_tag_time: self.first_tag_time,
            time_origin_set: self.time_origin_set,
            downloaded_size: self.downloaded_size,
            prev_timestamp: self.prev_timestamp,
            create_new: self.create_new,
        }
    }
}

fn is_keyframe(t: &RawTag) -> (r: bool)
    ensures
        r == t@.is_key(),
{
    t.header.tag_type == TagType::Video && t.body.len() >= 1 && t.body[0] / 16 == FRAME_TYPE_KEY
}

fn copy_slot(slot: &Option<RawTag>) -> (r: RawTag)
    requires
        slot is Some,
    ensures
        Some(r@) == opt_rec(*slot),
{
    slot.as_ref().unwrap().copy()
}

impl Segmenter {
    /// A segmenter for a new connection: nothing captured, nothing buffered,
    /// and a current file holding only its 13-byte prelude.
    pub fn new(segment: Segment) -> (r: Segmenter)
        ensures
            r@ == initial_state(segment),
    {
        let r = Segmenter {
            segment,
            on_meta_data: None,
            aac_sequence_header: None,
            h264_sequence_header: None,
            cache: Vec::new(),
            first_tag_time: 0,
            time_origin_set: false,
            downloaded_size: FILE_PRELUDE_SIZE,
            prev_timestamp: 0,
            create_new: false,
        };
        assert(r@.cache =~= Seq::<TagRec>::empty());
        r
    }

    /// Writes the buffered tags out in order and empties the buffer, counting
    /// their bytes and reporting timestamps that go backwards.
    fn flush_cache(&mut self, emits: &mut Vec<Emit>, warnings: &mut Vec<Warning>)
        ensures
            final(self)@ == (SegState {
                cache: Seq::empty(),
                downloaded_size: add_sizes(old(self)@.downloaded_size, old(self)@.cache),
                prev_timestamp: last_timestamp(old(self)@.prev_timestamp, old(self)@.cache),
                ..old(self)@
            }),
            emit_recs(final(emits)@) == emit_recs(old(emits)@) + tag_emits(old(self)@.cache),
            final(warnings)@ == old(warnings)@ + order_warnings(old(self)@.prev_timestamp, old(self)@.cache),
    {
        let ghost e0 = emit_recs(emits@);
        let ghost w0 = warnings@;
        let mut cache: Vec<RawTag> = Vec::new();
        std::mem::swap(&mut cache, &mut self.cache);
        let ghost cs = tag_recs(cache@);
        let size0 = self.downloaded_size;
        let prev0 = self.prev_timestamp;
        let mut size = size0;
        let mut prev = prev0;
        let mut i: usize = 0;
        assert(emit_recs(emits@) =~= e0 + tag_emits(cs.subrange(0, 0)));
        assert(warnings@ =~= w0 + order_warnings(prev0, cs.subrange(0, 0)));
        while i < cache.len()
            invariant
                i <= cache@.len(),
                cs == tag_recs(cache@),
                emit_recs(emits@) == e0 + tag_emits(cs.subrange(0, i as int)),
                size == add_sizes(size0, cs.subrange(0, i as int)),
                prev == last_timestamp(prev0, cs.subrange(0, i as int)),
                warnings@ == w0 + order_warnings(prev0, cs.subrange(0, i as int)),
            decreases cache@.len() - i,
        {
            let t = &cache[i];
            let ghost sub = cs.subrange(0, i as int + 1);
            assert(sub.drop_last() =~= cs.subrange(0, i as int));
            assert(cs[i as int] == t@);
            assert(sub.last() == t@);
            if t.header.timestamp < prev {
                warnings.push(Warning::NonMonotonicTimestamp(prev, t.header.timestamp));
            }
            let ghost before = emits@;
            emits.push(Emit::Tag(t.copy()));
            assert(emit_recs(emits@) =~= emit_recs(before).push(EmitRec::Tag(t@)));
            assert(tag_emits(sub) =~= tag_emits(cs.subrange(0, i as int)).push(EmitRec::Tag(t@)));
            size = size.saturating_add(15 + t.header.data_size as u64);
            prev = t.header.timestamp;
            i = i + 1;
            assert(warnings@ =~= w0 + order_warnings(prev0, cs.subrange(0, i as int)));
        }
        assert(cs.subrange(0, i as int) =~= cs);
        self.downloaded_size = size;
        self.prev_timestamp = prev;
        assert(self@.cache =~= Seq::<TagRec>::empty());
    }

    /// At a clean end of the stream, writes out what is still buffered.
    pub fn finish(&mut self) -> (r: Step)
        ensures
            final(self)@ == (SegState {
                cache: Seq::empty(),
                downloaded_size: add_sizes(old(self)@.downloaded_size, old(self)@.cache),
                prev_timestamp: last_timestamp(old(self)@.prev_timestamp, old(self)@.cache),
                ..old(self)@
            }),
            emit_recs(r.emits@) == tag_emits(old(self)@.cache),
            r.warnings@ == order_warnings(old(self)@.prev_timestamp, old(self)@.cache),
    {
        let mut emits: Vec<Emit> = Vec::new();
        let mut warnings: Vec<Warning> = Vec::new();
        assert(emit_recs(emits@) =~= Seq::<EmitRec>::empty());
        self.flush_cache(&mut emits, &mut warnings);
        assert(emit_recs(emits@) =~= tag_emits(old(self)@.cache));
        assert(warnings@ =~= order_warnings(old(self)@.prev_timestamp, old(self)@.cache));
        Step { emits, warnings }
    }

    /// Takes the next tag of the stream. A tag whose body does not parse is a
    /// fatal error and leaves the state as it was.
    pub fn push_tag(&mut self, tag: RawTag) -> (r: Result<Step, Error>)
        requires
            tag.wf(),
        ensures
            r is Ok <==> tag@.parses(),
            r is Err ==> final(self)@ == old(self)@,
            r matches Ok(st) ==> final(self)@ == step(old(self)@, tag@).0
                && emit_recs(st.emits@) == step(old(self)@, tag@).1
                && st.warnings@ == step(old(self)@, tag@).2,
    {
        let ghost s0 = self@;
        let class = match classify(&tag) {
            Ok(c) => c,
            Err(e) => return Err(e),
        };
        let mut warnings: Vec<Warning> = Vec::new();
        if class.meta {
            if self.on_meta_data.is_some() {
                warnings.push(Warning::DuplicateMetaData);
            } else {
                self.on_meta_data = Some(tag.copy());
            }
        }
        if class.aac_seq {
            if self.aac_sequence_header.is_some() {
                warnings.push(Warning::DuplicateAacSequenceHeader);
            } else {
                self.aac_sequence_header = Some(tag.copy());
            }
        }
        if class.h264_seq {
            if self.h264_sequence_header.is_some() {
                warnings.push(Warning::DuplicateH264SequenceHeader);
                self.create_new = true;
            } else {
                self.h264_sequence_header = Some(tag.copy());
            }
        }
        assert(warnings@ =~= duplicate_warnings(s0, tag@));
        let ghost c = after_capture(s0, tag@);
        assert(self@ == c);
        let mut emits: Vec<Emit> = Vec::new();
        if !class.key {
            self.cache.push(tag);
            assert(self@.cache =~= s0.cache.push(tag@));
            assert(emit_recs(emits@) =~= Seq::<EmitRec>::empty());
            return Ok(Step { emits, warnings });
        }
        let ts = tag.header.timestamp;
        if !self.time_origin_set {
            self.first_tag_time = ts;
            self.time_origin_set = true;
        }
        let rollable = self.on_meta_data.is_some() && self.aac_sequence_header.is_some()
            && self.h264_sequence_header.is_some() && self.cache.len() > 0 && is_keyframe(&self.cache[0]);
        assert(rollable == can_roll(c));
        let mut first_tag_time = self.first_tag_time;
        let mut downloaded_size = self.downloaded_size;
        let split = if rollable {
            is_splitting(&tag.header, &self.segment, &mut first_tag_time, &mut downloaded_size)
        } else {
            false
        };
        self.first_tag_time = first_tag_time;
        self.downloaded_size = downloaded_size;
        assert(split == splits_at(s0, tag@));
        if split {
            emits.push(Emit::NewFile(RollReason::Split));
            emits.push(Emit::Tag(copy_slot(&self.on_meta_data)));
            emits.push(Emit::Tag(copy_slot(&self.aac_sequence_header)));
            emits.push(Emit::Tag(copy_slot(&self.h264_sequence_header)));
        }
        let ghost e1 = if split { split_emits(c) } else { Seq::<EmitRec>::empty() };
        assert(emit_recs(emits@) =~= e1);
        self.flush_cache(&mut emits, &mut warnings);
        let forced = self.create_new && self.on_meta_data.is_some() && self.aac_sequence_header.is_some()
            && self.h264_sequence_header.is_some();
        assert(forced == forced_at(s0, tag@));
        let ghost e2 = emit_recs(emits@);
        if forced {
            emits.push(Emit::NewFile(RollReason::SequenceHeaderChanged));
            emits.push(Emit::Tag(copy_slot(&self.on_meta_data)));
            emits.push(Emit::Tag(copy_slot(&self.aac_sequence_header)));
            emits.push(Emit::Tag(copy_slot(&self.h264_sequence_header)));
            self.create_new = false;
        }
        let ghost e3 = if forced { forced_emits(c) } else { Seq::<EmitRec>::empty() };
        assert(emit_recs(emits@) =~= e2 + e3);
        self.cache.push(tag);
        assert(self@.cache =~= seq![tag@]);
        Ok(Step { emits, warnings })
    }
}

} // verus!
