use vstd::prelude::*;
use crate::flv_writer::{u32_bytes, encode_tag, encode_tag_header, file_prelude, lemma_tag_header_round_trip};
use crate::flv_parser::{FileHeader, decode_file_header, decode_tag_header, flv_signature};
use crate::segmenter::{
    EmitRec, RollReason, SegState, Segment, TagRec, initial_state, step, tag_emits, split_emits,
    forced_emits, after_capture, splits_at, forced_at, split_due, add_sizes, capture,
    FILE_PRELUDE_SIZE, last_timestamp, time_origin,
};

verus! {

/// One output file: why it was opened (`None` for the first file, opened
/// before any tag) and the tags written to it after its 13-byte prelude.
pub struct FileRec {
    pub opened_by: Option<RollReason>,
    pub tags: Seq<TagRec>,
}

/// The files after performing `es` on `files`; tags go to the last file.
pub open spec fn apply_emits(files: Seq<FileRec>, es: Seq<EmitRec>) -> Seq<FileRec>
    decreases es.len(),
{
    if es.len() == 0 {
        files
    } else {
        let f = apply_emits(files, es.drop_last());
        match es.last() {
            EmitRec::NewFile(r) => f.push(FileRec { opened_by: Some(r), tags: Seq::empty() }),
            EmitRec::Tag(t) => f.update(f.len() - 1, FileRec { opened_by: f.last().opened_by, tags: f.last().tags.push(t) }),
        }
    }
}

/// The segmenter's state and everything it emitted after taking `tags` in order.
pub open spec fn run(segment: Segment, tags: Seq<TagRec>) -> (SegState, Seq<EmitRec>)
    decreases tags.len(),
{
    if tags.len() == 0 {
        (initial_state(segment), Seq::empty())
    } else {
        let prev = run(segment, tags.drop_last());
        let st = step(prev.0, tags.last());
        (st.0, prev.1 + st.1)
    }
}

/// The first file, before any tag.
pub open spec fn first_file() -> Seq<FileRec> {
    seq![FileRec { opened_by: None, tags: Seq::empty() }]
}

/// The files produced from `tags`.
pub open spec fn output(segment: Segment, tags: Seq<TagRec>) -> Seq<FileRec> {
    apply_emits(first_file(), run(segment, tags).1)
}

pub proof fn lemma_apply_concat(files: Seq<FileRec>, a: Seq<EmitRec>, b: Seq<EmitRec>)
    ensures
        apply_emits(files, a + b) == apply_emits(apply_emits(files, a), b),
    decreases b.len(),
{
    if b.len() == 0 {
        assert(a + b =~= a);
    } else {
        assert((a + b).drop_last() =~= a + b.drop_last());
        lemma_apply_concat(files, a, b.drop_last());
    }
}

/// Writing tags appends them to the last file.
pub proof fn lemma_apply_tags(files: Seq<FileRec>, c: Seq<TagRec>)
    requires
        files.len() >= 1,
    ensures
        apply_emits(files, tag_emits(c)) == files.update(files.len() - 1,
            FileRec { opened_by: files.last().opened_by, tags: files.last().tags + c }),
    decreases c.len(),
{
    if c.len() == 0 {
        assert(files.last().tags + c =~= files.last().tags);
        assert(files.update(files.len() - 1, FileRec { opened_by: files.last().opened_by, tags: files.last().tags + c }) =~= files);
    } else {
        assert(tag_emits(c).drop_last() =~= tag_emits(c.drop_last()));
        lemma_apply_tags(files, c.drop_last());
        assert(files.last().tags + c =~= (files.last().tags + c.drop_last()).push(c.last()));
        let f = apply_emits(files, tag_emits(c.drop_last()));
        assert(apply_emits(files, tag_emits(c)) =~= files.update(files.len() - 1,
            FileRec { opened_by: files.last().opened_by, tags: files.last().tags + c }));
    }
}

/// A split opens a file that holds the three initialization tags.
pub proof fn lemma_apply_split(files: Seq<FileRec>, c: SegState)
    requires
        c.on_meta_data is Some && c.aac_sequence_header is Some && c.h264_sequence_header is Some,
    ensures
        apply_emits(files, split_emits(c)) == files.push(FileRec {
            opened_by: Some(RollReason::Split),
            tags: seq![c.on_meta_data.unwrap(), c.aac_sequence_header.unwrap(), c.h264_sequence_header.unwrap()],
        }),
{
    let e = split_emits(c);
    let m = c.on_meta_data.unwrap();
    let a = c.aac_sequence_header.unwrap();
    let h = c.h264_sequence_header.unwrap();
    assert(e.subrange(0, 1).drop_last() =~= Seq::<EmitRec>::empty());
    assert(e.subrange(0, 2).drop_last() =~= e.subrange(0, 1));
    assert(e.subrange(0, 3).drop_last() =~= e.subrange(0, 2));
    assert(e.drop_last() =~= e.subrange(0, 3));
    let f1 = files.push(FileRec { opened_by: Some(RollReason::Split), tags: Seq::empty() });
    assert(apply_emits(files, Seq::<EmitRec>::empty()) == files);
    assert(e.subrange(0, 1).last() == e[0]);
    assert(apply_emits(files, e.subrange(0, 1)) == f1);
    let f2 = files.push(FileRec { opened_by: Some(RollReason::Split), tags: seq![m] });
    assert(Seq::<TagRec>::empty().push(m) =~= seq![m]);
    assert(apply_emits(files, e.subrange(0, 2)) =~= f2);
    let f3 = files.push(FileRec { opened_by: Some(RollReason::Split), tags: seq![m, a] });
    assert(seq![m].push(a) =~= seq![m, a]);
    assert(apply_emits(files, e.subrange(0, 3)) =~= f3);
    assert(seq![m, a].push(h) =~= seq![m, a, h]);
    assert(apply_emits(files, e) =~= files.push(FileRec { opened_by: Some(RollReason::Split), tags: seq![m, a, h] }));
}

/// A forced roll opens a file that holds the three initialization tags.
pub proof fn lemma_apply_forced(files: Seq<FileRec>, c: SegState)
    requires
        c.on_meta_data is Some && c.aac_sequence_header is Some && c.h264_sequence_header is Some,
    ensures
        apply_emits(files, forced_emits(c)) == files.push(FileRec {
            opened_by: Some(RollReason::SequenceHeaderChanged),
            tags: seq![c.on_meta_data.unwrap(), c.aac_sequence_header.unwrap(), c.h264_sequence_header.unwrap()],
        }),
{
    let e = forced_emits(c);
    let m = c.on_meta_data.unwrap();
    let a = c.aac_sequence_header.unwrap();
    let h = c.h264_sequence_header.unwrap();
    let r = Some(RollReason::SequenceHeaderChanged);
    assert(e.subrange(0, 1).drop_last() =~= Seq::<EmitRec>::empty());
    assert(e.subrange(0, 2).drop_last() =~= e.subrange(0, 1));
    assert(e.subrange(0, 3).drop_last() =~= e.subrange(0, 2));
    assert(e.drop_last() =~= e.subrange(0, 3));
    assert(apply_emits(files, Seq::<EmitRec>::empty()) == files);
    assert(e.subrange(0, 1).last() == e[0]);
    assert(apply_emits(files, e.subrange(0, 1)) == files.push(FileRec { opened_by: r, tags: Seq::empty() }));
    assert(Seq::<TagRec>::empty().push(m) =~= seq![m]);
    assert(apply_emits(files, e.subrange(0, 2)) =~= files.push(FileRec { opened_by: r, tags: seq![m] }));
    assert(seq![m].push(a) =~= seq![m, a]);
    assert(apply_emits(files, e.subrange(0, 3)) =~= files.push(FileRec { opened_by: r, tags: seq![m, a] }));
    assert(seq![m, a].push(h) =~= seq![m, a, h]);
    assert(apply_emits(files, e) =~= files.push(FileRec { opened_by: r, tags: seq![m, a, h] }));
}

/// The three initialization tags.
pub enum InitTag {
    Meta,
    Aac,
    H264,
}

pub open spec fn hits(t: TagRec, k: InitTag) -> bool {
    match k {
        InitTag::Meta => t.is_meta(),
        InitTag::Aac => t.is_aac_seq(),
        InitTag::H264 => t.is_h264_seq(),
    }
}

/// The first tag of `seen` of kind `k`, if any.
pub open spec fn first_hit(seen: Seq<TagRec>, k: InitTag) -> Option<TagRec>
    decreases seen.len(),
{
    if seen.len() == 0 {
        None
    } else {
        let f = first_hit(seen.drop_last(), k);
        if f is Some {
            f
        } else if hits(seen.last(), k) {
            Some(seen.last())
        } else {
            None
        }
    }
}

/// How many initialization tags a file opened this way starts with.
pub open spec fn triad_len(r: Option<RollReason>) -> int {
    match r {
        Some(RollReason::Split) => 3,
        Some(RollReason::SequenceHeaderChanged) => 3,
        None => 0,
    }
}

/// Bytes that `tags` occupy in a file.
pub open spec fn tags_size(tags: Seq<TagRec>) -> int
    decreases tags.len(),
{
    if tags.len() == 0 { 0 } else { tags_size(tags.drop_last()) + tags.last().size() }
}

/// Bytes of a file: the 13-byte prelude and its tags.
pub open spec fn file_bytes(f: FileRec) -> int {
    FILE_PRELUDE_SIZE + tags_size(f.tags)
}

pub proof fn lemma_tags_size_concat(a: Seq<TagRec>, b: Seq<TagRec>)
    ensures
        tags_size(a + b) == tags_size(a) + tags_size(b),
        tags_size(b) >= 0,
    decreases b.len(),
{
    if b.len() == 0 {
        assert(a + b =~= a);
    } else {
        assert((a + b).drop_last() =~= a + b.drop_last());
        lemma_tags_size_concat(a, b.drop_last());
    }
}

pub proof fn lemma_add_sizes_bound(ds: u64, c: Seq<TagRec>)
    ensures
        add_sizes(ds, c) <= ds + tags_size(c),
    decreases c.len(),
{
    if c.len() > 0 {
        lemma_add_sizes_bound(ds, c.drop_last());
    }
}

pub proof fn lemma_first_hit_in(seen: Seq<TagRec>, k: InitTag)
    ensures
        first_hit(seen, k) matches Some(t) ==> seen.contains(t) && hits(t, k),
    decreases seen.len(),
{
    if seen.len() > 0 {
        lemma_first_hit_in(seen.drop_last(), k);
        if first_hit(seen.drop_last(), k) is Some {
            let t = first_hit(seen.drop_last(), k).unwrap();
            let i = choose|i: int| 0 <= i < seen.drop_last().len() && seen.drop_last()[i] == t;
            assert(seen[i] == t);
        } else {
            assert(seen[seen.len() - 1] == seen.last());
        }
    }
}

/// How many H.264 sequence headers `seen` holds.
pub open spec fn h264_count(seen: Seq<TagRec>) -> nat
    decreases seen.len(),
{
    if seen.len() == 0 {
        0
    } else {
        h264_count(seen.drop_last()) + if seen.last().is_h264_seq() { 1nat } else { 0nat }
    }
}

proof fn lemma_h264_count_push(seen: Seq<TagRec>, t: TagRec)
    ensures
        h264_count(seen.push(t)) == h264_count(seen) + if t.is_h264_seq() { 1nat } else { 0nat },
{
    assert(seen.push(t).drop_last() =~= seen);
}

proof fn lemma_h264_count_first_hit(seen: Seq<TagRec>)
    ensures
        first_hit(seen, InitTag::H264) is Some ==> h264_count(seen) >= 1,
    decreases seen.len(),
{
    if seen.len() > 0 {
        lemma_h264_count_first_hit(seen.drop_last());
    }
}

/// The tags that open a file after a roll are the captured initialization tags.
pub open spec fn opens_with_triad(f: FileRec, s: SegState) -> bool {
    &&& f.tags.len() >= triad_len(f.opened_by)
    &&& f.tags[0] == s.on_meta_data.unwrap()
    &&& f.tags[1] == s.aac_sequence_header.unwrap()
    &&& f.tags[2] == s.h264_sequence_header.unwrap()
}

/// The first tag after a file's initialization tags, if any, is a keyframe.
pub open spec fn starts_at_key(f: FileRec) -> bool {
    f.tags.len() > triad_len(f.opened_by) ==> f.tags[triad_len(f.opened_by)].is_key()
}

/// A file closed by a size split holds at least `b` bytes, unless a forced
/// roll opened it.
pub open spec fn size_bound_holds(files: Seq<FileRec>, b: u64) -> bool {
    forall|f: int| 0 <= f < files.len() - 1 && #[trigger] files[f + 1].opened_by == Some(RollReason::Split)
        && files[f].opened_by != Some(RollReason::SequenceHeaderChanged) ==> file_bytes(files[f]) >= b
}

/// What holds of the segmenter's state, the files written, and the tags seen.
pub open spec fn inv(s: SegState, files: Seq<FileRec>, seen: Seq<TagRec>) -> bool {
    &&& files.len() >= 1
    &&& files[0].opened_by is None
    &&& forall|f: int| 1 <= f < files.len() ==> (#[trigger] files[f]).opened_by is Some
    &&& s.on_meta_data == first_hit(seen, InitTag::Meta)
    &&& s.aac_sequence_header == first_hit(seen, InitTag::Aac)
    &&& s.h264_sequence_header == first_hit(seen, InitTag::H264)
    &&& files.len() > 1 ==> s.on_meta_data is Some && s.aac_sequence_header is Some && s.h264_sequence_header is Some
    &&& s.create_new ==> s.h264_sequence_header is Some
    &&& s.create_new ==> h264_count(seen) >= 2
    &&& forall|f: int| 1 <= f < files.len() && (#[trigger] files[f]).opened_by == Some(RollReason::SequenceHeaderChanged)
        ==> h264_count(seen) >= 2
    &&& forall|f: int| 1 <= f < files.len() ==> opens_with_triad(#[trigger] files[f], s)
    &&& forall|f: int| 1 <= f < files.len() ==> starts_at_key(#[trigger] files[f])
    &&& (files.len() > 1 && files.last().tags.len() == triad_len(files.last().opened_by)) ==> s.cache.len() > 0 && s.cache[0].is_key()
    &&& s.segment matches Segment::Size(b) ==> {
        &&& size_bound_holds(files, b)
        &&& files.last().opened_by != Some(RollReason::SequenceHeaderChanged) ==> s.downloaded_size <= file_bytes(files.last())
    }
    &&& forall|f: int, i: int| 0 <= f < files.len() && 0 <= i < files[f].tags.len() ==> seen.contains(#[trigger] files[f].tags[i])
    &&& forall|i: int| 0 <= i < s.cache.len() ==> seen.contains(#[trigger] s.cache[i])
}

proof fn lemma_contains_push(seen: Seq<TagRec>, t: TagRec)
    ensures
        seen.push(t).contains(t),
        forall|x: TagRec| seen.contains(x) ==> #[trigger] seen.push(t).contains(x),
{
    assert(seen.push(t)[seen.len() as int] == t);
    assert forall|x: TagRec| seen.contains(x) implies #[trigger] seen.push(t).contains(x) by {
        let i = choose|i: int| 0 <= i < seen.len() && seen[i] == x;
        assert(seen.push(t)[i] == x);
    }
}

proof fn lemma_first_hit_push(seen: Seq<TagRec>, t: TagRec, k: InitTag)
    ensures
        first_hit(seen.push(t), k) == capture(first_hit(seen, k), hits(t, k), t),
{
    assert(seen.push(t).drop_last() =~= seen);
}

proof fn lemma_inv_capture(s: SegState, files: Seq<FileRec>, seen: Seq<TagRec>, t: TagRec)
    requires
        inv(s, files, seen),
    ensures
        inv(after_capture(s, t), files, seen.push(t)),
{
    let c = after_capture(s, t);
    lemma_first_hit_push(seen, t, InitTag::Meta);
    lemma_first_hit_push(seen, t, InitTag::Aac);
    lemma_first_hit_push(seen, t, InitTag::H264);
    lemma_contains_push(seen, t);
    lemma_h264_count_push(seen, t);
    lemma_h264_count_first_hit(seen);
    assert forall|f: int| 1 <= f < files.len() implies opens_with_triad(#[trigger] files[f], c) by {
        assert(opens_with_triad(files[f], s));
    }
    assert forall|f: int, i: int| 0 <= f < files.len() && 0 <= i < files[f].tags.len() implies seen.push(t).contains(#[trigger] files[f].tags[i]) by {
        assert(seen.contains(files[f].tags[i]));
    }
    assert forall|i: int| 0 <= i < c.cache.len() implies seen.push(t).contains(#[trigger] c.cache[i]) by {
        assert(seen.contains(s.cache[i]));
    }
}

proof fn lemma_inv_not_key(s: SegState, files: Seq<FileRec>, seen: Seq<TagRec>, t: TagRec)
    requires
        inv(s, files, seen),
        !t.is_key(),
    ensures
        inv(step(s, t).0, apply_emits(files, step(s, t).1), seen.push(t)),
{
    let c = after_capture(s, t);
    lemma_inv_capture(s, files, seen, t);
    lemma_contains_push(seen, t);
    let n = step(s, t).0;
    assert(n.cache == c.cache.push(t));
    assert(apply_emits(files, step(s, t).1) == files);
    assert forall|i: int| 0 <= i < n.cache.len() implies seen.push(t).contains(#[trigger] n.cache[i]) by {
        if i < c.cache.len() {
            assert(n.cache[i] == c.cache[i]);
        }
    }
    if files.len() > 1 && files.last().tags.len() == triad_len(files.last().opened_by) {
        assert(n.cache[0] == c.cache[0]);
    }
}

/// The state between a keyframe's split decision and the flush of the cache.
pub open spec fn split_phase(s: SegState, t: TagRec) -> SegState {
    let c = after_capture(s, t);
    let split = splits_at(s, t);
    SegState {
        downloaded_size: if split && c.segment is Size { FILE_PRELUDE_SIZE } else { c.downloaded_size },
        ..c
    }
}

pub open spec fn split_files(s: SegState, t: TagRec, files: Seq<FileRec>) -> Seq<FileRec> {
    if splits_at(s, t) { apply_emits(files, split_emits(after_capture(s, t))) } else { files }
}

proof fn lemma_inv_split(s: SegState, files: Seq<FileRec>, seen: Seq<TagRec>, t: TagRec)
    requires
        inv(s, files, seen),
        t.is_key(),
    ensures
        inv(split_phase(s, t), split_files(s, t, files), seen.push(t)),
{
    let c = after_capture(s, t);
    lemma_inv_capture(s, files, seen, t);
    let c1 = split_phase(s, t);
    assert(inv(c, files, seen.push(t)));
    if splits_at(s, t) {
        lemma_apply_split(files, c);
        let files1 = split_files(s, t, files);
        let nf = FileRec {
            opened_by: Some(RollReason::Split),
            tags: seq![c.on_meta_data.unwrap(), c.aac_sequence_header.unwrap(), c.h264_sequence_header.unwrap()],
        };
        assert(files1 == files.push(nf));
        lemma_first_hit_in(seen.push(t), InitTag::Meta);
        lemma_first_hit_in(seen.push(t), InitTag::Aac);
        lemma_first_hit_in(seen.push(t), InitTag::H264);
        assert forall|f: int| 1 <= f < files1.len() implies opens_with_triad(#[trigger] files1[f], c1) by {
            if f < files.len() {
                assert(files1[f] == files[f]);
            }
        }
        assert forall|f: int| 1 <= f < files1.len() implies starts_at_key(#[trigger] files1[f]) by {
            if f < files.len() {
                assert(files1[f] == files[f]);
            }
        }
        assert forall|f: int| 1 <= f < files1.len() implies (#[trigger] files1[f]).opened_by is Some by {
            if f < files.len() {
                assert(files1[f] == files[f]);
            }
        }
        assert forall|f: int, i: int| 0 <= f < files1.len() && 0 <= i < files1[f].tags.len() implies seen.push(t).contains(#[trigger] files1[f].tags[i]) by {
            if f < files.len() {
                assert(files1[f] == files[f]);
            } else {
                assert(nf.tags[0] == c.on_meta_data.unwrap());
                assert(nf.tags[1] == c.aac_sequence_header.unwrap());
                assert(nf.tags[2] == c.h264_sequence_header.unwrap());
            }
        }
        if let Segment::Size(b) = c1.segment {
            assert(tags_size(nf.tags) >= 0) by {
                lemma_tags_size_concat(Seq::empty(), nf.tags);
                assert(Seq::<TagRec>::empty() + nf.tags =~= nf.tags);
            }
            assert forall|f: int| 0 <= f < files1.len() - 1 && #[trigger] files1[f + 1].opened_by == Some(RollReason::Split)
                && files1[f].opened_by != Some(RollReason::SequenceHeaderChanged) implies file_bytes(files1[f]) >= b by {
                assert(files1[f] == files[f]);
                if f + 1 < files.len() {
                    assert(files1[f + 1] == files[f + 1]);
                } else {
                    assert(f == files.len() - 1);
                    assert(split_due(c.segment, t.header.timestamp, crate::segmenter::time_origin(c, t.header.timestamp), c.downloaded_size));
                }
            }
        }
    } else {
        assert(c1 == c);
    }
}

/// The state right after the cache is flushed.
pub open spec fn flushed(c: SegState) -> SegState {
    SegState {
        cache: Seq::empty(),
        downloaded_size: add_sizes(c.downloaded_size, c.cache),
        prev_timestamp: last_timestamp(c.prev_timestamp, c.cache),
        ..c
    }
}

proof fn lemma_inv_flush(c: SegState, files: Seq<FileRec>, seen: Seq<TagRec>)
    requires
        inv(c, files, seen),
    ensures
        inv(flushed(c), apply_emits(files, tag_emits(c.cache)), seen),
        files.len() > 1 ==> apply_emits(files, tag_emits(c.cache)).last().tags.len()
            > triad_len(apply_emits(files, tag_emits(c.cache)).last().opened_by),
{
    let c2 = flushed(c);
    lemma_apply_tags(files, c.cache);
    let files2 = apply_emits(files, tag_emits(c.cache));
    let l = files.len() - 1;
    let nl = FileRec { opened_by: files.last().opened_by, tags: files.last().tags + c.cache };
    assert(files2 == files.update(l, nl));
    assert(files2.last() == nl);
    assert forall|f: int| 1 <= f < files2.len() implies (#[trigger] files2[f]).opened_by is Some by {
        if f < l { assert(files2[f] == files[f]); } else { assert(files[l] == files.last()); }
    }
    assert forall|f: int| 1 <= f < files2.len() implies opens_with_triad(#[trigger] files2[f], c2) by {
        if f < l {
            assert(files2[f] == files[f]);
        } else {
            assert(files[l] == files.last());
            assert(opens_with_triad(files[l], c));
            let k = triad_len(nl.opened_by);
            assert(nl.tags[0] == files.last().tags[0]);
            assert(nl.tags[1] == files.last().tags[1]);
            if nl.opened_by == Some(RollReason::Split) {
                assert(nl.tags[2] == files.last().tags[2]);
            }
        }
    }
    assert forall|f: int| 1 <= f < files2.len() implies starts_at_key(#[trigger] files2[f]) by {
        if f < l {
            assert(files2[f] == files[f]);
        } else {
            assert(files[l] == files.last());
            assert(starts_at_key(files[l]));
            assert(opens_with_triad(files[l], c));
            let k = triad_len(nl.opened_by);
            if files.last().tags.len() > k {
                assert(nl.tags[k] == files.last().tags[k]);
            } else {
                assert(nl.tags[k] == c.cache[0]);
            }
        }
    }
    if files.len() > 1 {
        assert(files[l] == files.last());
        assert(opens_with_triad(files[l], c));
    }
    assert forall|f: int, i: int| 0 <= f < files2.len() && 0 <= i < files2[f].tags.len() implies seen.contains(#[trigger] files2[f].tags[i]) by {
        if f < l {
            assert(files2[f] == files[f]);
        } else {
            assert(files[l] == files.last());
            if i < files.last().tags.len() {
                assert(nl.tags[i] == files[l].tags[i]);
            } else {
                assert(nl.tags[i] == c.cache[i - files.last().tags.len()]);
            }
        }
    }
    if let Segment::Size(b) = c.segment {
        lemma_tags_size_concat(files.last().tags, c.cache);
        lemma_add_sizes_bound(c.downloaded_size, c.cache);
        assert forall|f: int| 0 <= f < files2.len() - 1 && #[trigger] files2[f + 1].opened_by == Some(RollReason::Split)
            && files2[f].opened_by != Some(RollReason::SequenceHeaderChanged) implies file_bytes(files2[f]) >= b by {
            assert(files2[f] == files[f]);
            if f + 1 < l {
                assert(files2[f + 1] == files[f + 1]);
            } else {
                assert(files[l] == files.last());
                assert(files[f + 1].opened_by == nl.opened_by);
            }
        }
    }
}

/// The state and files at the end of a keyframe's step.
proof fn lemma_inv_finish(c: SegState, files: Seq<FileRec>, seen: Seq<TagRec>, t: TagRec, forced: bool, n: SegState)
    requires
        inv(c, files, seen),
        c.cache.len() == 0,
        files.len() > 1 ==> files.last().tags.len() > triad_len(files.last().opened_by),
        t.is_key(),
        seen.contains(t),
        forced ==> c.on_meta_data is Some && c.aac_sequence_header is Some && c.h264_sequence_header is Some && c.create_new,
        n.create_new ==> c.create_new,
        n == (SegState { cache: seq![t], first_tag_time: n.first_tag_time, time_origin_set: n.time_origin_set,
            create_new: n.create_new, ..c }),
    ensures
        inv(n, if forced { apply_emits(files, forced_emits(c)) } else { files }, seen),
{
    if forced {
        lemma_apply_forced(files, c);
        let nf = FileRec { opened_by: Some(RollReason::SequenceHeaderChanged),
            tags: seq![c.on_meta_data.unwrap(), c.aac_sequence_header.unwrap(), c.h264_sequence_header.unwrap()] };
        let files3 = files.push(nf);
        lemma_first_hit_in(seen, InitTag::Meta);
        lemma_first_hit_in(seen, InitTag::Aac);
        lemma_first_hit_in(seen, InitTag::H264);
        assert forall|f: int| 1 <= f < files3.len() && (#[trigger] files3[f]).opened_by == Some(RollReason::SequenceHeaderChanged)
            implies h264_count(seen) >= 2 by {
            if f < files.len() { assert(files3[f] == files[f]); }
        }
        assert forall|f: int| 1 <= f < files3.len() implies (#[trigger] files3[f]).opened_by is Some by {
            if f < files.len() { assert(files3[f] == files[f]); }
        }
        assert forall|f: int| 1 <= f < files3.len() implies opens_with_triad(#[trigger] files3[f], n) by {
            if f < files.len() { assert(files3[f] == files[f]); }
        }
        assert forall|f: int| 1 <= f < files3.len() implies starts_at_key(#[trigger] files3[f]) by {
            if f < files.len() { assert(files3[f] == files[f]); }
        }
        assert forall|f: int, i: int| 0 <= f < files3.len() && 0 <= i < files3[f].tags.len() implies seen.contains(#[trigger] files3[f].tags[i]) by {
            if f < files.len() {
                assert(files3[f] == files[f]);
            } else {
                assert(nf.tags[0] == c.on_meta_data.unwrap());
                assert(nf.tags[1] == c.aac_sequence_header.unwrap());
                assert(nf.tags[2] == c.h264_sequence_header.unwrap());
            }
        }
        if let Segment::Size(b) = c.segment {
            assert forall|f: int| 0 <= f < files3.len() - 1 && #[trigger] files3[f + 1].opened_by == Some(RollReason::Split)
                && files3[f].opened_by != Some(RollReason::SequenceHeaderChanged) implies file_bytes(files3[f]) >= b by {
                assert(files3[f] == files[f]);
                if f + 1 < files.len() {
                    assert(files3[f + 1] == files[f + 1]);
                }
            }
        }
    }
    assert forall|i: int| 0 <= i < n.cache.len() implies seen.contains(#[trigger] n.cache[i]) by {
        assert(n.cache[i] == t);
    }
}

proof fn lemma_inv_step(s: SegState, files: Seq<FileRec>, seen: Seq<TagRec>, t: TagRec)
    requires
        inv(s, files, seen),
    ensures
        inv(step(s, t).0, apply_emits(files, step(s, t).1), seen.push(t)),
{
    if !t.is_key() {
        lemma_inv_not_key(s, files, seen, t);
    } else {
        let seen2 = seen.push(t);
        lemma_contains_push(seen, t);
        let c = after_capture(s, t);
        let c1 = split_phase(s, t);
        let files1 = split_files(s, t, files);
        lemma_inv_split(s, files, seen, t);
        assert(c1.cache == s.cache);
        lemma_inv_flush(c1, files1, seen2);
        let c2 = flushed(c1);
        let files2 = apply_emits(files1, tag_emits(c1.cache));
        let forced = forced_at(s, t);
        let n = step(s, t).0;
        lemma_inv_finish(c2, files2, seen2, t, forced, n);
        let e1 = if splits_at(s, t) { split_emits(c) } else { Seq::<EmitRec>::empty() };
        let e3 = if forced { forced_emits(c) } else { Seq::<EmitRec>::empty() };
        assert(step(s, t).1 == e1 + tag_emits(s.cache) + e3);
        lemma_apply_concat(files, e1 + tag_emits(s.cache), e3);
        lemma_apply_concat(files, e1, tag_emits(s.cache));
        assert(apply_emits(files, e1) == files1);
        assert(apply_emits(files, Seq::<EmitRec>::empty()) == files);
        assert(apply_emits(files2, Seq::<EmitRec>::empty()) == files2);
        assert(forced_emits(c2) == forced_emits(c));
    }
}

/// What holds after any sequence of tags, by induction on the sequence.
proof fn lemma_inv_run(segment: Segment, tags: Seq<TagRec>)
    ensures
        inv(run(segment, tags).0, output(segment, tags), tags),
    decreases tags.len(),
{
    if tags.len() == 0 {
        let s = initial_state(segment);
        assert(output(segment, tags) == first_file());
        assert(tags =~= Seq::<TagRec>::empty());
    } else {
        let prev = tags.drop_last();
        lemma_inv_run(segment, prev);
        let r = run(segment, prev);
        lemma_inv_step(r.0, output(segment, prev), prev, tags.last());
        lemma_apply_concat(first_file(), r.1, step(r.0, tags.last()).1);
        assert(prev.push(tags.last()) =~= tags);
    }
}

/// The files once the stream has ended cleanly and the buffered tags are written.
pub open spec fn finished_output(segment: Segment, tags: Seq<TagRec>) -> Seq<FileRec> {
    apply_emits(output(segment, tags), tag_emits(run(segment, tags).0.cache))
}

proof fn lemma_inv_both(segment: Segment, tags: Seq<TagRec>)
    ensures
        inv(run(segment, tags).0, output(segment, tags), tags),
        inv(flushed(run(segment, tags).0), finished_output(segment, tags), tags),
        run(segment, tags).0.segment == segment,
{
    lemma_inv_run(segment, tags);
    lemma_inv_flush(run(segment, tags).0, output(segment, tags), tags);
    lemma_run_keeps_segment(segment, tags);
}

/// In every file opened by a roll, the first tag after the initialization
/// tags, if any, is a keyframe.
pub open spec fn keyframe_bounded(files: Seq<FileRec>) -> bool {
    forall|f: int| 1 <= f < files.len() && (#[trigger] files[f]).tags.len() > triad_len(files[f].opened_by)
        ==> files[f].tags[triad_len(files[f].opened_by)].is_key()
}

/// Every file opened by a roll starts with the first `onMetaData` tag, the
/// first AAC sequence header and the first H.264 sequence header of `tags`.
pub open spec fn triad_preserved(files: Seq<FileRec>, tags: Seq<TagRec>) -> bool {
    forall|f: int| 1 <= f < files.len() ==> {
        let file = #[trigger] files[f];
        &&& file.opened_by is Some
        &&& first_hit(tags, InitTag::Meta) is Some && file.tags[0] == first_hit(tags, InitTag::Meta).unwrap()
        &&& first_hit(tags, InitTag::Aac) is Some && file.tags[1] == first_hit(tags, InitTag::Aac).unwrap()
        &&& first_hit(tags, InitTag::H264) is Some && file.tags[2] == first_hit(tags, InitTag::H264).unwrap()
    }
}

/// Every tag of every file is one of `tags`.
pub open spec fn drawn_from(files: Seq<FileRec>, tags: Seq<TagRec>) -> bool {
    forall|f: int, i: int| 0 <= f < files.len() && 0 <= i < files[f].tags.len()
        ==> tags.contains(#[trigger] files[f].tags[i])
}

/// Every tag of every file has a body of `data_size` bytes and a trailer
/// holding `11 + data_size`.
pub open spec fn well_framed(files: Seq<FileRec>) -> bool {
    forall|f: int, i: int| 0 <= f < files.len() && 0 <= i < files[f].tags.len()
        ==> (#[trigger] files[f].tags[i]).wf() && trailer_ok(files[f].tags[i])
}

proof fn lemma_read_off(s: SegState, files: Seq<FileRec>, tags: Seq<TagRec>)
    requires
        inv(s, files, tags),
    ensures
        keyframe_bounded(files),
        triad_preserved(files, tags),
        drawn_from(files, tags),
        s.segment matches Segment::Size(b) ==> size_bound_holds(files, b),
        (forall|j: int| 0 <= j < tags.len() ==> #[trigger] tags[j].wf() && trailer_ok(tags[j])) ==> well_framed(files),
{
    assert forall|f: int| 1 <= f < files.len() && (#[trigger] files[f]).tags.len() > triad_len(files[f].opened_by)
        implies files[f].tags[triad_len(files[f].opened_by)].is_key() by {
        assert(starts_at_key(files[f]));
    }
    assert forall|f: int| 1 <= f < files.len() implies {
        let file = #[trigger] files[f];
        &&& file.opened_by is Some
        &&& first_hit(tags, InitTag::Meta) is Some && file.tags[0] == first_hit(tags, InitTag::Meta).unwrap()
        &&& first_hit(tags, InitTag::Aac) is Some && file.tags[1] == first_hit(tags, InitTag::Aac).unwrap()
        &&& first_hit(tags, InitTag::H264) is Some && file.tags[2] == first_hit(tags, InitTag::H264).unwrap()
    } by {
        assert(opens_with_triad(files[f], s));
    }
    if forall|j: int| 0 <= j < tags.len() ==> #[trigger] tags[j].wf() && trailer_ok(tags[j]) {
        assert forall|f: int, i: int| 0 <= f < files.len() && 0 <= i < files[f].tags.len()
            implies (#[trigger] files[f].tags[i]).wf() && trailer_ok(files[f].tags[i]) by {
            assert(tags.contains(files[f].tags[i]));
            let j = choose|j: int| 0 <= j < tags.len() && tags[j] == files[f].tags[i];
            assert(tags[j].wf());
        }
    }
}

/// Files are cut at keyframes only: after the initialization tags, every
/// file opened by a roll continues with a keyframe, while the stream runs
/// and after it ends.
pub proof fn lemma_keyframe_bounded_splits(segment: Segment, tags: Seq<TagRec>)
    ensures
        keyframe_bounded(output(segment, tags)),
        keyframe_bounded(finished_output(segment, tags)),
{
    lemma_inv_both(segment, tags);
    lemma_read_off(run(segment, tags).0, output(segment, tags), tags);
    lemma_read_off(flushed(run(segment, tags).0), finished_output(segment, tags), tags);
}

/// The initialization tags that open each rolled file are, byte for byte, the
/// first ones of their kind on the wire.
pub proof fn lemma_triad_preservation(segment: Segment, tags: Seq<TagRec>)
    ensures
        triad_preserved(output(segment, tags), tags),
        triad_preserved(finished_output(segment, tags), tags),
{
    lemma_inv_both(segment, tags);
    lemma_read_off(run(segment, tags).0, output(segment, tags), tags);
    lemma_read_off(flushed(run(segment, tags).0), finished_output(segment, tags), tags);
}

/// Every file but the last holds at least `b` bytes.
pub open spec fn closed_files_reach(files: Seq<FileRec>, b: u64) -> bool {
    forall|f: int| 0 <= f < files.len() - 1 ==> file_bytes(#[trigger] files[f]) >= b
}

proof fn lemma_no_forced_roll(s: SegState, files: Seq<FileRec>, tags: Seq<TagRec>, b: u64)
    requires
        inv(s, files, tags),
        s.segment == Segment::Size(b),
        h264_count(tags) <= 1,
    ensures
        closed_files_reach(files, b),
{
    assert forall|f: int| 0 <= f < files.len() - 1 implies file_bytes(#[trigger] files[f]) >= b by {
        assert(files[f + 1].opened_by is Some);
        if files[f + 1].opened_by == Some(RollReason::SequenceHeaderChanged) {
            assert(h264_count(tags) >= 2);
        }
        if f >= 1 && files[f].opened_by == Some(RollReason::SequenceHeaderChanged) {
            assert(h264_count(tags) >= 2);
        }
        assert(size_bound_holds(files, b));
    }
}

/// Size-split lower bound: under a size limit `b`, a file that a size split
/// closed holds at least `b` bytes, unless a changed H.264 sequence header
/// opened it. So when the stream carries at most one H.264 sequence header,
/// every closed file holds at least `b` bytes; the file still open may be
/// smaller.
pub proof fn lemma_size_split_lower_bound(b: u64, tags: Seq<TagRec>)
    ensures
        size_bound_holds(output(Segment::Size(b), tags), b),
        size_bound_holds(finished_output(Segment::Size(b), tags), b),
        h264_count(tags) <= 1 ==> closed_files_reach(output(Segment::Size(b), tags), b)
            && closed_files_reach(finished_output(Segment::Size(b), tags), b),
{
    lemma_inv_both(Segment::Size(b), tags);
    lemma_read_off(run(Segment::Size(b), tags).0, output(Segment::Size(b), tags), tags);
    lemma_read_off(flushed(run(Segment::Size(b), tags).0), finished_output(Segment::Size(b), tags), tags);
    if h264_count(tags) <= 1 {
        lemma_no_forced_roll(run(Segment::Size(b), tags).0, output(Segment::Size(b), tags), tags, b);
        lemma_no_forced_roll(flushed(run(Segment::Size(b), tags).0), finished_output(Segment::Size(b), tags), tags, b);
    }
}

proof fn lemma_run_keeps_segment(segment: Segment, tags: Seq<TagRec>)
    ensures
        run(segment, tags).0.segment == segment,
    decreases tags.len(),
{
    if tags.len() > 0 {
        lemma_run_keeps_segment(segment, tags.drop_last());
    }
}

/// The trailer of a well-framed tag: the tag's own length, big-endian.
pub open spec fn trailer_ok(t: TagRec) -> bool {
    t.trailer == u32_bytes(11 + t.header.data_size)
}

/// Every tag written is a tag that was read; so when every tag read is well
/// framed, so is every tag of every file.
pub proof fn lemma_segment_validity(segment: Segment, tags: Seq<TagRec>)
    ensures
        drawn_from(output(segment, tags), tags),
        drawn_from(finished_output(segment, tags), tags),
        (forall|j: int| 0 <= j < tags.len() ==> #[trigger] tags[j].wf() && trailer_ok(tags[j])) ==>
            well_framed(output(segment, tags)) && well_framed(finished_output(segment, tags)),
{
    lemma_inv_both(segment, tags);
    lemma_read_off(run(segment, tags).0, output(segment, tags), tags);
    lemma_read_off(flushed(run(segment, tags).0), finished_output(segment, tags), tags);
}

/// At a keyframe the whole cache is written, in order, before the keyframe is
/// buffered: the cache then holds the keyframe alone. Any other tag is only
/// buffered.
pub proof fn lemma_flush_on_keyframe(s: SegState, t: TagRec)
    ensures
        t.is_key() ==> step(s, t).0.cache == seq![t] && step(s, t).1 ==
            (if splits_at(s, t) { split_emits(after_capture(s, t)) } else { Seq::empty() })
            + tag_emits(s.cache)
            + (if forced_at(s, t) { forced_emits(after_capture(s, t)) } else { Seq::empty() }),
        !t.is_key() ==> step(s, t).0.cache == s.cache.push(t) && step(s, t).1 == Seq::<EmitRec>::empty(),
{
}

/// The bytes that `tags` occupy in a file, in order.
pub open spec fn tags_bytes(tags: Seq<TagRec>) -> Seq<u8>
    decreases tags.len(),
{
    if tags.len() == 0 {
        Seq::empty()
    } else {
        tags_bytes(tags.drop_last()) + encode_tag(tags.last().header, tags.last().body, tags.last().trailer)
    }
}

/// The bytes of a file: the prelude, then its tags.
pub open spec fn file_content(f: FileRec) -> Seq<u8> {
    file_prelude() + tags_bytes(f.tags)
}

proof fn lemma_tags_bytes_concat(a: Seq<TagRec>, b: Seq<TagRec>)
    ensures
        tags_bytes(a + b) == tags_bytes(a) + tags_bytes(b),
    decreases b.len(),
{
    if b.len() == 0 {
        assert(a + b =~= a);
        assert(tags_bytes(a) + tags_bytes(b) =~= tags_bytes(a));
    } else {
        assert((a + b).drop_last() =~= a + b.drop_last());
        lemma_tags_bytes_concat(a, b.drop_last());
        assert(tags_bytes(a + b) =~= tags_bytes(a) + tags_bytes(b));
    }
}

proof fn lemma_tags_bytes_len(tags: Seq<TagRec>)
    requires
        forall|j: int| 0 <= j < tags.len() ==> (#[trigger] tags[j]).wf(),
    ensures
        tags_bytes(tags).len() == tags_size(tags),
    decreases tags.len(),
{
    if tags.len() > 0 {
        let p = tags.drop_last();
        assert forall|j: int| 0 <= j < p.len() implies (#[trigger] p[j]).wf() by {
            assert(p[j] == tags[j]);
        }
        lemma_tags_bytes_len(p);
        assert(tags[tags.len() - 1].wf());
        lemma_tag_header_round_trip(tags.last().header);
    }
}

/// A file of well-framed tags, read from its first byte, gives back the
/// canonical file header and the zero trailer, then each tag in turn: at the
/// offset where the tags before it end, its header decodes to the tag's
/// header, and its body and trailer follow.
#[verifier::rlimit(60)]
pub proof fn lemma_file_parses_back(tags: Seq<TagRec>, i: int)
    requires
        forall|j: int| 0 <= j < tags.len() ==> (#[trigger] tags[j]).wf(),
        0 <= i < tags.len(),
    ensures
        ({
            let content = file_prelude() + tags_bytes(tags);
            let o = 13 + tags_size(tags.subrange(0, i));
            let ds = tags[i].header.data_size as int;
            &&& content.len() == 13 + tags_size(tags)
            &&& content.subrange(0, 3) == flv_signature()
            &&& decode_file_header(content) == (FileHeader { version: 1, has_audio: true, has_video: true, header_size: 9 })
            &&& content.subrange(9, 13) == u32_bytes(0)
            &&& decode_tag_header(content.subrange(o, content.len() as int)) == tags[i].header
            &&& content.subrange(o + 11, o + 11 + ds) == tags[i].body
            &&& content.subrange(o + 11 + ds, o + 15 + ds) == tags[i].trailer
        }),
{
    let content = file_prelude() + tags_bytes(tags);
    let pre = tags.subrange(0, i);
    let post = tags.subrange(i + 1, tags.len() as int);
    let t = tags[i];
    let et = encode_tag(t.header, t.body, t.trailer);
    let ds = t.header.data_size as int;
    lemma_split_bytes(tags, i);
    lemma_tags_bytes_len(tags);
    assert forall|j: int| 0 <= j < pre.len() implies (#[trigger] pre[j]).wf() by {
        assert(pre[j] == tags[j]);
    }
    lemma_tags_bytes_len(pre);
    let a = file_prelude() + tags_bytes(pre);
    let c = tags_bytes(post);
    assert(file_prelude().len() == 13);
    assert(content =~= a + et + c);
    let o = a.len() as int;
    let tail = content.subrange(o, content.len() as int);
    lemma_tag_parts(t, tail);
    lemma_middle(a, et, c, 11, 11 + ds);
    lemma_middle(a, et, c, 11 + ds, 15 + ds);
    assert forall|k: int| 0 <= k < 11 implies #[trigger] tail[k] == et[k] by {
        assert(tail[k] == content[o + k]);
        assert(content[o + k] == et[k]);
    }
    lemma_prelude_parses(tags_bytes(tags));
}

proof fn lemma_split_bytes(tags: Seq<TagRec>, i: int)
    requires
        0 <= i < tags.len(),
    ensures
        tags_bytes(tags) == tags_bytes(tags.subrange(0, i)) + encode_tag(tags[i].header, tags[i].body, tags[i].trailer)
            + tags_bytes(tags.subrange(i + 1, tags.len() as int)),
{
    let pre = tags.subrange(0, i);
    let post = tags.subrange(i + 1, tags.len() as int);
    let t = tags[i];
    assert(tags =~= pre + seq![t] + post);
    lemma_tags_bytes_concat(pre + seq![t], post);
    lemma_tags_bytes_concat(pre, seq![t]);
    assert(seq![t].drop_last() =~= Seq::<TagRec>::empty());
    assert(seq![t].last() == t);
    assert(tags_bytes(Seq::<TagRec>::empty()) == Seq::<u8>::empty());
    assert(tags_bytes(seq![t]) =~= encode_tag(t.header, t.body, t.trailer));
}

proof fn lemma_middle(a: Seq<u8>, b: Seq<u8>, c: Seq<u8>, k: int, l: int)
    requires
        0 <= k <= l <= b.len(),
    ensures
        (a + b + c).subrange(a.len() + k, a.len() + l) == b.subrange(k, l),
{
    assert((a + b + c).subrange(a.len() + k, a.len() + l) =~= b.subrange(k, l));
}

proof fn lemma_tag_parts(t: TagRec, s: Seq<u8>)
    requires
        t.wf(),
    ensures
        ({
            let et = encode_tag(t.header, t.body, t.trailer);
            let ds = t.header.data_size as int;
            &&& et.len() == t.size()
            &&& et.subrange(11, 11 + ds) == t.body
            &&& et.subrange(11 + ds, 15 + ds) == t.trailer
            &&& s.len() >= 11 && (forall|k: int| 0 <= k < 11 ==> #[trigger] s[k] == et[k])
                ==> decode_tag_header(s) == t.header
        }),
{
    let et = encode_tag(t.header, t.body, t.trailer);
    let ds = t.header.data_size as int;
    lemma_tag_header_round_trip(t.header);
    let h = encode_tag_header(t.header);
    assert(et.subrange(11, 11 + ds) =~= t.body);
    assert(et.subrange(11 + ds, 15 + ds) =~= t.trailer);
    if s.len() >= 11 && (forall|k: int| 0 <= k < 11 ==> #[trigger] s[k] == et[k]) {
        assert forall|k: int| 0 <= k < 11 implies s[k] == h[k] by {
            assert(s[k] == et[k]);
        }
        assert(decode_tag_header(s) == decode_tag_header(h));
    }
}

proof fn lemma_prelude_parses(rest: Seq<u8>)
    ensures
        ({
            let content = file_prelude() + rest;
            &&& content.subrange(0, 3) == flv_signature()
            &&& decode_file_header(content) == (FileHeader { version: 1, has_audio: true, has_video: true, header_size: 9 })
            &&& content.subrange(9, 13) == u32_bytes(0)
        }),
{
    let content = file_prelude() + rest;
    assert(file_prelude().len() == 13);
    assert(content.subrange(0, 3) =~= flv_signature());
    assert(content.subrange(9, 13) =~= u32_bytes(0));
    assert(decode_file_header(content) =~= (FileHeader { version: 1, has_audio: true, has_video: true, header_size: 9 }));
}

/// What reading file `f` of `files` from scratch gives at its tag `i`: the
/// canonical file header, then, where the tags before it end, a header that
/// decodes to tag `i`'s, its body of `data_size` bytes, and a trailer holding
/// `11 + data_size`.
pub open spec fn reads_back(files: Seq<FileRec>, f: int, i: int) -> bool {
    let content = file_content(files[f]);
    let t = files[f].tags[i];
    let o = 13 + tags_size(files[f].tags.subrange(0, i));
    let ds = t.header.data_size as int;
    &&& content.len() == 13 + tags_size(files[f].tags)
    &&& content.subrange(0, 3) == flv_signature()
    &&& decode_file_header(content) == (FileHeader { version: 1, has_audio: true, has_video: true, header_size: 9 })
    &&& content.subrange(9, 13) == u32_bytes(0)
    &&& decode_tag_header(content.subrange(o, content.len() as int)) == t.header
    &&& t.body.len() == ds
    &&& content.subrange(o + 11, o + 11 + ds) == t.body
    &&& content.subrange(o + 11 + ds, o + 15 + ds) == u32_bytes(11 + ds)
}

proof fn lemma_reads_back(files: Seq<FileRec>, f: int, i: int)
    requires
        well_framed(files),
        0 <= f < files.len(),
        0 <= i < files[f].tags.len(),
    ensures
        reads_back(files, f, i),
{
    let tags = files[f].tags;
    assert forall|j: int| 0 <= j < tags.len() implies (#[trigger] tags[j]).wf() by {
        assert(files[f].tags[j].wf());
    }
    assert(files[f].tags[i].wf() && trailer_ok(files[f].tags[i]));
    lemma_file_parses_back(tags, i);
}

/// Segment validity: when every tag read is well framed, every file produced,
/// while the stream runs and after it ends, reads back from its first byte as
/// the canonical file header followed by its tags, each with a body of
/// `data_size` bytes and a trailer holding `11 + data_size`.
pub proof fn lemma_produced_files_read_back(segment: Segment, tags: Seq<TagRec>)
    requires
        forall|j: int| 0 <= j < tags.len() ==> #[trigger] tags[j].wf() && trailer_ok(tags[j]),
    ensures
        forall|f: int, i: int| 0 <= f < output(segment, tags).len() && 0 <= i < output(segment, tags)[f].tags.len()
            ==> #[trigger] reads_back(output(segment, tags), f, i),
        forall|f: int, i: int| 0 <= f < finished_output(segment, tags).len() && 0 <= i < finished_output(segment, tags)[f].tags.len()
            ==> #[trigger] reads_back(finished_output(segment, tags), f, i),
{
    lemma_segment_validity(segment, tags);
    let a = output(segment, tags);
    let b = finished_output(segment, tags);
    assert forall|f: int, i: int| 0 <= f < a.len() && 0 <= i < a[f].tags.len() implies #[trigger] reads_back(a, f, i) by {
        lemma_reads_back(a, f, i);
    }
    assert forall|f: int, i: int| 0 <= f < b.len() && 0 <= i < b[f].tags.len() implies #[trigger] reads_back(b, f, i) by {
        lemma_reads_back(b, f, i);
    }
}

/// The first file holds a prefix of the tags read, in wire order; while it is
/// the only file, it and the cache together hold every tag read.
pub open spec fn first_file_is_prefix(s: SegState, files: Seq<FileRec>, seen: Seq<TagRec>) -> bool {
    &&& files.len() >= 1
    &&& files[0].tags.len() <= seen.len()
    &&& files[0].tags == seen.subrange(0, files[0].tags.len() as int)
    &&& files.len() == 1 ==> files[0].tags + s.cache == seen
}

proof fn lemma_prefix_step(s: SegState, files: Seq<FileRec>, seen: Seq<TagRec>, t: TagRec)
    requires
        first_file_is_prefix(s, files, seen),
    ensures
        first_file_is_prefix(step(s, t).0, apply_emits(files, step(s, t).1), seen.push(t)),
{
    let seen2 = seen.push(t);
    let n = step(s, t).0;
    let files3 = apply_emits(files, step(s, t).1);
    let f0 = files[0].tags;
    assert(seen2.subrange(0, f0.len() as int) =~= seen.subrange(0, f0.len() as int));
    if !t.is_key() {
        assert(apply_emits(files, Seq::<EmitRec>::empty()) == files);
        assert(files3 == files);
        if files.len() == 1 {
            assert(f0 + n.cache =~= (f0 + s.cache).push(t));
        }
    } else {
        let c = after_capture(s, t);
        let e1 = if splits_at(s, t) { split_emits(c) } else { Seq::<EmitRec>::empty() };
        let e3 = if forced_at(s, t) { forced_emits(c) } else { Seq::<EmitRec>::empty() };
        assert(step(s, t).1 == e1 + tag_emits(s.cache) + e3);
        lemma_apply_concat(files, e1 + tag_emits(s.cache), e3);
        lemma_apply_concat(files, e1, tag_emits(s.cache));
        let files1 = apply_emits(files, e1);
        if splits_at(s, t) {
            lemma_apply_split(files, c);
        } else {
            assert(apply_emits(files, Seq::<EmitRec>::empty()) == files);
        }
        assert(files1.len() >= 1 && files1[0] == files[0]);
        lemma_apply_tags(files1, s.cache);
        let files2 = apply_emits(files1, tag_emits(s.cache));
        if forced_at(s, t) {
            lemma_apply_forced(files2, c);
        } else {
            assert(apply_emits(files2, Seq::<EmitRec>::empty()) == files2);
        }
        assert(files3.len() >= files2.len() && files3[0] == files2[0]);
        if files1.len() == 1 {
            assert(files.len() == 1);
            assert(files2[0].tags == f0 + s.cache);
            assert(files2[0].tags =~= seen2.subrange(0, seen.len() as int));
            if files3.len() == 1 {
                assert(n.cache == seq![t]);
                assert(files3[0].tags + n.cache =~= seen2);
            }
        } else {
            assert(files2[0] == files1[0]);
        }
    }
}

proof fn lemma_prefix_run(segment: Segment, tags: Seq<TagRec>)
    ensures
        first_file_is_prefix(run(segment, tags).0, output(segment, tags), tags),
    decreases tags.len(),
{
    if tags.len() == 0 {
        assert(output(segment, tags) == first_file());
        assert(first_file()[0].tags + initial_state(segment).cache =~= tags);
        assert(tags.subrange(0, 0) =~= first_file()[0].tags);
    } else {
        let prev = tags.drop_last();
        lemma_prefix_run(segment, prev);
        let r = run(segment, prev);
        lemma_prefix_step(r.0, output(segment, prev), prev, tags.last());
        lemma_apply_concat(first_file(), r.1, step(r.0, tags.last()).1);
        assert(prev.push(tags.last()) =~= tags);
    }
}

/// The first file is the stream itself: it holds the tags read, in wire
/// order, up to where the first roll cut it; when no roll happens, the
/// finished first file holds every tag read.
pub proof fn lemma_first_file_is_the_stream(segment: Segment, tags: Seq<TagRec>)
    ensures
        output(segment, tags).len() >= 1 && output(segment, tags)[0].tags.len() <= tags.len(),
        finished_output(segment, tags).len() >= 1 && finished_output(segment, tags)[0].tags.len() <= tags.len(),
        output(segment, tags)[0].tags == tags.subrange(0, output(segment, tags)[0].tags.len() as int),
        finished_output(segment, tags)[0].tags == tags.subrange(0, finished_output(segment, tags)[0].tags.len() as int),
        finished_output(segment, tags).len() == 1 ==> finished_output(segment, tags)[0].tags == tags,
{
    lemma_prefix_run(segment, tags);
    let files = output(segment, tags);
    let s = run(segment, tags).0;
    lemma_apply_tags(files, s.cache);
    let fin = finished_output(segment, tags);
    if files.len() == 1 {
        assert(fin[0].tags == files[0].tags + s.cache);
        assert(fin[0].tags =~= tags.subrange(0, fin[0].tags.len() as int));
    } else {
        assert(fin[0] == files[0]);
    }
}

/// When the stream opens with its three initialization tags and then a
/// keyframe, the first file does too: its first data tag after them is that
/// keyframe, while the stream runs and after it ends.
pub proof fn lemma_first_file_starts_at_key(segment: Segment, tags: Seq<TagRec>)
    requires
        tags.len() > 3,
        tags[0].is_meta() && tags[1].is_aac_seq() && tags[2].is_h264_seq() && tags[3].is_key(),
    ensures
        output(segment, tags)[0].tags.len() > 3 ==> output(segment, tags)[0].tags.subrange(0, 4) == tags.subrange(0, 4),
        finished_output(segment, tags)[0].tags.len() > 3
            ==> finished_output(segment, tags)[0].tags.subrange(0, 4) == tags.subrange(0, 4)
            && finished_output(segment, tags)[0].tags[3].is_key(),
{
    lemma_first_file_is_the_stream(segment, tags);
    let a = output(segment, tags)[0].tags;
    let b = finished_output(segment, tags)[0].tags;
    if a.len() > 3 {
        assert(a.subrange(0, 4) =~= tags.subrange(0, 4));
    }
    if b.len() > 3 {
        assert(b.subrange(0, 4) =~= tags.subrange(0, 4));
        assert(b[3] == tags[3]);
    }
}

} // verus!
