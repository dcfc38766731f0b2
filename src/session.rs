use vstd::prelude::*;
use crate::error::{Error, ParseStage, map_parse_err};
use crate::flv_parser::{FileHeader, TagHeader, parse_file_header, parse_tag_header, decode_tag_header, decode_file_header, is_tag_type_code, signature_agrees};
use crate::segmenter::{Segment, Segmenter, Step, RawTag, TagRec, SegState, emit_recs, step, tag_emits};
use crate::output::{run, tags_size};

verus! {

/// Where the session stands in the byte stream.
pub enum Stage {
    /// Waiting for the 9-byte file header.
    FileHeader,
    /// Waiting for the zero trailer after the file header.
    FirstTrailer,
    /// Waiting for the next 11-byte tag header, or for the end of the stream.
    TagHeader,
    /// Waiting for the body of the tag with this header.
    Body(TagHeader),
    /// Waiting for the trailer of the tag with this header and body.
    Trailer(TagHeader, Vec<u8>),
    /// The stream ended cleanly.
    Done,
    /// A frame was rejected; nothing more is taken.
    Failed,
}

/// What one frame produced.
#[derive(Debug)]
pub enum Progress {
    /// The file header was read.
    Header(FileHeader),
    /// More frames are wanted; a completed tag may have produced writes.
    Continue(Option<Step>),
    /// The stream ended at a tag boundary; the step writes out what was buffered.
    Finished(Step),
}

/// The FLV download loop as a state machine: it says how many bytes to read
/// next, takes each frame, and hands whole tags to the segmenter.
pub struct Session {
    stage: Stage,
    segment: Segment,
    segmenter: Segmenter,
    consumed: Ghost<nat>,
    taken: Ghost<Seq<TagRec>>,
}

impl Session {
    /// Bytes that the frames taken so far held.
    pub closed spec fn consumed(&self) -> nat {
        self.consumed@
    }

    /// The tags handed to the segmenter so far.
    pub closed spec fn taken(&self) -> Seq<TagRec> {
        self.taken@
    }

    pub closed spec fn segment(&self) -> Segment {
        self.segment
    }

    pub closed spec fn segmenter_state(&self) -> SegState {
        self.segmenter@
    }

    pub closed spec fn at_file_header(&self) -> bool {
        self.stage is FileHeader
    }

    pub closed spec fn at_first_trailer(&self) -> bool {
        self.stage is FirstTrailer
    }

    /// At a tag boundary, waiting for a tag header.
    pub closed spec fn at_tag_boundary(&self) -> bool {
        self.stage is TagHeader
    }

    pub closed spec fn at_body(&self) -> bool {
        self.stage is Body
    }

    pub closed spec fn at_trailer(&self) -> bool {
        self.stage is Trailer
    }

    pub closed spec fn is_done(&self) -> bool {
        self.stage is Done
    }

    pub closed spec fn is_failed(&self) -> bool {
        self.stage is Failed
    }

    /// The header of the tag being read, in the body and trailer stages.
    pub closed spec fn pending_header(&self) -> TagHeader {
        match self.stage {
            Stage::Body(h) => h,
            Stage::Trailer(h, _) => h,
            _ => arbitrary(),
        }
    }

    /// The body of the tag being read, in the trailer stage.
    pub closed spec fn pending_body(&self) -> Seq<u8> {
        match self.stage {
            Stage::Trailer(_, b) => b@,
            _ => arbitrary(),
        }
    }

    /// The frame length that each stage asks for.
    pub open spec fn wanted(&self) -> nat {
        if self.at_file_header() {
            9
        } else if self.at_first_trailer() || self.at_trailer() {
            4
        } else if self.at_tag_boundary() {
            11
        } else {
            self.pending_header().data_size as nat
        }
    }

    /// The bytes consumed match the stage, the segmenter has seen exactly the
    /// tags taken, and a pending tag is framed as far as it is read.
    pub closed spec fn wf(&self) -> bool {
        &&& !(self.stage is Done) ==> self.segmenter@ == run(self.segment, self.taken@).0
        &&& forall|i: int| 0 <= i < self.taken@.len() ==> (#[trigger] self.taken@[i]).wf()
        &&& match self.stage {
            Stage::FileHeader => self.consumed@ == 0 && self.taken@.len() == 0,
            Stage::FirstTrailer => self.consumed@ == 9 && self.taken@.len() == 0,
            Stage::TagHeader => self.consumed@ == 13 + tags_size(self.taken@),
            Stage::Done => true,
            Stage::Failed => true,
            Stage::Body(h) => h.wf() && self.consumed@ == 13 + tags_size(self.taken@) + 11,
            Stage::Trailer(h, b) => h.wf() && b@.len() == h.data_size
                && self.consumed@ == 13 + tags_size(self.taken@) + 11 + h.data_size,
        }
    }

    pub fn new(segment: Segment) -> (r: Session)
        ensures
            r.wf(),
            r.at_file_header(),
            !r.is_done(),
            !r.is_failed(),
            r.consumed() == 0,
            r.taken() == Seq::<TagRec>::empty(),
            r.segment() == segment,
    {
        Session {
            stage: Stage::FileHeader,
            segment,
            segmenter: Segmenter::new(segment),
            consumed: Ghost(0),
            taken: Ghost(Seq::empty()),
        }
    }

    /// How many bytes to read next.
    pub fn next_frame_len(&self) -> (r: usize)
        requires
            self.wf(),
            !self.is_done(),
            !self.is_failed(),
        ensures
            r == self.wanted(),
    {
        match &self.stage {
            Stage::FileHeader => 9,
            Stage::FirstTrailer => 4,
            Stage::TagHeader => 11,
            Stage::Body(h) => h.data_size as usize,
            Stage::Trailer(_, _) => 4,
            Stage::Done => 0,
            Stage::Failed => 0,
        }
    }

    /// Ends the stream after a short frame of `n` bytes: writes out what the
    /// segmenter buffered.
    fn end_of_stream(&mut self, n: Ghost<nat>) -> (r: Progress)
        requires
            old(self).segmenter@ == run(old(self).segment, old(self).taken@).0,
            forall|i: int| 0 <= i < old(self).taken@.len() ==> (#[trigger] old(self).taken@[i]).wf(),
        ensures
            r matches Progress::Finished(st) && emit_recs(st.emits@) == tag_emits(old(self).segmenter@.cache),
            final(self).segmenter@.cache.len() == 0,
            final(self).stage is Done,
            final(self).segment == old(self).segment,
            final(self).taken@ == old(self).taken@,
            final(self).consumed@ == old(self).consumed@ + n@,
            final(self).wf(),
    {
        let st = self.segmenter.finish();
        self.stage = Stage::Done;
        self.consumed = Ghost(self.consumed@ + n@);
        Progress::Finished(st)
    }

    /// Takes the frame that a read of `next_frame_len()` bytes returned; it is
    /// shorter only at the end of the stream. After the file header, a short
    /// frame (empty or not) ends the stream cleanly: the partial tag is
    /// dropped and what the segmenter buffered is written out. Bytes that do
    /// not parse are an error, after which the session takes nothing more.
    pub fn on_frame(&mut self, frame: Vec<u8>) -> (r: Result<Progress, Error>)
        requires
            old(self).wf(),
            !old(self).is_done(),
            !old(self).is_failed(),
            frame@.len() <= old(self).wanted(),
        ensures
            final(self).wf(),
            final(self).segment() == old(self).segment(),
            r is Err <==> final(self).is_failed(),
            r is Ok ==> final(self).consumed() == old(self).consumed() + frame@.len(),
            r is Ok && !(r matches Ok(Progress::Continue(Some(_)))) ==> final(self).taken() == old(self).taken(),
            r matches Ok(Progress::Finished(st)) ==> emit_recs(st.emits@) == tag_emits(old(self).segmenter_state().cache)
                && final(self).segmenter_state().cache.len() == 0 && final(self).is_done(),
            !old(self).at_file_header() && frame@.len() < old(self).wanted() ==> r matches Ok(Progress::Finished(_)),
            old(self).at_file_header() ==> {
                &&& !signature_agrees(frame@) ==> r == Err::<Progress, Error>(Error::Malformed(ParseStage::FileHeader))
                &&& signature_agrees(frame@) && frame@.len() < 9 ==>
                    r == Err::<Progress, Error>(Error::Incomplete(ParseStage::FileHeader, (9 - frame@.len()) as usize))
                &&& signature_agrees(frame@) && frame@.len() == 9 ==> (r matches Ok(Progress::Header(h))
                    && h == decode_file_header(frame@) && final(self).at_first_trailer())
            },
            old(self).at_first_trailer() && frame@.len() == 4 ==>
                (r matches Ok(Progress::Continue(None)) && final(self).at_tag_boundary()),
            old(self).at_tag_boundary() && frame@.len() == 11 ==> {
                &&& !is_tag_type_code(frame@[0]) ==> r == Err::<Progress, Error>(Error::Malformed(ParseStage::TagHeader))
                &&& is_tag_type_code(frame@[0]) ==> (r matches Ok(Progress::Continue(None))
                    && final(self).at_body() && final(self).pending_header() == decode_tag_header(frame@))
            },
            old(self).at_body() && frame@.len() == old(self).pending_header().data_size ==>
                (r matches Ok(Progress::Continue(None))
                    && final(self).at_trailer() && final(self).pending_header() == old(self).pending_header()
                    && final(self).pending_body() == frame@),
            old(self).at_trailer() && frame@.len() == 4 ==> {
                let t = TagRec { header: old(self).pending_header(), body: old(self).pending_body(), trailer: frame@ };
                &&& !t.parses() ==> r is Err
                &&& t.parses() ==> (r matches Ok(Progress::Continue(Some(st)))
                    && emit_recs(st.emits@) == step(old(self).segmenter_state(), t).1
                    && st.warnings@ == step(old(self).segmenter_state(), t).2
                    && final(self).taken() == old(self).taken().push(t)
                    && final(self).at_tag_boundary())
            },
    {
        let mut stage = Stage::Failed;
        std::mem::swap(&mut stage, &mut self.stage);
        match stage {
            Stage::FileHeader => {
                match map_parse_err(parse_file_header(frame.as_slice()), ParseStage::FileHeader) {
                    Ok((_, h)) => {
                        self.stage = Stage::FirstTrailer;
                        self.consumed = Ghost(9);
                        Ok(Progress::Header(h))
                    },
                    Err(e) => Err(e),
                }
            },
            Stage::FirstTrailer => {
                if frame.len() < 4 {
                    return Ok(self.end_of_stream(Ghost(frame@.len())));
                }
                self.stage = Stage::TagHeader;
                self.consumed = Ghost(13);
                assert(tags_size(self.taken@) == 0);
                Ok(Progress::Continue(None))
            },
            Stage::TagHeader => {
                if frame.len() < 11 {
                    return Ok(self.end_of_stream(Ghost(frame@.len())));
                }
                match map_parse_err(parse_tag_header(frame.as_slice()), ParseStage::TagHeader) {
                    Ok((_, h)) => {
                        self.stage = Stage::Body(h);
                        self.consumed = Ghost(self.consumed@ + 11);
                        Ok(Progress::Continue(None))
                    },
                    Err(e) => Err(e),
                }
            },
            Stage::Body(h) => {
                if frame.len() < h.data_size as usize {
                    return Ok(self.end_of_stream(Ghost(frame@.len())));
                }
                self.consumed = Ghost(self.consumed@ + frame@.len());
                self.stage = Stage::Trailer(h, frame);
                Ok(Progress::Continue(None))
            },
            Stage::Trailer(h, body) => {
                if frame.len() < 4 {
                    return Ok(self.end_of_stream(Ghost(frame@.len())));
                }
                let tag = RawTag { header: h, body, trailer: frame };
                let ghost t = tag@;
                match self.segmenter.push_tag(tag) {
                    Ok(st) => {
                        proof {
                            let old_taken = self.taken@;
                            let new_taken = old_taken.push(t);
                            assert(new_taken.drop_last() =~= old_taken);
                            assert(tags_size(new_taken) == tags_size(old_taken) + t.size());
                            self.taken = Ghost(new_taken);
                            self.consumed = Ghost(self.consumed@ + 4);
                            assert forall|i: int| 0 <= i < new_taken.len() implies (#[trigger] new_taken[i]).wf() by {
                                if i < old_taken.len() {
                                    assert(new_taken[i] == old_taken[i]);
                                }
                            }
                        }
                        self.stage = Stage::TagHeader;
                        Ok(Progress::Continue(Some(st)))
                    },
                    Err(e) => Err(e),
                }
            },
            Stage::Done => Err(Error::Malformed(ParseStage::TagHeader)),
            Stage::Failed => Err(Error::Malformed(ParseStage::TagHeader)),
        }
    }
}

/// Framing exactness: at every tag boundary the frames taken add up to the
/// file header, its trailer, and each tag's header, body and trailer:
/// `9 + 4 + Σ (11 + data_size + 4)`. Each tag taken is framed as announced,
/// and the segmenter is in the state that those tags lead to. The empty frame
/// that then ends the stream adds nothing (see `on_frame`).
pub proof fn lemma_framing_exactness(s: Session)
    requires
        s.wf(),
        s.at_tag_boundary(),
    ensures
        s.consumed() == 9 + 4 + tags_size(s.taken()),
        forall|i: int| 0 <= i < s.taken().len() ==> (#[trigger] s.taken()[i]).wf(),
        s.segmenter_state() == run(s.segment(), s.taken()).0,
{
}

} // verus!
