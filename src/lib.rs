//! Streaming FLV demultiplexer, segmenter and rewriter.
//!
//! - `framer`: the framed reader's buffer (exact-size frames over a byte source).
//! - `flv_parser`: file header, tag header and tag body parsers.
//! - `flv_writer`: file prelude, tag header and tag serialisation, tag descriptions.
//! - `segmenter`: the state machine that holds the initialization tags,
//!   buffers from keyframe to keyframe and decides when to start a new file.
//! - `session`: the download loop as a state machine over frames.
//! - `output`: the files that a run produces, and what is proved of them.
//! - `hls`: which segments of a polled playlist are new.
//! - `error`: parser outcomes and pipeline errors.

pub mod error;
pub mod flv_parser;
pub mod flv_writer;
pub mod framer;
pub mod hls;
pub mod segmenter;
pub mod output;
pub mod session;
