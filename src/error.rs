use vstd::prelude::*;

verus! {

/// The part of the FLV grammar that a parse failure was reported for.
#[derive(Clone, Copy, Debug, PartialEq, Eq, Structural)]
pub enum ParseStage {
    FileHeader,
    TagHeader,
    TagData,
    AacHeader,
    AvcHeader,
    ScriptData,
}

/// Outcome of a parser that could not produce a value.
#[derive(Clone, Copy, Debug, PartialEq, Eq, Structural)]
pub enum ParseError {
    /// The input ended early; at least this many more bytes are needed.
    Incomplete(usize),
    /// The bytes can never form a valid value, whatever follows.
    Malformed,
}

/// Fatal errors of the FLV pipeline.
#[derive(Clone, Copy, Debug, PartialEq, Eq, Structural)]
pub enum Error {
    /// A parser asked for more bytes than the framed read supplied.
    Incomplete(ParseStage, usize),
    /// A parser met bytes that the format does not allow.
    Malformed(ParseStage),
}

/// Lifts a parser outcome into the pipeline's error type, naming the stage.
pub fn map_parse_err<'a, T>(i_result: Result<(&'a [u8], T), ParseError>, stage: ParseStage) -> (r: Result<(&'a [u8], T), Error>)
    ensures
        match i_result {
            Ok(v) => r == Ok::<(&'a [u8], T), Error>(v),
            Err(ParseError::Incomplete(n)) => r == Err::<(&'a [u8], T), Error>(Error::Incomplete(stage, n)),
            Err(ParseError::Malformed) => r == Err::<(&'a [u8], T), Error>(Error::Malformed(stage)),
        },
{
    match i_result {
        Ok(v) => Ok(v),
        Err(ParseError::Incomplete(n)) => Err(Error::Incomplete(stage, n)),
        Err(ParseError::Malformed) => Err(Error::Malformed(stage)),
    }
}

} // verus!
