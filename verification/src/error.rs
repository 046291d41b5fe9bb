use vstd::prelude::*;

verus! {

/// The ways a session operation can fail.
#[derive(Debug, Clone)]
pub enum TelnetError {
    /// A deadline elapsed; the string names the operation that was cut off.
    Timeout(String),
    /// The remote side closed the stream before any prompt matched.
    NoMoreData,
    /// No configured encoding could decode a received line; carries how many
    /// leading bytes of the line were valid UTF-8.
    ParseError(usize),
    /// A prompt or pagination pattern failed to compile; carries the pattern
    /// text.
    PatternError(String),
    /// An underlying transport failure, described in text.
    IoError(String),
}

} // verus!
