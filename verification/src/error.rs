//! The ways in which reading a metadata section can fail.

use vstd::prelude::*;

verus! {

/// Why a parse was abandoned. Every failure ends the whole parse: no partial
/// list of blocks is ever handed out.
#[derive(Debug, Clone, Copy, PartialEq, Eq, Structural)]
pub enum ParseError {
    /// The source does not begin with the four signature bytes.
    InvalidSignature,
    /// The source ended before a header or a declared payload was complete.
    TruncatedRead,
    /// A stream information payload is not exactly 34 bytes long.
    InvalidBlockSize,
    /// A declared span of text is not valid UTF-8.
    TextDecodeError,
    /// A length or count inside a comment block reaches past the block's body.
    OutOfRangeLength,
}

} // verus!
