//! Text as it is stored in a comment block: UTF-8 behind a length prefix.

use crate::endian::{le_uint, read_u32_le};
use crate::error::ParseError;
use vstd::prelude::*;
use vstd::slice::slice_subrange;
use vstd::utf8::{decode_utf8, encode_utf8, encode_utf8_decode_utf8, valid_utf8};

verus! {

/// `core::str::from_utf8`. Trusted: it accepts exactly the well-formed UTF-8
/// byte strings, and the text it returns is the one that `bytes` encode.
#[verifier::external_body]
pub(crate) fn utf8_str(bytes: &[u8]) -> (text: Option<&str>)
    ensures
        text is Some <==> valid_utf8(bytes@),
        text matches Some(s) ==> encode_utf8(s@) == bytes@,
{
    match core::str::from_utf8(bytes) {
        Ok(s) => Some(s),
        Err(_) => None,
    }
}

/// The length-prefixed text that starts at offset `at` of `body`, together
/// with the offset just behind it.
///
/// The prefix is four bytes, little-endian, and counts the bytes of UTF-8
/// that follow. A prefix or a span that does not fit in `body` is
/// `OutOfRangeLength`; a span that fits but is not UTF-8 is `TextDecodeError`.
pub open spec fn text_at(body: Seq<u8>, at: int) -> Result<(Seq<char>, int), ParseError>
    recommends
        0 <= at,
{
    if at + 4 > body.len() {
        Err(ParseError::OutOfRangeLength)
    } else {
        let start = at + 4;
        let end = start + le_uint(body.subrange(at, start));
        if end > body.len() {
            Err(ParseError::OutOfRangeLength)
        } else if !valid_utf8(body.subrange(start, end)) {
            Err(ParseError::TextDecodeError)
        } else {
            Ok((decode_utf8(body.subrange(start, end)), end))
        }
    }
}

/// Reads the length-prefixed text at offset `at` of `buf`.
pub fn read_text(buf: &[u8], at: usize) -> (r: Result<(String, usize), ParseError>)
    ensures
        match r {
            Ok((text, next)) => text_at(buf@, at as int) == Ok::<(Seq<char>, int), ParseError>(
                (text@, next as int),
            ),
            Err(e) => text_at(buf@, at as int) == Err::<(Seq<char>, int), ParseError>(e),
        },
{
    if at > buf.len() || buf.len() - at < 4 {
        return Err(ParseError::OutOfRangeLength);
    }
    let start: usize = at + 4;
    let prefix = slice_subrange(buf, at, start);
    assert(prefix@.subrange(0, 4) == prefix@);
    let length = read_u32_le(prefix) as usize;
    if length > buf.len() - start {
        return Err(ParseError::OutOfRangeLength);
    }
    let end: usize = start + length;
    let span = slice_subrange(buf, start, end);
    match utf8_str(span) {
        None => Err(ParseError::TextDecodeError),
        Some(s) => {
            proof {
                encode_utf8_decode_utf8(s@);
            }
            Ok((s.to_owned(), end))
        },
    }
}

} // verus!
