//! The comment block: a vendor string and an ordered list of text entries.

use crate::endian::{le_uint, read_u32_le};
use crate::error::ParseError;
use crate::text::{read_text, text_at};
use vstd::prelude::*;
use vstd::slice::slice_subrange;

verus! {

/// The contents of a comment block. The order of `user_comments` is the order
/// in which the entries stand in the block.
#[derive(Debug, Clone, PartialEq, Eq)]
pub struct VorbisComment {
    pub vendor_string: String,
    pub user_comments: Vec<String>,
}

/// What a [`VorbisComment`] holds, as sequences of characters.
pub struct VorbisCommentView {
    pub vendor_string: Seq<char>,
    pub user_comments: Seq<Seq<char>>,
}

/// The entries of a list of strings, each as a sequence of characters.
pub open spec fn texts_view(texts: Seq<String>) -> Seq<Seq<char>> {
    texts.map_values(|s: String| s@)
}

impl View for VorbisComment {
    type V = VorbisCommentView;

    open spec fn view(&self) -> VorbisCommentView {
        VorbisCommentView {
            vendor_string: self.vendor_string@,
            user_comments: texts_view(self.user_comments@),
        }
    }
}

/// The `count` length-prefixed entries that start at offset `at` of `body`,
/// in the order in which they are stored. The first entry that cannot be read
/// decides the error.
pub open spec fn entries_at(body: Seq<u8>, at: int, count: nat) -> Result<
    Seq<Seq<char>>,
    ParseError,
>
    decreases count,
{
    if count == 0 {
        Ok(Seq::empty())
    } else {
        match text_at(body, at) {
            Err(e) => Err(e),
            Ok((entry, next)) => match entries_at(body, next, (count - 1) as nat) {
                Err(e) => Err(e),
                Ok(rest) => Ok(seq![entry] + rest),
            },
        }
    }
}

/// The comment block that `body` encodes: the vendor string, a four-byte
/// little-endian entry count, and that many entries. Bytes behind the last
/// entry are not looked at.
pub open spec fn comment_of(body: Seq<u8>) -> Result<VorbisCommentView, ParseError> {
    match text_at(body, 0) {
        Err(e) => Err(e),
        Ok((vendor, at)) => if at + 4 > body.len() {
            Err(ParseError::OutOfRangeLength)
        } else {
            match entries_at(body, at + 4, le_uint(body.subrange(at, at + 4))) {
                Err(e) => Err(e),
                Ok(entries) => Ok(
                    VorbisCommentView { vendor_string: vendor, user_comments: entries },
                ),
            }
        },
    }
}

/// The offset behind the first `count` entries that start at offset `at` of
/// `body`, where all of them can be read.
pub open spec fn entries_end(body: Seq<u8>, at: int, count: nat) -> Result<int, ParseError>
    decreases count,
{
    if count == 0 {
        Ok(at)
    } else {
        match text_at(body, at) {
            Err(e) => Err(e),
            Ok((_, next)) => entries_end(body, next, (count - 1) as nat),
        }
    }
}

/// Decodes the body of a comment block.
///
/// All integers in this block are little-endian. The result is `Ok` exactly
/// when every length and the entry count stay inside `buf` and every span of
/// text is valid UTF-8; otherwise the first field that fails, in stream order,
/// gives the error.
pub fn parse_vorbis_comment(buf: &[u8]) -> (r: Result<VorbisComment, ParseError>)
    ensures
        match r {
            Ok(comment) => comment_of(buf@) == Ok::<VorbisCommentView, ParseError>(comment@),
            Err(e) => comment_of(buf@) == Err::<VorbisCommentView, ParseError>(e),
        },
{
    let (vendor_string, at) = match read_text(buf, 0) {
        Ok(pair) => pair,
        Err(e) => {
            return Err(e);
        },
    };
    if buf.len() - at < 4 {
        return Err(ParseError::OutOfRangeLength);
    }
    let first: usize = at + 4;
    let prefix = slice_subrange(buf, at, first);
    assert(prefix@.subrange(0, 4) == prefix@);
    let count: u32 = read_u32_le(prefix);

    let mut user_comments: Vec<String> = Vec::new();
    let mut idx: usize = first;
    let mut i: u32 = 0;
    while i < count
        invariant
            i <= count,
            idx <= buf@.len(),
            first == at + 4 <= buf@.len(),
            text_at(buf@, 0) == Ok::<(Seq<char>, int), ParseError>((vendor_string@, at as int)),
            count == le_uint(buf@.subrange(at as int, first as int)),
            entries_at(buf@, first as int, count as nat) == entries_after(
                texts_view(user_comments@),
                entries_at(buf@, idx as int, (count - i) as nat),
            ),
        decreases count - i,
    {
        proof {
            lemma_entries_step(buf@, idx as int, (count - i) as nat, texts_view(user_comments@));
        }
        let ghost before = user_comments@;
        match read_text(buf, idx) {
            Err(e) => {
                return Err(e);
            },
            Ok((comment, next)) => {
                user_comments.push(comment);
                assert(texts_view(user_comments@) =~= texts_view(before).push(comment@));
                idx = next;
            },
        }
        i += 1;
    }
    Ok(VorbisComment { vendor_string, user_comments })
}

/// A vendor length of zero gives the empty vendor string.
pub proof fn lemma_empty_vendor(body: Seq<u8>)
    requires
        body.len() >= 4,
        le_uint(body.subrange(0, 4)) == 0,
    ensures
        text_at(body, 0) == Ok::<(Seq<char>, int), ParseError>((Seq::empty(), 4)),
        comment_of(body) matches Ok(comment) ==> comment.vendor_string == Seq::<char>::empty(),
{
}

/// An entry count of zero gives the empty list of entries: a block whose
/// vendor string can be read and whose count is zero decodes, and to no
/// entry at all.
pub proof fn lemma_no_entries(body: Seq<u8>)
    requires
        ({
            &&& text_at(body, 0) matches Ok((_, at))
            &&& at + 4 <= body.len()
            &&& le_uint(body.subrange(at, at + 4)) == 0
        }),
    ensures
        ({
            &&& comment_of(body) matches Ok(comment)
            &&& text_at(body, 0) matches Ok((vendor, _))
            &&& comment.vendor_string == vendor
            &&& comment.user_comments == Seq::<Seq<char>>::empty()
        }),
{
}

/// The entries come out in the order in which they are stored: a list that
/// can be read has `count` entries, and entry `k` of it is the text that
/// stands where the first `k` entries end.
pub proof fn lemma_entries_in_stream_order(body: Seq<u8>, at: int, count: nat, k: nat)
    requires
        k < count,
        entries_at(body, at, count) is Ok,
    ensures
        ({
            &&& entries_at(body, at, count) matches Ok(entries)
            &&& entries.len() == count
            &&& entries_end(body, at, k) matches Ok(start)
            &&& text_at(body, start) matches Ok((entry, _))
            &&& entries[k as int] == entry
        }),
    decreases count,
{
    let next = text_at(body, at)->Ok_0.1;
    lemma_entries_len(body, next, (count - 1) as nat);
    if k > 0 {
        lemma_entries_in_stream_order(body, next, (count - 1) as nat, (k - 1) as nat);
    }
}

/// An entry whose declared length reaches past the end of the body makes the
/// list of entries `OutOfRangeLength`, at whatever place in the list it
/// stands: here it is entry `k` of `count`, the entries before it can be read
/// and end at the offset where its length prefix begins.
pub proof fn lemma_overlong_entry(body: Seq<u8>, at: int, count: nat, k: nat)
    requires
        k < count,
        ({
            &&& entries_end(body, at, k) matches Ok(prefix)
            &&& prefix + 4 <= body.len()
            &&& prefix + 4 + le_uint(body.subrange(prefix, prefix + 4)) > body.len()
        }),
    ensures
        entries_at(body, at, count) == Err::<Seq<Seq<char>>, ParseError>(
            ParseError::OutOfRangeLength,
        ),
    decreases k,
{
    if k > 0 {
        match text_at(body, at) {
            Err(e) => {},
            Ok((_, next)) => {
                lemma_overlong_entry(body, next, (count - 1) as nat, (k - 1) as nat);
            },
        }
    }
}

/// A comment block with an entry whose declared length reaches past the end
/// of the body is refused with `OutOfRangeLength`: the vendor string and the
/// count can be read, and entry `k` is the one that is too long.
pub proof fn lemma_overlong_entry_is_refused(body: Seq<u8>, k: nat)
    requires
        ({
            &&& text_at(body, 0) matches Ok((_, at))
            &&& at + 4 <= body.len()
            &&& k < le_uint(body.subrange(at, at + 4))
            &&& entries_end(body, at + 4, k) matches Ok(prefix)
            &&& prefix + 4 <= body.len()
            &&& prefix + 4 + le_uint(body.subrange(prefix, prefix + 4)) > body.len()
        }),
    ensures
        comment_of(body) == Err::<VorbisCommentView, ParseError>(ParseError::OutOfRangeLength),
{
    let at = text_at(body, 0)->Ok_0.1;
    lemma_overlong_entry(body, at + 4, le_uint(body.subrange(at, at + 4)), k);
}

/// What is known of the whole list once `done` has been read and `rest` is
/// what the remaining entries give.
spec fn entries_after(done: Seq<Seq<char>>, rest: Result<Seq<Seq<char>>, ParseError>) -> Result<
    Seq<Seq<char>>,
    ParseError,
> {
    match rest {
        Err(e) => Err(e),
        Ok(tail) => Ok(done + tail),
    }
}

/// Reading one more entry keeps the account of the whole list.
proof fn lemma_entries_step(body: Seq<u8>, at: int, count: nat, done: Seq<Seq<char>>)
    requires
        count > 0,
    ensures
        match text_at(body, at) {
            Err(e) => entries_after(done, entries_at(body, at, count)) == Err::<
                Seq<Seq<char>>,
                ParseError,
            >(e),
            Ok((entry, next)) => entries_after(done, entries_at(body, at, count)) == entries_after(
                done.push(entry),
                entries_at(body, next, (count - 1) as nat),
            ),
        },
{
    match text_at(body, at) {
        Err(e) => {},
        Ok((entry, next)) => {
            match entries_at(body, next, (count - 1) as nat) {
                Err(e) => {},
                Ok(rest) => {
                    assert(done + (seq![entry] + rest) =~= done.push(entry) + rest);
                },
            }
        },
    }
}

/// A list of entries that can be read has as many entries as were asked for.
proof fn lemma_entries_len(body: Seq<u8>, at: int, count: nat)
    ensures
        entries_at(body, at, count) matches Ok(entries) ==> entries.len() == count,
    decreases count,
{
    if count > 0 {
        match text_at(body, at) {
            Err(e) => {},
            Ok((_, next)) => {
                lemma_entries_len(body, next, (count - 1) as nat);
            },
        }
    }
}

} // verus!
