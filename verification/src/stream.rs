//! The walk over the metadata section: the signature, then header after
//! header with its block, up to the block flagged as last.

use crate::block::{block_of, parse_block, Block, BlockView};
use crate::cursor::Cursor;
use crate::error::ParseError;
use crate::header::{header_of, parse_header, Header};
use vstd::math::min;
use vstd::prelude::*;

verus! {

/// The four bytes that open a stream: the letters `fLaC`.
pub open spec fn signature() -> Seq<u8> {
    seq![0x66u8, 0x4cu8, 0x61u8, 0x43u8]
}

/// Whether `source` opens with the stream signature. A source of fewer than
/// four bytes does not.
pub open spec fn has_signature(source: Seq<u8>) -> bool {
    source.len() >= 4 && source.subrange(0, 4) == signature()
}

/// How an attempt to read from a source ended: what was read, or the error,
/// and where the cursor was left.
pub struct Walk<T> {
    pub outcome: Result<T, ParseError>,
    pub position: int,
}

/// The header at offset `at` of `source` with the block behind it.
///
/// A header or a body that the source cannot supply in full is
/// `TruncatedRead`, and the cursor is then at the end of the source. In every
/// other case the cursor is left behind the body, also when the body could not
/// be decoded.
pub open spec fn block_at(source: Seq<u8>, at: int) -> Walk<(Header, BlockView)> {
    if at + 4 > source.len() {
        Walk { outcome: Err(ParseError::TruncatedRead), position: source.len() as int }
    } else {
        let header = header_of(source.subrange(at, at + 4));
        let start = at + 4;
        let end = start + header.block_length;
        if end > source.len() {
            Walk { outcome: Err(ParseError::TruncatedRead), position: source.len() as int }
        } else {
            Walk {
                outcome: match block_of(header.block_type, source.subrange(start, end)) {
                    Ok(block) => Ok((header, block)),
                    Err(e) => Err(e),
                },
                position: end,
            }
        }
    }
}

/// The blocks from offset `at` of `source` up to and including the first one
/// whose header is flagged as last, in stream order. The first read or
/// decoder that fails ends the walk with its error.
pub open spec fn blocks_from(source: Seq<u8>, at: int) -> Walk<Seq<(Header, BlockView)>>
    decreases source.len() - at,
{
    let first = block_at(source, at);
    match first.outcome {
        Err(e) => Walk { outcome: Err(e), position: first.position },
        Ok(pair) => if pair.0.last_block {
            Walk { outcome: Ok(seq![pair]), position: first.position }
        } else {
            let rest = blocks_from(source, first.position);
            Walk {
                outcome: match rest.outcome {
                    Err(e) => Err(e),
                    Ok(tail) => Ok(seq![pair] + tail),
                },
                position: rest.position,
            }
        },
    }
}

/// A list of headers and blocks, with each block as its view.
pub open spec fn pairs_view(list: Seq<(Header, Block)>) -> Seq<(Header, BlockView)> {
    list.map_values(|pair: (Header, Block)| (pair.0, pair.1@))
}

/// The number of bytes that a list of blocks takes up in a stream: four for
/// each header and the body length that the header declares.
pub open spec fn span_of(pairs: Seq<(Header, BlockView)>) -> int
    decreases pairs.len(),
{
    if pairs.len() == 0 {
        0
    } else {
        span_of(pairs.drop_last()) + 4 + pairs.last().0.block_length
    }
}

/// The metadata section of a stream, read from a byte source that the stream
/// borrows for as long as it lives. When the stream is let go, the source
/// stands where the stream's last read has left it.
#[derive(Debug)]
pub struct Stream<'a> {
    /// The byte source that the stream reads from.
    pub stream: &'a mut Cursor,
}

impl<'a> Stream<'a> {
    /// The header and block that stand at the cursor.
    pub open spec fn block_ahead(&self) -> Walk<(Header, BlockView)> {
        block_at(self.stream.bytes(), self.stream.position() as int)
    }

    /// The blocks that a walk from the cursor gives.
    pub open spec fn blocks_ahead(&self) -> Walk<Seq<(Header, BlockView)>> {
        blocks_from(self.stream.bytes(), self.stream.position() as int)
    }

    /// Opens a stream on a byte source: reads four bytes and checks that they
    /// are the signature.
    ///
    /// The result is `Ok` exactly when the bytes at the cursor are `fLaC`. The
    /// cursor then stands behind them, and the source will be what the stream
    /// has made of it by the time the stream is let go. In every other case,
    /// fewer than four bytes left included, the result is `InvalidSignature`,
    /// nothing more is read, and the bytes that were consumed stay consumed.
    pub fn new(stream: &'a mut Cursor) -> (r: Result<Stream<'a>, ParseError>)
        ensures
            r is Ok <==> has_signature(old(stream).remaining()),
            match r {
                Ok(opened) => {
                    &&& opened.stream.bytes() == old(stream).bytes()
                    &&& opened.stream.position() == old(stream).position() + 4
                    &&& *final(stream) == *final(opened.stream)
                },
                Err(e) => {
                    &&& e == ParseError::InvalidSignature
                    &&& final(stream).bytes() == old(stream).bytes()
                    &&& final(stream).position() == min(
                        old(stream).position() + 4,
                        old(stream).bytes().len() as int,
                    )
                },
            },
    {
        let ghost rest = stream.remaining();
        let magic_buf = match stream.read_exact(4) {
            Ok(taken) => taken,
            Err(_) => {
                return Err(ParseError::InvalidSignature);
            },
        };
        assert(magic_buf@ =~= rest.subrange(0, 4));
        if magic_buf[0] != 0x66 || magic_buf[1] != 0x4c || magic_buf[2] != 0x61 || magic_buf[3]
            != 0x43 {
            return Err(ParseError::InvalidSignature);
        }
        assert(magic_buf@ =~= signature());
        Ok(Stream { stream })
    }

    /// Reads one header and the block behind it.
    fn read_block(&mut self) -> (r: Result<(Header, Block), ParseError>)
        ensures
            *final(final(self).stream) == *final(old(self).stream),
            final(self).stream.bytes() == old(self).stream.bytes(),
            final(self).stream.position() == old(self).block_ahead().position,
            match r {
                Ok(pair) => old(self).block_ahead().outcome == Ok::<
                    (Header, BlockView),
                    ParseError,
                >((pair.0, pair.1@)),
                Err(e) => old(self).block_ahead().outcome == Err::<
                    (Header, BlockView),
                    ParseError,
                >(e),
            },
    {
        let meta_buf = match self.stream.read_exact(4) {
            Ok(taken) => taken,
            Err(e) => {
                return Err(e);
            },
        };
        let metadata = parse_header([meta_buf[0], meta_buf[1], meta_buf[2], meta_buf[3]]);
        assert([meta_buf[0], meta_buf[1], meta_buf[2], meta_buf[3]]@ =~= meta_buf@);
        let block_buf = match self.stream.read_exact(metadata.block_length as usize) {
            Ok(taken) => taken,
            Err(e) => {
                return Err(e);
            },
        };
        match parse_block(metadata.block_type, block_buf.as_slice()) {
            Ok(block) => Ok((metadata, block)),
            Err(e) => Err(e),
        }
    }

    /// Reads the metadata blocks from the cursor on, up to and including the
    /// first block whose header is flagged as last.
    ///
    /// The list is handed out only when the walk is complete and holds the
    /// blocks in stream order. A header or body that the source cannot supply
    /// in full, or a body that its decoder refuses, ends the walk with that
    /// error. Whatever the outcome, the cursor stands behind the last byte
    /// consumed, and no byte behind the last block's body is consumed.
    pub fn blocks(&mut self) -> (r: Result<Vec<(Header, Block)>, ParseError>)
        ensures
            *final(final(self).stream) == *final(old(self).stream),
            final(self).stream.bytes() == old(self).stream.bytes(),
            final(self).stream.position() == old(self).blocks_ahead().position,
            match r {
                Ok(list) => old(self).blocks_ahead().outcome == Ok::<
                    Seq<(Header, BlockView)>,
                    ParseError,
                >(pairs_view(list@)),
                Err(e) => old(self).blocks_ahead().outcome == Err::<
                    Seq<(Header, BlockView)>,
                    ParseError,
                >(e),
            },
            r matches Ok(list) ==> {
                &&& list@.len() >= 1
                &&& list@.last().0.last_block
                &&& forall|i: int| 0 <= i < list@.len() - 1 ==> !(#[trigger] list@[i]).0.last_block
            },
    {
        let mut blocks: Vec<(Header, Block)> = Vec::new();
        let ghost source = self.stream.bytes();
        let ghost whole = blocks_from(source, self.stream.position() as int);
        let start = self.stream.position();
        proof {
            lemma_walk_stops_at_last_block(source, start as int);
        }
        loop
            invariant
                *final(self.stream) == *final(old(self).stream),
                self.stream.bytes() == source,
                source == old(self).stream.bytes(),
                self.stream.position() <= source.len(),
                whole == blocks_from(source, old(self).stream.position() as int),
                whole.outcome matches Ok(pairs) ==> {
                    &&& pairs.len() >= 1
                    &&& pairs.last().0.last_block
                    &&& forall|i: int|
                        0 <= i < pairs.len() - 1 ==> !(#[trigger] pairs[i]).0.last_block
                },
                whole == walk_after(
                    pairs_view(blocks@),
                    blocks_from(source, self.stream.position() as int),
                ),
            decreases source.len() - self.stream.position(),
        {
            proof {
                lemma_walk_step(source, self.stream.position() as int, pairs_view(blocks@));
            }
            let (metadata, block) = match self.read_block() {
                Ok(pair) => pair,
                Err(e) => {
                    return Err(e);
                },
            };
            let last_block = metadata.last_block;
            let ghost before = blocks@;
            blocks.push((metadata, block));
            assert(pairs_view(blocks@) =~= pairs_view(before).push((metadata, block@)));
            if last_block {
                proof {
                    let pairs = pairs_view(blocks@);
                    assert forall|i: int| 0 <= i < blocks@.len() - 1 implies !(
                    #[trigger] blocks@[i]).0.last_block by {
                        assert(pairs[i].0 == blocks@[i].0);
                    }
                }
                return Ok(blocks);
            }
        }
    }
}

/// A walk stops at the first block that is flagged as last.
///
/// Wherever a walk starts, the cursor only moves forward and stays inside the
/// source. When the walk succeeds, the list is not empty, its last header is
/// the only one flagged as last, and the cursor stands exactly behind the
/// body of that block: not one byte further has been consumed.
pub proof fn lemma_walk_stops_at_last_block(source: Seq<u8>, at: int)
    requires
        0 <= at <= source.len(),
    ensures
        at <= blocks_from(source, at).position <= source.len(),
        blocks_from(source, at).outcome matches Ok(pairs) ==> {
            &&& pairs.len() >= 1
            &&& pairs.last().0.last_block
            &&& forall|i: int| 0 <= i < pairs.len() - 1 ==> !(#[trigger] pairs[i]).0.last_block
            &&& blocks_from(source, at).position == at + span_of(pairs)
        },
    decreases source.len() - at,
{
    let first = block_at(source, at);
    match first.outcome {
        Err(e) => {},
        Ok(pair) => {
            if pair.0.last_block {
                lemma_span_of_prepend(pair, Seq::empty());
            } else {
                lemma_walk_stops_at_last_block(source, first.position);
                match blocks_from(source, first.position).outcome {
                    Err(e) => {},
                    Ok(tail) => {
                        lemma_span_of_prepend(pair, tail);
                    },
                }
            }
        },
    }
}

/// The blocks come out in the order in which they stand in the source: block
/// `k` of a walk that succeeds is the block read at the offset where the
/// first `k` blocks end.
pub proof fn lemma_blocks_in_stream_order(source: Seq<u8>, at: int, k: int)
    requires
        0 <= at <= source.len(),
        blocks_from(source, at).outcome matches Ok(pairs) && 0 <= k < pairs.len(),
    ensures
        ({
            &&& blocks_from(source, at).outcome matches Ok(pairs)
            &&& block_at(source, at + span_of(pairs.take(k))).outcome == Ok::<
                (Header, BlockView),
                ParseError,
            >(pairs[k])
        }),
    decreases k,
{
    let pairs = blocks_from(source, at).outcome->Ok_0;
    let first = block_at(source, at);
    let pair = first.outcome->Ok_0;
    if k > 0 {
        let tail = blocks_from(source, first.position).outcome->Ok_0;
        lemma_blocks_in_stream_order(source, first.position, k - 1);
        assert(pairs.take(k) =~= seq![pair] + tail.take(k - 1));
        lemma_span_of_prepend(pair, tail.take(k - 1));
    }
}

/// A walk that succeeds depends on no byte behind the place where it stops:
/// two sources that agree up to that place give the same blocks and leave the
/// cursor at the same place, whatever follows in either.
pub proof fn lemma_walk_reads_no_further(source: Seq<u8>, other: Seq<u8>, at: int)
    requires
        0 <= at <= source.len(),
        blocks_from(source, at).outcome is Ok,
        other.len() >= blocks_from(source, at).position,
        other.subrange(0, blocks_from(source, at).position) == source.subrange(
            0,
            blocks_from(source, at).position,
        ),
    ensures
        blocks_from(other, at) == blocks_from(source, at),
    decreases source.len() - at,
{
    let end = blocks_from(source, at).position;
    let first = block_at(source, at);
    let next = first.position;
    let goes_on = !first.outcome->Ok_0.0.last_block;
    if goes_on {
        lemma_walk_stops_at_last_block(source, next);
    }
    assert forall|i: int| 0 <= i < end implies other[i] == source[i] by {
        assert(other.subrange(0, end)[i] == source.subrange(0, end)[i]);
    }
    assert(other.subrange(at, at + 4) =~= source.subrange(at, at + 4));
    assert(other.subrange(at + 4, next) =~= source.subrange(at + 4, next));
    if goes_on {
        lemma_walk_reads_no_further(source, other, next);
    }
}

/// What is known of the whole walk once `done` has been read and `rest` is
/// what the remainder of the source gives.
spec fn walk_after(done: Seq<(Header, BlockView)>, rest: Walk<Seq<(Header, BlockView)>>) -> Walk<
    Seq<(Header, BlockView)>,
> {
    Walk {
        outcome: match rest.outcome {
            Err(e) => Err(e),
            Ok(tail) => Ok(done + tail),
        },
        position: rest.position,
    }
}

/// Reading one more block keeps the account of the whole walk.
proof fn lemma_walk_step(source: Seq<u8>, at: int, done: Seq<(Header, BlockView)>)
    requires
        0 <= at <= source.len(),
    ensures
        match block_at(source, at).outcome {
            Err(e) => walk_after(done, blocks_from(source, at)) == (Walk {
                outcome: Err::<Seq<(Header, BlockView)>, ParseError>(e),
                position: block_at(source, at).position,
            }),
            Ok(pair) => if pair.0.last_block {
                walk_after(done, blocks_from(source, at)) == (Walk {
                    outcome: Ok::<Seq<(Header, BlockView)>, ParseError>(done.push(pair)),
                    position: block_at(source, at).position,
                })
            } else {
                walk_after(done, blocks_from(source, at)) == walk_after(
                    done.push(pair),
                    blocks_from(source, block_at(source, at).position),
                )
            },
        },
{
    let first = block_at(source, at);
    match first.outcome {
        Err(e) => {},
        Ok(pair) => {
            if pair.0.last_block {
                assert(done + seq![pair] =~= done.push(pair));
            } else {
                match blocks_from(source, first.position).outcome {
                    Err(e) => {},
                    Ok(tail) => {
                        assert(done + (seq![pair] + tail) =~= done.push(pair) + tail);
                    },
                }
            }
        },
    }
}

/// A block in front of a list adds its own header and body to the span.
proof fn lemma_span_of_prepend(pair: (Header, BlockView), tail: Seq<(Header, BlockView)>)
    ensures
        span_of(seq![pair] + tail) == 4 + pair.0.block_length + span_of(tail),
    decreases tail.len(),
{
    let all = seq![pair] + tail;
    if tail.len() == 0 {
        assert(all.drop_last() =~= Seq::empty());
        assert(span_of(Seq::empty()) == 0);
    } else {
        assert(all.drop_last() =~= seq![pair] + tail.drop_last());
        lemma_span_of_prepend(pair, tail.drop_last());
    }
}

} // verus!
