//! The kinds of metadata block and the choice of a decoder by type code.

use crate::error::ParseError;
use crate::stream_info::{parse_stream_info, stream_info_result, StreamInfo};
use crate::vorbis_comment::{comment_of, parse_vorbis_comment, VorbisComment, VorbisCommentView};
use vstd::prelude::*;

verus! {

/// A metadata block. Only stream information and comments are decoded; the
/// other kinds are recognised and their bodies dropped.
#[derive(Debug, Clone, PartialEq, Eq)]
pub enum Block {
    StreamInfo(StreamInfo),
    Padding,
    Application,
    SeekTable,
    VorbisComment(VorbisComment),
    CueSheet,
    Picture,
    /// A type code from 7 to 126, kept for diagnostics.
    Reserved(u8),
    /// A type code outside the defined range, kept for diagnostics.
    Invalid(u8),
}

/// What a [`Block`] holds, with text as sequences of characters.
pub enum BlockView {
    StreamInfo(StreamInfo),
    Padding,
    Application,
    SeekTable,
    VorbisComment(VorbisCommentView),
    CueSheet,
    Picture,
    Reserved(u8),
    Invalid(u8),
}

impl View for Block {
    type V = BlockView;

    open spec fn view(&self) -> BlockView {
        match *self {
            Block::StreamInfo(info) => BlockView::StreamInfo(info),
            Block::Padding => BlockView::Padding,
            Block::Application => BlockView::Application,
            Block::SeekTable => BlockView::SeekTable,
            Block::VorbisComment(comment) => BlockView::VorbisComment(comment@),
            Block::CueSheet => BlockView::CueSheet,
            Block::Picture => BlockView::Picture,
            Block::Reserved(code) => BlockView::Reserved(code),
            Block::Invalid(code) => BlockView::Invalid(code),
        }
    }
}

/// The block that a body of the given type code decodes to. Code 0 is stream
/// information and code 4 a comment block; codes 1, 2, 3, 5 and 6 name blocks
/// without decoded content; 7 to 126 are reserved; every other code is
/// invalid. Only the two decoded kinds can fail.
pub open spec fn block_of(block_type: u8, body: Seq<u8>) -> Result<BlockView, ParseError> {
    if block_type == 0 {
        match stream_info_result(body) {
            Ok(info) => Ok(BlockView::StreamInfo(info)),
            Err(e) => Err(e),
        }
    } else if block_type == 1 {
        Ok(BlockView::Padding)
    } else if block_type == 2 {
        Ok(BlockView::Application)
    } else if block_type == 3 {
        Ok(BlockView::SeekTable)
    } else if block_type == 4 {
        match comment_of(body) {
            Ok(comment) => Ok(BlockView::VorbisComment(comment)),
            Err(e) => Err(e),
        }
    } else if block_type == 5 {
        Ok(BlockView::CueSheet)
    } else if block_type == 6 {
        Ok(BlockView::Picture)
    } else if 7 <= block_type <= 126 {
        Ok(BlockView::Reserved(block_type))
    } else {
        Ok(BlockView::Invalid(block_type))
    }
}

/// Decodes the body of a block whose header names `block_type`.
pub fn parse_block(block_type: u8, body: &[u8]) -> (r: Result<Block, ParseError>)
    ensures
        match r {
            Ok(block) => block_of(block_type, body@) == Ok::<BlockView, ParseError>(block@),
            Err(e) => block_of(block_type, body@) == Err::<BlockView, ParseError>(e),
        },
{
    match block_type {
        0 => match parse_stream_info(body) {
            Ok(info) => Ok(Block::StreamInfo(info)),
            Err(e) => Err(e),
        },
        1 => Ok(Block::Padding),
        2 => Ok(Block::Application),
        3 => Ok(Block::SeekTable),
        4 => match parse_vorbis_comment(body) {
            Ok(comment) => Ok(Block::VorbisComment(comment)),
            Err(e) => Err(e),
        },
        5 => Ok(Block::CueSheet),
        6 => Ok(Block::Picture),
        7..=126 => Ok(Block::Reserved(block_type)),
        _ => Ok(Block::Invalid(block_type)),
    }
}

} // verus!
