//! A reader for the metadata section of a FLAC stream.
//!
//! The library checks the stream signature, walks the metadata block headers
//! up to the block flagged as last, and decodes the stream information and
//! comment blocks into typed values. It never decodes audio and never writes.
//!
//! A [`Stream`] is opened on a [`Cursor`], the byte source, and borrows it
//! while it reads; [`Stream::blocks`] hands out the headers and blocks in
//! stream order. The decoders of the single parts, [`parse_header`],
//! [`parse_stream_info`], [`parse_vorbis_comment`] and [`parse_block`], can be
//! used on their own.

pub mod block;
pub mod cursor;
pub mod endian;
pub mod error;
pub mod header;
pub mod stream;
pub mod stream_info;
pub mod text;
pub mod vorbis_comment;

pub use crate::block::{parse_block, Block};
pub use crate::cursor::Cursor;
pub use crate::error::ParseError;
pub use crate::header::{parse_header, Header};
pub use crate::stream::Stream;
pub use crate::stream_info::{parse_stream_info, StreamInfo};
pub use crate::vorbis_comment::{parse_vorbis_comment, VorbisComment};
