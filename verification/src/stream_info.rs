//! The stream information block: a fixed record of 34 bytes with packed
//! fields.

use crate::endian::{be_uint, lemma_be_uint_unfold, read_u16_be, read_u32_be, read_u64_be};
use crate::error::ParseError;
use vstd::prelude::*;
use vstd::slice::slice_subrange;

verus! {

/// The length in bytes of a stream information payload.
pub const STREAM_INFO_LEN: usize = 34;

/// The parameters of the audio stream. The fields are handed out as decoded:
/// no value is checked against a range.
#[derive(Debug, Clone, Copy, PartialEq, Eq)]
pub struct StreamInfo {
    pub minimum_block_size: u16,
    pub maximum_block_size: u16,
    pub minimum_frame_size: u32,
    pub maximum_frame_size: u32,
    pub sample_rate: u32,
    /// The raw channel indicator: bits 1 to 3 of byte 12, left in place.
    pub channels: u8,
    pub bits_per_sample: u8,
    pub total_samples: u64,
    pub md5_signature: [u8; 16],
}

/// The record that a 34-byte payload spells. All integers are big-endian.
///
/// | field | bits |
/// |---|---|
/// | `minimum_block_size` | bytes 0..2 |
/// | `maximum_block_size` | bytes 2..4 |
/// | `minimum_frame_size` | bytes 4..7 |
/// | `maximum_frame_size` | bytes 7..10 |
/// | `sample_rate` | the upper 20 bits of bytes 10..13 |
/// | `channels` | bits 1 to 3 of byte 12, unshifted |
/// | `bits_per_sample` | bit 0 of byte 12 or'ed with the upper half of byte 13, plus 1 |
/// | `total_samples` | the lower 36 bits of bytes 13..18 |
/// | `md5_signature` | bytes 18..34 |
pub open spec fn stream_info_of(body: Seq<u8>) -> StreamInfo
    recommends
        body.len() == STREAM_INFO_LEN,
{
    StreamInfo {
        minimum_block_size: be_uint(body.subrange(0, 2)) as u16,
        maximum_block_size: be_uint(body.subrange(2, 4)) as u16,
        minimum_frame_size: be_uint(body.subrange(4, 7)) as u32,
        maximum_frame_size: be_uint(body.subrange(7, 10)) as u32,
        sample_rate: (be_uint(body.subrange(10, 13)) / 16) as u32,
        channels: body[12] & 0x0e,
        bits_per_sample: (((body[12] & 0x01) | (body[13] >> 4)) + 1) as u8,
        total_samples: (be_uint(body.subrange(13, 18)) % 0x10_0000_0000) as u64,
        md5_signature: [
            body[18],
            body[19],
            body[20],
            body[21],
            body[22],
            body[23],
            body[24],
            body[25],
            body[26],
            body[27],
            body[28],
            body[29],
            body[30],
            body[31],
            body[32],
            body[33],
        ],
    }
}

/// What decoding `body` as stream information gives: the record when the
/// length is right, and `InvalidBlockSize` for every other length.
pub open spec fn stream_info_result(body: Seq<u8>) -> Result<StreamInfo, ParseError> {
    if body.len() == STREAM_INFO_LEN {
        Ok(stream_info_of(body))
    } else {
        Err(ParseError::InvalidBlockSize)
    }
}

/// The widths of the fields: every field of a record stays within the bits
/// that the layout gives it, and none of the numbers is cut short by the type
/// that holds it.
pub open spec fn within_widths(info: StreamInfo) -> bool {
    &&& info.minimum_frame_size < 0x100_0000
    &&& info.maximum_frame_size < 0x100_0000
    &&& info.sample_rate < 0x10_0000
    &&& info.channels <= 0x0e
    &&& info.channels % 2 == 0
    &&& 1 <= info.bits_per_sample <= 16
    &&& info.total_samples < 0x10_0000_0000
}

/// Every 34-byte payload gives a record within the field widths, with the
/// sizes, the rate and the sample count equal to the numbers that their bytes
/// spell and the checksum equal to the last sixteen bytes.
pub proof fn lemma_fields_within_widths(body: Seq<u8>)
    requires
        body.len() == STREAM_INFO_LEN,
    ensures
        within_widths(stream_info_of(body)),
        stream_info_of(body).minimum_block_size == be_uint(body.subrange(0, 2)),
        stream_info_of(body).maximum_block_size == be_uint(body.subrange(2, 4)),
        stream_info_of(body).minimum_frame_size == be_uint(body.subrange(4, 7)),
        stream_info_of(body).maximum_frame_size == be_uint(body.subrange(7, 10)),
        stream_info_of(body).sample_rate == be_uint(body.subrange(10, 13)) / 16,
        stream_info_of(body).total_samples == be_uint(body.subrange(13, 18)) % 0x10_0000_0000,
        stream_info_of(body).md5_signature@ == body.subrange(18, 34),
{
    lemma_be_uint_unfold(body.subrange(0, 2));
    lemma_be_uint_unfold(body.subrange(2, 4));
    lemma_be_uint_unfold(body.subrange(4, 7));
    lemma_be_uint_unfold(body.subrange(7, 10));
    lemma_be_uint_unfold(body.subrange(10, 13));
    let low = body[12];
    let high = body[13];
    assert(low & 0x0e <= 0x0e && (low & 0x0e) % 2 == 0) by (bit_vector);
    lemma_sample_width(low, high);
}

/// Dropping the lowest byte of a four-byte word leaves the number that the
/// first three bytes spell.
proof fn lemma_upper_three_bytes(body: Seq<u8>, at: int, word: u32)
    requires
        0 <= at,
        at + 4 <= body.len(),
        word == be_uint(body.subrange(at, at + 4)),
    ensures
        word >> 8 == be_uint(body.subrange(at, at + 3)),
{
    lemma_be_uint_unfold(body.subrange(at, at + 4));
    lemma_be_uint_unfold(body.subrange(at, at + 3));
    assert(word >> 8 == word / 0x100) by (bit_vector);
}

/// Dropping the lowest twelve bits of the word at offset 10 leaves the upper
/// twenty bits of bytes 10..13.
proof fn lemma_sample_rate(body: Seq<u8>, word: u32)
    requires
        body.len() >= 14,
        word == be_uint(body.subrange(10, 14)),
    ensures
        word >> 12 == be_uint(body.subrange(10, 13)) / 16,
{
    lemma_be_uint_unfold(body.subrange(10, 14));
    lemma_be_uint_unfold(body.subrange(10, 13));
    assert(word >> 12 == word / 0x1000) by (bit_vector);
}

/// Bits 24 to 59 of the eight-byte word at offset 13 are the lower 36 bits of
/// bytes 13..18.
proof fn lemma_total_samples(body: Seq<u8>, word: u64)
    requires
        body.len() >= 21,
        word == be_uint(body.subrange(13, 21)),
    ensures
        (word & 0x0fff_ffff_ff00_0000) >> 24 == be_uint(body.subrange(13, 18)) % 0x10_0000_0000,
{
    lemma_be_uint_unfold(body.subrange(13, 21));
    lemma_be_uint_unfold(body.subrange(13, 18));
    assert((word & 0x0fff_ffff_ff00_0000) >> 24 == (word / 0x100_0000) % 0x10_0000_0000)
        by (bit_vector);
}

/// The sample width is at most 16, and masking the upper half of a byte
/// before shifting it down changes nothing.
proof fn lemma_sample_width(low: u8, high: u8)
    ensures
        (high & 0xf0) >> 4 == high >> 4,
        ((low & 0x01) | (high >> 4)) < 16,
{
    assert((high & 0xf0) >> 4 == high >> 4) by (bit_vector);
    assert(((low & 0x01) | (high >> 4)) < 16) by (bit_vector);
}

/// Decodes the body of a stream information block.
///
/// A body of any length but 34 is refused with `InvalidBlockSize` before a
/// byte of it is read.
pub fn parse_stream_info(buf: &[u8]) -> (r: Result<StreamInfo, ParseError>)
    ensures
        r == stream_info_result(buf@),
        r is Ok <==> buf@.len() == STREAM_INFO_LEN,
        r matches Ok(info) ==> within_widths(info),
        r matches Err(e) ==> e == ParseError::InvalidBlockSize,
{
    if buf.len() != STREAM_INFO_LEN {
        return Err(ParseError::InvalidBlockSize);
    }
    let ghost body = buf@;
    proof {
        lemma_fields_within_widths(body);
    }
    let minimum_block_size = read_u16_be(slice_subrange(buf, 0, 2));
    let maximum_block_size = read_u16_be(slice_subrange(buf, 2, 4));
    let frame_low = read_u32_be(slice_subrange(buf, 4, 8));
    let frame_high = read_u32_be(slice_subrange(buf, 7, 11));
    let rate = read_u32_be(slice_subrange(buf, 10, 14));
    let samples = read_u64_be(slice_subrange(buf, 13, 21));
    proof {
        assert(body.subrange(0, 2).subrange(0, 2) == body.subrange(0, 2));
        assert(body.subrange(2, 4).subrange(0, 2) == body.subrange(2, 4));
        assert(body.subrange(4, 8).subrange(0, 4) == body.subrange(4, 8));
        assert(body.subrange(7, 11).subrange(0, 4) == body.subrange(7, 11));
        assert(body.subrange(10, 14).subrange(0, 4) == body.subrange(10, 14));
        assert(body.subrange(13, 21).subrange(0, 8) == body.subrange(13, 21));
        lemma_upper_three_bytes(body, 4, frame_low);
        lemma_upper_three_bytes(body, 7, frame_high);
        lemma_sample_rate(body, rate);
        lemma_total_samples(body, samples);
        lemma_sample_width(buf[12], buf[13]);
    }
    let info = StreamInfo {
        minimum_block_size,
        maximum_block_size,
        minimum_frame_size: frame_low >> 8,
        maximum_frame_size: frame_high >> 8,
        sample_rate: rate >> 12,
        channels: buf[12] & 0x0e,
        bits_per_sample: ((buf[12] & 0x01) | ((buf[13] & 0xf0) >> 4)) + 1,
        total_samples: (samples & 0x0fff_ffff_ff00_0000) >> 24,
        md5_signature: [
            buf[18],
            buf[19],
            buf[20],
            buf[21],
            buf[22],
            buf[23],
            buf[24],
            buf[25],
            buf[26],
            buf[27],
            buf[28],
            buf[29],
            buf[30],
            buf[31],
            buf[32],
            buf[33],
        ],
    };
    Ok(info)
}

} // verus!
