//! The four-byte header that precedes every metadata block.

use crate::endian::{be_uint, lemma_be_uint_unfold, read_u32_be};
use vstd::prelude::*;

verus! {

/// What a block header says of the block that follows it.
#[derive(Debug, Clone, Copy, PartialEq, Eq)]
pub struct Header {
    /// Set on the last metadata block of the stream.
    pub last_block: bool,
    /// The code of the block's type, 0 to 127.
    pub block_type: u8,
    /// The length in bytes of the block's body, below 2^24.
    pub block_length: u32,
}

/// The header that four bytes spell: bit 7 of the first byte is the flag of
/// the last block, its lower seven bits are the type code, and the other three
/// bytes are the body's length, big-endian.
pub open spec fn header_of(buf: Seq<u8>) -> Header
    recommends
        buf.len() == 4,
{
    Header {
        last_block: buf[0] >= 0x80,
        block_type: (buf[0] % 0x80) as u8,
        block_length: be_uint(buf.subrange(1, 4)) as u32,
    }
}

/// `buf` with bit 7 of its first byte set to `flag`.
pub open spec fn with_last_flag(buf: Seq<u8>, flag: bool) -> Seq<u8>
    recommends
        buf.len() == 4,
{
    buf.update(
        0,
        if flag {
            (buf[0] % 0x80 + 0x80) as u8
        } else {
            (buf[0] % 0x80) as u8
        },
    )
}

/// Decodes a block header. Every value of the four bytes is a header: there
/// is no input that is refused.
pub fn parse_header(buf: [u8; 4]) -> (header: Header)
    ensures
        header == header_of(buf@),
        header.block_type < 0x80,
        header.block_length < 0x100_0000,
{
    let word = read_u32_be(buf.as_slice());
    proof {
        assert(buf@.subrange(0, 4) == buf@);
        lemma_be_uint_unfold(buf@);
        lemma_be_uint_unfold(buf@.subrange(1, 4));
        lemma_first_byte(buf[0], word);
    }
    Header {
        last_block: (buf[0] >> 7) == 1,
        block_type: buf[0] & 0x7f,
        block_length: word & 0x00ff_ffff,
    }
}

/// The body length of a header is the lower 24 bits of the four header bytes
/// read as one big-endian number.
pub proof fn lemma_length_is_low_24_bits(buf: Seq<u8>)
    requires
        buf.len() == 4,
    ensures
        header_of(buf).block_length == be_uint(buf) % 0x100_0000,
        header_of(buf).block_length == (be_uint(buf) as u32) & 0x00ff_ffff,
{
    lemma_be_uint_unfold(buf);
    lemma_be_uint_unfold(buf.subrange(1, 4));
    lemma_first_byte(buf[0], be_uint(buf) as u32);
}

/// Setting or clearing bit 7 of the first byte changes the flag of the last
/// block and nothing else: the type code and the body length stay.
pub proof fn lemma_flag_is_independent(buf: Seq<u8>, flag: bool)
    requires
        buf.len() == 4,
    ensures
        header_of(with_last_flag(buf, flag)).last_block == flag,
        header_of(with_last_flag(buf, flag)).block_type == header_of(buf).block_type,
        header_of(with_last_flag(buf, flag)).block_length == header_of(buf).block_length,
{
    assert(with_last_flag(buf, flag).subrange(1, 4) == buf.subrange(1, 4));
}

/// Shifts and masks on the header bytes, said with comparison and remainder.
proof fn lemma_first_byte(first: u8, word: u32)
    ensures
        (first >> 7) == 1 <==> first >= 0x80,
        first & 0x7f == first % 0x80,
        word & 0x00ff_ffff == word % 0x100_0000,
{
    assert((first >> 7) == 1 <==> first >= 0x80) by (bit_vector);
    assert(first & 0x7f == first % 0x80) by (bit_vector);
    assert(word & 0x00ff_ffff == word % 0x100_0000) by (bit_vector);
}

} // verus!
