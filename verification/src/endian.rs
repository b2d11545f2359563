//! Unsigned integers as they are laid out in a stream, and the readers that
//! extract them from a byte slice.

use byteorder::{ByteOrder, BE, LE};
use vstd::prelude::*;

verus! {

/// The number that `bytes` spell with the most significant byte first.
pub open spec fn be_uint(bytes: Seq<u8>) -> nat
    decreases bytes.len(),
{
    if bytes.len() == 0 {
        0
    } else {
        256 * be_uint(bytes.drop_last()) + bytes.last() as nat
    }
}

/// The number that `bytes` spell with the least significant byte first.
pub open spec fn le_uint(bytes: Seq<u8>) -> nat
    decreases bytes.len(),
{
    if bytes.len() == 0 {
        0
    } else {
        bytes.first() as nat + 256 * le_uint(bytes.drop_first())
    }
}

/// A big-endian number written out byte by byte, for the widths that the
/// stream layout uses.
pub proof fn lemma_be_uint_unfold(s: Seq<u8>)
    ensures
        s.len() == 1 ==> be_uint(s) == s[0],
        s.len() == 2 ==> be_uint(s) == s[0] * 0x100 + s[1],
        s.len() == 3 ==> be_uint(s) == s[0] * 0x1_0000 + s[1] * 0x100 + s[2],
        s.len() == 4 ==> be_uint(s) == s[0] * 0x100_0000 + s[1] * 0x1_0000 + s[2] * 0x100 + s[3],
        s.len() == 5 ==> be_uint(s) == s[0] * 0x1_0000_0000 + s[1] * 0x100_0000 + s[2] * 0x1_0000
            + s[3] * 0x100 + s[4],
        s.len() == 8 ==> be_uint(s) == s[0] * 0x100_0000_0000_0000 + s[1] * 0x1_0000_0000_0000
            + s[2] * 0x100_0000_0000 + s[3] * 0x1_0000_0000 + s[4] * 0x100_0000 + s[5] * 0x1_0000
            + s[6] * 0x100 + s[7],
{
    reveal_with_fuel(be_uint, 9);
}

/// A little-endian number of four bytes, written out byte by byte.
pub proof fn lemma_le_uint_unfold(s: Seq<u8>)
    ensures
        s.len() == 4 ==> le_uint(s) == s[0] + s[1] * 0x100 + s[2] * 0x1_0000 + s[3] * 0x100_0000,
{
    reveal_with_fuel(le_uint, 5);
}

/// `byteorder::BigEndian::read_u16`. Trusted: the result is the big-endian
/// value of the first two bytes of `buf`. The call panics on a shorter slice,
/// which the precondition rules out.
#[verifier::external_body]
pub(crate) fn read_u16_be(buf: &[u8]) -> (value: u16)
    requires
        buf@.len() >= 2,
    ensures
        value == be_uint(buf@.subrange(0, 2)),
{
    BE::read_u16(buf)
}

/// `byteorder::BigEndian::read_u32`. Trusted: the result is the big-endian
/// value of the first four bytes of `buf`. The call panics on a shorter slice,
/// which the precondition rules out.
#[verifier::external_body]
pub(crate) fn read_u32_be(buf: &[u8]) -> (value: u32)
    requires
        buf@.len() >= 4,
    ensures
        value == be_uint(buf@.subrange(0, 4)),
{
    BE::read_u32(buf)
}

/// `byteorder::BigEndian::read_u64`. Trusted: the result is the big-endian
/// value of the first eight bytes of `buf`. The call panics on a shorter
/// slice, which the precondition rules out.
#[verifier::external_body]
pub(crate) fn read_u64_be(buf: &[u8]) -> (value: u64)
    requires
        buf@.len() >= 8,
    ensures
        value == be_uint(buf@.subrange(0, 8)),
{
    BE::read_u64(buf)
}

/// `byteorder::LittleEndian::read_u32`. Trusted: the result is the
/// little-endian value of the first four bytes of `buf`. The call panics on a
/// shorter slice, which the precondition rules out.
#[verifier::external_body]
pub(crate) fn read_u32_le(buf: &[u8]) -> (value: u32)
    requires
        buf@.len() >= 4,
    ensures
        value == le_uint(buf@.subrange(0, 4)),
{
    LE::read_u32(buf)
}

} // verus!
