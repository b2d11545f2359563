//! The byte source: bytes held in memory that are read in sequence.

use crate::error::ParseError;
use vstd::prelude::*;
use vstd::slice::{slice_subrange, slice_to_vec};

verus! {

/// A byte source with a read cursor. The cursor marks the next byte that a
/// read takes; it moves forward only and never leaves the source.
#[derive(Debug)]
pub struct Cursor {
    bytes: Vec<u8>,
    position: usize,
}

impl Cursor {
    #[verifier::type_invariant]
    spec fn cursor_in_source(&self) -> bool {
        self.position <= self.bytes@.len()
    }

    /// All the bytes of the source, read or not.
    pub closed spec fn bytes(&self) -> Seq<u8> {
        self.bytes@
    }

    /// The number of bytes consumed so far.
    pub closed spec fn spec_position(&self) -> usize {
        self.position
    }

    /// The bytes that no read has taken yet.
    pub open spec fn remaining(&self) -> Seq<u8> {
        self.bytes().subrange(self.position() as int, self.bytes().len() as int)
    }

    /// A source over `bytes` with the cursor on the first byte.
    pub fn new(bytes: Vec<u8>) -> (cursor: Cursor)
        ensures
            cursor.bytes() == bytes@,
            cursor.position() == 0,
    {
        Cursor { bytes, position: 0 }
    }

    /// The number of bytes consumed so far: the offset of the next byte that
    /// a read takes.
    #[verifier::when_used_as_spec(spec_position)]
    pub fn position(&self) -> (at: usize)
        ensures
            at == self.position(),
            at <= self.bytes().len(),
    {
        proof {
            use_type_invariant(self);
        }
        self.position
    }

    /// Takes exactly `count` bytes from the source.
    ///
    /// When fewer than `count` bytes are left the read fails with
    /// `TruncatedRead`, and what was left is consumed: the cursor then stands
    /// at the end of the source.
    pub fn read_exact(&mut self, count: usize) -> (r: Result<Vec<u8>, ParseError>)
        ensures
            final(self).bytes() == old(self).bytes(),
            old(self).position() <= final(self).position() <= old(self).bytes().len(),
            match r {
                Ok(taken) => {
                    &&& old(self).position() + count <= old(self).bytes().len()
                    &&& taken@ == old(self).bytes().subrange(
                        old(self).position() as int,
                        old(self).position() + count,
                    )
                    &&& final(self).position() == old(self).position() + count
                },
                Err(e) => {
                    &&& e == ParseError::TruncatedRead
                    &&& old(self).position() + count > old(self).bytes().len()
                    &&& final(self).position() == old(self).bytes().len()
                },
            },
    {
        proof {
            use_type_invariant(&*self);
        }
        if count > self.bytes.len() - self.position {
            self.position = self.bytes.len();
            return Err(ParseError::TruncatedRead);
        }
        let start = self.position;
        let end = start + count;
        self.position = end;
        Ok(slice_to_vec(slice_subrange(self.bytes.as_slice(), start, end)))
    }
}

} // verus!
