//! A bounds-checked reader over the input bytes.
use vstd::prelude::*;
use crate::frame::FramingError;
use vstd::slice::slice_subrange;

verus! {

/// A position in a byte sequence, with look-ahead and advance.
pub struct ByteCursor<'a> {
    data: &'a [u8],
    pos: usize,
}

impl<'a> ByteCursor<'a> {
    /// The bytes read over.
    pub closed spec fn bytes(&self) -> Seq<u8> {
        self.data@
    }

    /// The offset of the next byte.
    pub closed spec fn spec_position(&self) -> int {
        self.pos as int
    }

    pub closed spec fn wf(&self) -> bool {
        self.pos <= self.data@.len()
    }

    /// A cursor at the start of `data`.
    pub fn new(data: &'a [u8]) -> (r: ByteCursor<'a>)
        ensures
            r.wf(),
            r.bytes() == data@,
            r.spec_position() == 0,
    {
        ByteCursor { data, pos: 0 }
    }

    /// The bytes read over.
    pub fn data(&self) -> (r: &'a [u8])
        ensures
            r@ == self.bytes(),
    {
        self.data
    }

    /// The offset of the next byte.
    pub fn position(&self) -> (r: usize)
        ensures
            r == self.spec_position(),
    {
        self.pos
    }

    /// How many bytes are left.
    pub fn remaining(&self) -> (r: usize)
        requires
            self.wf(),
        ensures
            r == self.bytes().len() - self.spec_position(),
    {
        self.data.len() - self.pos
    }

    /// The next `n` bytes, without moving; `Truncated` when fewer are left.
    pub fn peek(&self, n: usize) -> (r: Result<&'a [u8], FramingError>)
        requires
            self.wf(),
        ensures
            self.spec_position() + n <= self.bytes().len() ==> (r matches Ok(s) && s@
                == self.bytes().subrange(self.spec_position(), self.spec_position() + n)),
            self.spec_position() + n > self.bytes().len() ==> r == Err::<&'a [u8], FramingError>(
                FramingError::Truncated,
            ),
    {
        if n > self.data.len() - self.pos {
            Err(FramingError::Truncated)
        } else {
            Ok(slice_subrange(self.data, self.pos, self.pos + n))
        }
    }

    /// Moves over `n` bytes.
    pub fn advance(&mut self, n: usize)
        requires
            old(self).wf(),
            old(self).spec_position() + n <= old(self).bytes().len(),
        ensures
            final(self).wf(),
            final(self).bytes() == old(self).bytes(),
            final(self).spec_position() == old(self).spec_position() + n,
    {
        let _n = self.data.len();
        self.pos = self.pos + n;
    }
}

} // verus!
