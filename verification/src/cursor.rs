use vstd::prelude::*;

verus! {

/// Sequential, single-pass reader over a finite in-memory byte source.
///
/// The cursor only moves forward: there is no seeking and no pushback. End of
/// input is signalled by `next_byte` returning `None`; there is no other
/// failure mode (the source bytes are already in memory).
pub struct ByteCursor {
    data: Vec<u8>,
    pos: usize,
}

impl ByteCursor {
    /// The whole underlying byte sequence, independent of the position.
    pub closed spec fn bytes(&self) -> Seq<u8> {
        self.data@
    }

    /// The current read position: the number of bytes consumed so far.
    pub closed spec fn at(&self) -> int {
        self.pos as int
    }

    /// The position never runs past the end of the data.
    pub open spec fn wf(&self) -> bool {
        0 <= self.at() <= self.bytes().len()
    }

    pub fn new(data: Vec<u8>) -> (c: Self)
        ensures
            c.bytes() == data@,
            c.at() == 0,
            c.wf(),
    {
        ByteCursor { data, pos: 0 }
    }

    /// Return the next byte and advance, or report end of input.
    pub fn next_byte(&mut self) -> (r: Option<u8>)
        requires
            old(self).wf(),
        ensures
            final(self).bytes() == old(self).bytes(),
            final(self).wf(),
            old(self).at() < old(self).bytes().len() ==> r == Some(
                old(self).bytes()[old(self).at()],
            ) && final(self).at() == old(self).at() + 1,
            old(self).at() >= old(self).bytes().len() ==> r is None && final(self).at() == old(
                self,
            ).at(),
    {
        if self.pos < self.data.len() {
            let b = self.data[self.pos];
            self.pos = self.pos + 1;
            Some(b)
        } else {
            None
        }
    }
}

} // verus!
