use vstd::prelude::*;

verus! {

/// A cursor over a byte buffer, bounded above by a limit.
///
/// `pos` is the next byte to read and `end` the first byte that may not
/// be read.  A length-delimited frame is decoded by temporarily lowering
/// `end` to the frame's last byte, so that nothing inside the frame can
/// read past it, and restoring it afterwards.
pub struct Reader {
    bytes: Vec<u8>,
    pos: usize,
    end: usize,
}

impl Reader {
    /// The whole underlying buffer.
    pub closed spec fn spec_bytes(&self) -> Seq<u8> {
        self.bytes@
    }

    /// The cursor.
    pub closed spec fn spec_pos(&self) -> int {
        self.pos as int
    }

    /// The current limit.
    pub closed spec fn spec_end(&self) -> int {
        self.end as int
    }

    pub open spec fn wf(&self) -> bool {
        0 <= self.spec_pos() <= self.spec_end() <= self.spec_bytes().len()
    }

    /// The bytes still readable under the current limit.
    pub open spec fn avail(&self) -> Seq<u8> {
        self.spec_bytes().subrange(self.spec_pos(), self.spec_end())
    }

    /// A reader over all of `bytes`.
    pub fn new(bytes: Vec<u8>) -> (r: Reader)
        ensures
            r.wf(),
            r.spec_bytes() == bytes@,
            r.spec_pos() == 0,
            r.spec_end() == bytes@.len(),
    {
        let end: usize = bytes.len();
        Reader { bytes, pos: 0, end }
    }

    /// How many bytes remain below the limit.
    pub fn remaining(&self) -> (r: usize)
        requires
            self.wf(),
        ensures
            r == self.spec_end() - self.spec_pos(),
    {
        self.end - self.pos
    }

    /// Is the reader exhausted up to its limit?
    pub fn is_exhausted(&self) -> (r: bool)
        requires
            self.wf(),
        ensures
            r == (self.spec_pos() == self.spec_end()),
    {
        self.pos == self.end
    }

    /// Reads one byte, or reports that the limit was reached.
    pub fn read_byte(&mut self) -> (r: Option<u8>)
        requires
            old(self).wf(),
        ensures
            final(self).wf(),
            final(self).spec_bytes() == old(self).spec_bytes(),
            final(self).spec_end() == old(self).spec_end(),
            old(self).spec_pos() < old(self).spec_end() ==> {
                &&& r == Some(old(self).spec_bytes()[old(self).spec_pos()])
                &&& final(self).spec_pos() == old(self).spec_pos() + 1
            },
            old(self).spec_pos() == old(self).spec_end() ==> {
                &&& r is None
                &&& final(self).spec_pos() == old(self).spec_pos()
            },
    {
        if self.pos < self.end {
            let b: u8 = self.bytes[self.pos];
            self.pos = self.pos + 1;
            Some(b)
        } else {
            None
        }
    }

    /// Moves the cursor forward by `n` bytes without looking at them.
    pub fn advance(&mut self, n: usize)
        requires
            old(self).wf(),
            n <= old(self).spec_end() - old(self).spec_pos(),
        ensures
            final(self).wf(),
            final(self).spec_bytes() == old(self).spec_bytes(),
            final(self).spec_end() == old(self).spec_end(),
            final(self).spec_pos() == old(self).spec_pos() + n,
    {
        self.pos = self.pos + n;
    }

    /// Lowers the limit to the next `len` bytes, returning the previous
    /// limit so that `pop_limit` can restore it.
    pub fn push_limit(&mut self, len: usize) -> (prev: usize)
        requires
            old(self).wf(),
            len <= old(self).spec_end() - old(self).spec_pos(),
        ensures
            final(self).wf(),
            final(self).spec_bytes() == old(self).spec_bytes(),
            final(self).spec_pos() == old(self).spec_pos(),
            final(self).spec_end() == old(self).spec_pos() + len,
            prev == old(self).spec_end(),
    {
        let prev: usize = self.end;
        self.end = self.pos + len;
        prev
    }

    /// Restores the limit saved by `push_limit` and places the cursor at
    /// the end of the inner frame, whatever was read inside it.
    pub fn pop_limit(&mut self, prev: usize)
        requires
            old(self).wf(),
            old(self).spec_end() <= prev <= old(self).spec_bytes().len(),
        ensures
            final(self).wf(),
            final(self).spec_bytes() == old(self).spec_bytes(),
            final(self).spec_pos() == old(self).spec_end(),
            final(self).spec_end() == prev,
    {
        self.pos = self.end;
        self.end = prev;
    }
}

} // verus!
