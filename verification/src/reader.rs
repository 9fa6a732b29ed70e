//! A byte-stream cursor over an in-memory buffer, the reading half of the
//! codec interface. Decoders consume bytes from the front of
//! [`Reader::remaining_bytes`].

use vstd::prelude::*;

verus! {

/// A cursor over a byte buffer. All decoders read from the current position
/// and advance it; the buffer itself never changes.
pub struct Reader {
    data: Vec<u8>,
    pos: usize,
}

impl Reader {
    /// The whole underlying buffer.
    pub closed spec fn data_seq(&self) -> Seq<u8> {
        self.data@
    }

    /// The current read position.
    pub closed spec fn position(&self) -> int {
        self.pos as int
    }

    /// Structural invariant: the position never passes the end.
    pub open spec fn wf(&self) -> bool {
        0 <= self.position() <= self.data_seq().len()
    }

    /// The bytes not yet consumed.
    pub open spec fn remaining_bytes(&self) -> Seq<u8> {
        self.data_seq().skip(self.position())
    }

    /// A fresh cursor at the start of `data`.
    pub fn new(data: Vec<u8>) -> (r: Reader)
        ensures
            r.wf(),
            r.data_seq() == data@,
            r.position() == 0,
            r.remaining_bytes() == data@,
    {
        let r = Reader { data, pos: 0 };
        assert(r.remaining_bytes() =~= r.data_seq());
        r
    }

    /// How many bytes are left to read.
    pub fn remaining_len(&self) -> (n: usize)
        requires
            self.wf(),
        ensures
            n == self.remaining_bytes().len(),
    {
        self.data.len() - self.pos
    }

    /// The current read position as a byte offset into the buffer.
    pub fn offset(&self) -> (n: usize)
        ensures
            n == self.position(),
    {
        self.pos
    }

    /// Reads one byte and advances, or reports that the buffer is exhausted.
    pub fn read_u8(&mut self) -> (r: Option<u8>)
        requires
            old(self).wf(),
        ensures
            final(self).wf(),
            final(self).data_seq() == old(self).data_seq(),
            old(self).remaining_bytes().len() == 0 ==> r is None && *final(self) == *old(self),
            old(self).remaining_bytes().len() > 0 ==> r == Some(old(self).remaining_bytes()[0])
                && final(self).position() == old(self).position() + 1,
            r is Some ==> final(self).remaining_bytes() == old(self).remaining_bytes().skip(1),
    {
        if self.pos < self.data.len() {
            let b = self.data[self.pos];
            self.pos = self.pos + 1;
            assert(self.remaining_bytes() =~= old(self).remaining_bytes().skip(1));
            Some(b)
        } else {
            None
        }
    }

    /// Reads exactly `n` bytes and advances, or reports exhaustion without
    /// consuming anything.
    pub fn read_exact(&mut self, n: usize) -> (r: Option<Vec<u8>>)
        requires
            old(self).wf(),
        ensures
            final(self).wf(),
            final(self).data_seq() == old(self).data_seq(),
            old(self).remaining_bytes().len() < n ==> r is None && *final(self) == *old(self),
            old(self).remaining_bytes().len() >= n ==> (r matches Some(v) && v@
                == old(self).remaining_bytes().take(n as int) && final(self).position() == old(
                self,
            ).position() + n && final(self).remaining_bytes() == old(self).remaining_bytes().skip(
                n as int,
            )),
    {
        if n > self.data.len() - self.pos {
            return None;
        }
        let mut v: Vec<u8> = Vec::new();
        let mut i: usize = 0;
        while i < n
            invariant
                self.wf(),
                *self == *old(self),
                i <= n,
                self.pos + n <= self.data@.len(),
                self.pos + n <= usize::MAX,
                v@ == old(self).remaining_bytes().take(i as int),
            decreases n - i,
        {
            v.push(self.data[self.pos + i]);
            i = i + 1;
            assert(v@ =~= old(self).remaining_bytes().take(i as int));
        }
        self.pos = self.pos + n;
        assert(self.remaining_bytes() =~= old(self).remaining_bytes().skip(n as int));
        Some(v)
    }

    /// Reads all remaining bytes, leaving the cursor at the end.
    pub fn read_to_end(&mut self) -> (r: Vec<u8>)
        requires
            old(self).wf(),
        ensures
            final(self).wf(),
            final(self).data_seq() == old(self).data_seq(),
            r@ == old(self).remaining_bytes(),
            final(self).remaining_bytes().len() == 0,
    {
        let n = self.data.len() - self.pos;
        let r = match self.read_exact(n) {
            Some(v) => v,
            None => Vec::new(),
        };
        assert(r@ =~= old(self).remaining_bytes());
        r
    }
}

} // verus!
