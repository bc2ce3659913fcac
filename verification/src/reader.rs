//! An in-memory byte stream with a read position, the source the bit reader draws from.
use crate::bite::BiterError;
use vstd::prelude::*;

verus! {

/// A byte stream held in memory, read from a position that only moves forward
/// unless it is set with [`ByteReader::seek`].
pub struct ByteReader {
    data: Vec<u8>,
    pos: u64,
}

impl ByteReader {
    /// All bytes of the stream.
    pub closed spec fn data(&self) -> Seq<u8> {
        self.data@
    }

    /// The read position, in bytes from the start of the stream.
    pub closed spec fn pos(&self) -> nat {
        self.pos as nat
    }

    /// The bytes that a read would deliver next.
    pub open spec fn rest(&self) -> Seq<u8> {
        if self.pos() < self.data().len() {
            self.data().skip(self.pos() as int)
        } else {
            Seq::empty()
        }
    }

    /// A stream holds at most as many bytes as a `usize` counts.
    pub proof fn lemma_len_bound(&self)
        ensures
            self.data().len() <= usize::MAX,
    {
        assert(self.data@.len() == self.data.len());
    }

    /// A stream over `data`, positioned at its first byte.
    pub fn new(data: Vec<u8>) -> (r: Self)
        ensures
            r.data() == data@,
            r.pos() == 0,
    {
        ByteReader { data, pos: 0 }
    }

    pub(crate) fn available(&self) -> (n: usize)
        ensures
            n == self.rest().len(),
    {
        if (self.pos as u128) < (self.data.len() as u128) {
            self.data.len() - (self.pos as usize)
        } else {
            0
        }
    }

    /// Copies as many of the next bytes as fit into `buf` (from its start) and
    /// returns how many were copied: zero only at the end of the stream or for an
    /// empty `buf`.
    pub fn read(&mut self, buf: &mut Vec<u8>) -> (n: usize)
        ensures
            n as int == if old(buf)@.len() < old(self).rest().len() {
                old(buf)@.len() as int
            } else {
                old(self).rest().len() as int
            },
            final(buf)@.len() == old(buf)@.len(),
            final(buf)@.take(n as int) == old(self).rest().take(n as int),
            final(buf)@.skip(n as int) == old(buf)@.skip(n as int),
            final(self).data() == old(self).data(),
            final(self).pos() == old(self).pos() + n,
            final(self).rest() == old(self).rest().skip(n as int),
    {
        let avail = self.available();
        let n = if buf.len() < avail {
            buf.len()
        } else {
            avail
        };
        if n == 0 {
            assert(buf@.take(0) =~= old(self).rest().take(0));
            assert(buf@.skip(0) =~= old(buf)@.skip(0));
            assert(self.rest() =~= old(self).rest().skip(0));
            return 0;
        }
        let dlen = self.data.len();
        assert(self.pos() < dlen);
        let start = self.pos as usize;
        assert(start == self.pos());
        assert(start + n <= self.data().len());
        let mut i: usize = 0;
        while i < n
            invariant
                0 <= i <= n,
                n <= buf@.len(),
                n <= avail,
                avail == self.rest().len(),
                start == self.pos(),
                start + n <= self.data().len(),
                start + n <= dlen,
                self.rest() == self.data().skip(start as int),
                buf@.len() == old(buf)@.len(),
                forall|j: int| 0 <= j < i ==> buf@[j] == self.rest()[j],
                forall|j: int| i <= j < buf@.len() ==> buf@[j] == old(buf)@[j],
                self.data() == old(self).data(),
                self.pos() == old(self).pos(),
            decreases n - i,
        {
            buf.set(i, self.data[start + i]);
            i = i + 1;
        }
        assert(buf@.take(n as int) =~= old(self).rest().take(n as int));
        assert(buf@.skip(n as int) =~= old(buf)@.skip(n as int));
        assert(start + n <= dlen);
        self.pos = (start + n) as u64;
        assert(self.rest() =~= old(self).rest().skip(n as int));
        n
    }

    /// Fills the whole of `buf` with the next bytes. When fewer bytes are left
    /// than `buf` holds, nothing is read and `EOF` is returned.
    pub fn read_exact(&mut self, buf: &mut Vec<u8>) -> (r: Result<(), BiterError>)
        ensures
            r is Ok <==> old(buf)@.len() <= old(self).rest().len(),
            r is Err ==> r == Err::<(), BiterError>(BiterError::EOF) && *final(self) == *old(self) && final(buf)@ == old(buf)@,
            r is Ok ==> final(buf)@ == old(self).rest().take(old(buf)@.len() as int)
                && final(self).data() == old(self).data() && final(self).pos() == old(self).pos()
                + old(buf)@.len() && final(self).rest() == old(self).rest().skip(
                old(buf)@.len() as int,
            ),
    {
        if buf.len() > self.available() {
            return Err(BiterError::EOF);
        }
        let n = self.read(buf);
        assert(buf@ =~= buf@.take(n as int));
        Ok(())
    }

    /// The read position.
    pub fn position(&self) -> (r: u64)
        ensures
            r == self.pos(),
    {
        self.pos
    }

    /// Moves the read position to `pos` bytes from the start (it may lie past the
    /// end, where reads deliver nothing) and returns it.
    pub fn seek(&mut self, pos: u64) -> (r: u64)
        ensures
            r == pos,
            final(self).pos() == pos,
            final(self).data() == old(self).data(),
    {
        self.pos = pos;
        pos
    }

    /// A reader over a copy of the same bytes, at the same position.
    pub fn duplicate(&self) -> (r: Self)
        ensures
            r.data() == self.data(),
            r.pos() == self.pos(),
    {
        let mut data: Vec<u8> = Vec::new();
        let mut i: usize = 0;
        while i < self.data.len()
            invariant
                i <= self.data@.len(),
                data@ == self.data@.subrange(0, i as int),
            decreases self.data@.len() - i,
        {
            data.push(self.data[i]);
            i = i + 1;
            assert(data@ =~= self.data@.subrange(0, i as int));
        }
        assert(data@ =~= self.data@);
        ByteReader { data, pos: self.pos }
    }

    /// The bytes of the stream.
    pub fn into_inner(self) -> (r: Vec<u8>)
        ensures
            r@ == self.data(),
    {
        self.data
    }
}

} // verus!
