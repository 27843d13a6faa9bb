use vstd::prelude::*;
use crate::error::{eof_error, AsymcryptError, IoFailure};

verus! {

/// A byte source read front to back: the bytes that a transport delivered,
/// and how many of them have been consumed.
pub struct ByteSource {
    pub data: Vec<u8>,
    pub pos: usize,
}

impl ByteSource {
    pub open spec fn wf(&self) -> bool {
        self.pos <= self.data@.len()
    }

    /// The bytes not yet consumed.
    pub open spec fn rest(&self) -> Seq<u8> {
        self.data@.subrange(self.pos as int, self.data@.len() as int)
    }

    pub fn new(data: Vec<u8>) -> (r: ByteSource)
        ensures
            r.wf(),
            r.data@ == data@,
            r.pos == 0,
            r.rest() == data@,
    {
        let r = ByteSource { data, pos: 0 };
        assert(r.rest() =~= r.data@);
        r
    }

    /// How many bytes are left to read.
    pub fn remaining(&self) -> (r: usize)
        requires
            self.wf(),
        ensures
            r == self.rest().len(),
    {
        self.data.len() - self.pos
    }

    /// Reads exactly `n` bytes, or fails with an end-of-input error and
    /// consumes nothing.
    pub fn read_exact(&mut self, n: usize) -> (r: Result<Vec<u8>, AsymcryptError>)
        requires
            old(self).wf(),
        ensures
            final(self).wf(),
            final(self).data@ == old(self).data@,
            match r {
                Ok(v) => old(self).rest().len() >= n && v@ == old(self).rest().take(n as int)
                    && final(self).pos == old(self).pos + n && final(self).rest()
                    == old(self).rest().skip(n as int),
                Err(e) => old(self).rest().len() < n && e == eof_error() && final(self).pos
                    == old(self).pos,
            },
    {
        if self.data.len() - self.pos < n {
            return Err(AsymcryptError::IOError(IoFailure::UnexpectedEof));
        }
        let v = self.read_up_to(n);
        Ok(v)
    }

    /// Reads until `n` bytes have been read or the source is exhausted, and
    /// returns what was read.
    pub fn read_up_to(&mut self, n: usize) -> (r: Vec<u8>)
        requires
            old(self).wf(),
        ensures
            final(self).wf(),
            final(self).data@ == old(self).data@,
            r@.len() == if old(self).rest().len() < n {
                old(self).rest().len()
            } else {
                n as nat
            },
            r@ == old(self).rest().take(r@.len() as int),
            final(self).pos == old(self).pos + r@.len(),
            final(self).rest() == old(self).rest().skip(r@.len() as int),
    {
        let start = self.pos;
        let avail = self.data.len() - start;
        let count: usize = if avail < n {
            avail
        } else {
            n
        };
        let end = start + count;
        let mut v: Vec<u8> = Vec::new();
        let mut i: usize = start;
        while i < end
            invariant
                start <= i <= end,
                end <= self.data@.len(),
                self.pos == start,
                v@ == self.data@.subrange(start as int, i as int),
            decreases end - i,
        {
            v.push(self.data[i]);
            i = i + 1;
        }
        self.pos = end;
        assert(v@ =~= old(self).rest().take(count as int));
        assert(self.rest() =~= old(self).rest().skip(count as int));
        v
    }
}

/// Appends `b` to the sink `out`.
pub fn append_bytes(out: &mut Vec<u8>, b: &[u8])
    ensures
        final(out)@ == old(out)@ + b@,
{
    let mut i: usize = 0;
    while i < b.len()
        invariant
            i <= b@.len(),
            out@ == old(out)@ + b@.take(i as int),
        decreases b@.len() - i,
    {
        out.push(b[i]);
        i = i + 1;
        assert(b@.take(i as int) =~= b@.take(i - 1) + seq![b@[i - 1]]);
    }
    assert(b@.take(i as int) =~= b@);
}

} // verus!
