//! The default output channel: an in-memory growable byte queue.

use vstd::prelude::*;

verus! {

use crate::ReadWrite;

/// A FIFO byte stream used as the default output and error channel of a
/// shell. Bytes written to it stay queued until the host reads them back.
pub struct Stream {
    buffer: Vec<u8>,
}

impl Stream {
    /// Creates an empty stream.
    pub fn new() -> (r: Stream)
        ensures
            r.contents() == Seq::<u8>::empty(),
    {
        Stream { buffer: Vec::new() }
    }
}

impl ReadWrite for Stream {
    closed spec fn contents(&self) -> Seq<u8> {
        self.buffer@
    }

    fn write(&mut self, buf: &[u8]) -> (n: usize) {
        let mut i: usize = 0;
        let len = buf.len();
        while i < len
            invariant
                i <= len,
                len == buf@.len(),
                self.buffer@ == old(self).buffer@ + buf@.take(i as int),
            decreases len - i,
        {
            self.buffer.push(buf[i]);
            i = i + 1;
            proof {
                assert(old(self).buffer@ + buf@.take(i - 1) + seq![buf@[i - 1]]
                    =~= old(self).buffer@ + buf@.take(i as int));
            }
        }
        proof {
            assert(buf@.take(len as int) =~= buf@);
        }
        len
    }

    fn read(&mut self, count: usize) -> (r: Vec<u8>) {
        let len = self.buffer.len();
        let k = if count < len {
            count
        } else {
            len
        };
        let mut r: Vec<u8> = Vec::new();
        let mut i: usize = 0;
        while i < k
            invariant
                i <= k <= len,
                len == self.buffer@.len(),
                self.buffer@ == old(self).buffer@,
                r@ == self.buffer@.take(i as int),
            decreases k - i,
        {
            r.push(self.buffer[i]);
            i = i + 1;
            proof {
                assert(self.buffer@.take(i - 1).push(self.buffer@[i - 1])
                    =~= self.buffer@.take(i as int));
            }
        }
        let mut rest: Vec<u8> = Vec::new();
        let mut j: usize = k;
        while j < len
            invariant
                k <= j <= len,
                len == self.buffer@.len(),
                self.buffer@ == old(self).buffer@,
                rest@ == self.buffer@.subrange(k as int, j as int),
            decreases len - j,
        {
            rest.push(self.buffer[j]);
            j = j + 1;
            proof {
                assert(self.buffer@.subrange(k as int, j - 1).push(self.buffer@[j - 1])
                    =~= self.buffer@.subrange(k as int, j as int));
            }
        }
        self.buffer = rest;
        proof {
            let m = vstd::math::min(count as int, old(self).contents().len() as int);
            assert(m == k as int);
            assert(r@ =~= old(self).contents().take(m));
            assert(self.contents() =~= old(self).contents().skip(m));
        }
        r
    }

    fn flush(&mut self) {
    }
}

} // verus!
