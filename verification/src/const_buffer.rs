//! A byte buffer of fixed capacity that is filled piece by piece.

use vstd::prelude::*;

verus! {

/// Up to `SIZE` bytes, held inline. The bytes taken in so far are the first
/// `len` of `data`.
pub struct Buffer<const SIZE: usize> {
    pub data: [u8; SIZE],
    pub len: usize,
}

impl<const SIZE: usize> View for Buffer<SIZE> {
    type V = Seq<u8>;

    /// The bytes taken in so far, oldest first.
    open spec fn view(&self) -> Seq<u8> {
        self.data@.take(self.len as int)
    }
}

impl<const SIZE: usize> Default for Buffer<SIZE> {
    fn default() -> (buffer: Self)
        ensures
            buffer.len == 0,
            forall|i: int| 0 <= i < SIZE ==> buffer.data[i] == 0,
    {
        Self { data: [0;SIZE], len: 0 }
    }
}

impl<const SIZE: usize> Buffer<SIZE> {
    /// No more bytes are counted as taken in than the buffer can hold.
    pub open spec fn wf(&self) -> bool {
        self.len <= SIZE
    }

    /// How many of `n` offered bytes the buffer takes in: all of them, or as
    /// many as it has room for.
    pub open spec fn fitting(&self, n: nat) -> nat {
        if n <= SIZE - self.len {
            n
        } else {
            (SIZE - self.len) as nat
        }
    }

    /// Takes in as many bytes from the front of `data` as still fit, and
    /// returns the rest of `data`.
    #[inline(always)]
    pub fn consume<'a>(&mut self, data: &'a [u8]) -> (rest: &'a [u8])
        requires
            old(self).wf(),
        ensures
            final(self).wf(),
            final(self).len == old(self).len + old(self).fitting(data@.len()),
            final(self)@ == old(self)@ + data@.take(old(self).fitting(data@.len()) as int),
            forall|k: int|
                final(self).len <= k < SIZE ==> final(self).data@[k] == old(self).data@[k],
            rest@ == data@.skip(old(self).fitting(data@.len()) as int),
    {
        let room: usize = self.available();
        let actual_len: usize = if data.len() < room {
            data.len()
        } else {
            room
        };
        let (head, rest) = data.split_at(actual_len);
        let start: usize = self.len;
        let mut i: usize = 0;
        while i < actual_len
            invariant
                i <= actual_len,
                start + actual_len <= SIZE,
                self.len == start,
                head@.len() == actual_len,
                self.data@.take(start as int) == old(self).data@.take(start as int),
                self.data@.subrange(start as int, start + i) == head@.take(i as int),
                forall|k: int| start + i <= k < SIZE ==> self.data@[k] == old(self).data@[k],
            decreases actual_len - i,
        {
            self.data[start + i] = head[i];
            i += 1;
            proof {
                assert(self.data@.take(start as int) =~= old(self).data@.take(start as int));
                assert(self.data@.subrange(start as int, start + i) =~= head@.take(i as int));
            }
        }
        self.len += actual_len;
        proof {
            let n = actual_len as int;
            let joined = old(self)@ + data@.take(n);
            assert forall|k: int| 0 <= k < start + n implies self@[k] == joined[k] by {
                if k < start {
                    assert(self.data@.take(start as int)[k] == old(self).data@.take(
                        start as int,
                    )[k]);
                } else {
                    assert(self.data@.subrange(start as int, start + n)[k - start] == head@.take(
                        n,
                    )[k - start]);
                }
            }
            assert(self@ =~= joined);
        }
        rest
    }

    /// The number of bytes that still fit.
    #[inline(always)]
    pub fn available(&self) -> (room: usize)
        requires
            self.wf(),
        ensures
            room == SIZE - self.len,
    {
        SIZE - self.len
    }

    /// Whether the buffer holds as many bytes as it can.
    #[inline(always)]
    pub fn is_full(&self) -> (full: bool)
        ensures
            full == (self.len == SIZE),
    {
        self.len == SIZE
    }

    /// The storage of the buffer, of which the first `len` bytes are those
    /// taken in.
    #[inline(always)]
    pub fn data(&self) -> (bytes: &[u8; SIZE])
        ensures
            *bytes == self.data,
    {
        &self.data
    }
}

} // verus!
