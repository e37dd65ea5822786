//! The byte accumulator: an ordered FIFO byte buffer.
//!
//! Bytes read from the source are appended at the tail; consumed or discarded
//! bytes are removed from the head by advancing a head index, so a drain
//! costs only the bytes it hands back. The whole content can be inspected as
//! one contiguous window; presenting it compacts the storage when (and only
//! when) bytes have been drained since the last inspection, which keeps the
//! head removal O(1) amortized.

use vstd::prelude::*;

verus! {

/// An ordered FIFO byte buffer. It holds exactly the bytes read from the
/// source but not yet attributed to a completed or discarded frame: the
/// bytes of `data` from `head` onward.
pub struct Accumulator {
    data: Vec<u8>,
    head: usize,
}

impl View for Accumulator {
    type V = Seq<u8>;

    closed spec fn view(&self) -> Seq<u8> {
        if self.head <= self.data@.len() {
            self.data@.skip(self.head as int)
        } else {
            Seq::empty()
        }
    }
}

impl Accumulator {
    /// A new, empty accumulator.
    pub fn new() -> (r: Accumulator)
        ensures
            r@ =~= Seq::<u8>::empty(),
    {
        Accumulator { data: Vec::new(), head: 0 }
    }

    /// A new, empty accumulator, pre-sized to hold `capacity` bytes. The
    /// capacity is a performance hint only; the buffer grows past it when a
    /// frame needs more.
    pub fn with_capacity(capacity: usize) -> (r: Accumulator)
        ensures
            r@ =~= Seq::<u8>::empty(),
    {
        Accumulator { data: Vec::with_capacity(capacity), head: 0 }
    }

    /// The number of buffered bytes.
    pub fn len(&self) -> (r: usize)
        ensures
            r == self@.len(),
    {
        if self.head >= self.data.len() {
            0
        } else {
            self.data.len() - self.head
        }
    }

    /// Whether no bytes are buffered.
    pub fn is_empty(&self) -> (r: bool)
        ensures
            r == (self@.len() == 0),
    {
        self.head >= self.data.len()
    }

    /// Extend the tail with `bytes`.
    pub fn append(&mut self, bytes: &Vec<u8>)
        ensures
            final(self)@ =~= old(self)@ + bytes@,
    {
        if self.head > self.data.len() {
            self.head = self.data.len();
        }
        let ghost head = self.head as int;
        let mut i: usize = 0;
        while i < bytes.len()
            invariant
                i <= bytes@.len(),
                0 <= head <= self.data@.len(),
                self.head == head,
                self.data@ =~= old(self).data@ + bytes@.take(i as int),
            decreases bytes@.len() - i,
        {
            self.data.push(bytes[i]);
            proof {
                assert(bytes@.take(i + 1) =~= bytes@.take(i as int).push(bytes@[i as int]));
            }
            i = i + 1;
        }
        proof {
            assert(bytes@.take(bytes@.len() as int) =~= bytes@);
            assert(self.data@.skip(head) =~= old(self)@ + bytes@);
        }
    }

    /// The entire buffered content as one contiguous window, reorganizing
    /// internal storage if bytes have been drained from the head since the
    /// last inspection; already-contiguous content is handed back as is.
    pub fn contiguous_view(&mut self) -> (r: &Vec<u8>)
        ensures
            final(self)@ == old(self)@,
            r@ == old(self)@,
    {
        if self.head > self.data.len() {
            self.head = self.data.len();
        }
        if self.head > 0 {
            let ghost head = self.head as int;
            let mut compact: Vec<u8> = Vec::new();
            let mut i: usize = self.head;
            while i < self.data.len()
                invariant
                    0 <= head <= i <= self.data@.len(),
                    self.data@ == old(self).data@,
                    self.head == head,
                    compact@ =~= self.data@.subrange(head, i as int),
                decreases self.data@.len() - i,
            {
                proof {
                    assert(self.data@.subrange(head, i + 1) =~= self.data@.subrange(
                        head,
                        i as int,
                    ).push(self.data@[i as int]));
                }
                compact.push(self.data[i]);
                i = i + 1;
            }
            proof {
                assert(self.data@.subrange(head, self.data@.len() as int) =~= self.data@.skip(
                    head,
                ));
                assert(compact@ =~= old(self)@);
            }
            self.data = compact;
            self.head = 0;
        }
        proof {
            assert(self.data@.skip(0) =~= self.data@);
        }
        &self.data
    }

    /// Remove the first `n` bytes and return them; the caller must not ask
    /// for more bytes than are buffered. Costs only the `n` bytes handed
    /// back: the remainder stays in place behind an advanced head index.
    pub fn drain_prefix(&mut self, n: usize) -> (r: Vec<u8>)
        requires
            n <= old(self)@.len(),
        ensures
            r@ =~= old(self)@.take(n as int),
            final(self)@ =~= old(self)@.skip(n as int),
    {
        if self.head > self.data.len() {
            self.head = self.data.len();
        }
        let ghost head = self.head as int;
        let dlen: usize = self.data.len();
        let mut front: Vec<u8> = Vec::new();
        let mut i: usize = 0;
        let mut j: usize = self.head;
        while i < n
            invariant
                i <= n,
                self.head == head,
                0 <= head,
                j == head + i,
                self.data@.len() == dlen,
                head + n <= self.data@.len(),
                self.data@ == old(self).data@,
                front@ =~= self.data@.subrange(head, head + i),
            decreases n - i,
        {
            proof {
                assert(self.data@.subrange(head, head + i + 1) =~= self.data@.subrange(
                    head,
                    head + i,
                ).push(self.data@[head + i]));
            }
            front.push(self.data[j]);
            i = i + 1;
            j = j + 1;
        }
        self.head = self.head + n;
        proof {
            assert(front@ =~= old(self)@.take(n as int));
            assert(self.data@.skip(head + n) =~= old(self)@.skip(n as int));
        }
        front
    }
}

} // verus!
