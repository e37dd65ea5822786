//! The pull-based byte source the scanner reads from.
//!
//! A source models a blocking readable: each read hands over the next chunk
//! of the stream, of any size up to the asked-for maximum, and an empty chunk
//! exactly at end-of-stream. `remaining` is the source's ghost content: the
//! bytes it has not yet handed over.

use vstd::prelude::*;

use crate::error::ScanError;

verus! {

/// A blocking readable source of bytes.
///
/// `read_chunk` may return fewer bytes than asked for; it returns an empty
/// chunk exactly at end-of-stream, and on failure (`Io`) hands over nothing,
/// so the stream position is unchanged and the caller may retry.
pub trait ByteSource: Sized {
    /// The bytes this source has not yet handed over.
    spec fn remaining(&self) -> Seq<u8>;

    /// Whether this source can never fail: true for in-memory sources,
    /// false for transports whose reads may error.
    spec fn infallible(&self) -> bool;

    /// Read the next chunk of the stream, at most `max` bytes.
    fn read_chunk(&mut self, max: usize) -> (r: Result<Vec<u8>, ScanError>)
        requires
            max >= 1,
        ensures
            final(self).infallible() == old(self).infallible(),
            old(self).infallible() ==> r is Ok,
            match r {
                Ok(chunk) => {
                    &&& chunk@.len() <= max
                    &&& chunk@.len() <= old(self).remaining().len()
                    &&& chunk@ == old(self).remaining().take(chunk@.len() as int)
                    &&& final(self).remaining() == old(self).remaining().skip(
                        chunk@.len() as int,
                    )
                    &&& (chunk@.len() == 0 <==> old(self).remaining().len() == 0)
                },
                Err(e) => {
                    &&& e == ScanError::Io
                    &&& final(self).remaining() == old(self).remaining()
                },
            },
    ;
}

/// A source that owns its bytes: the in-memory stand-in for an owned file or
/// socket handle.
pub struct MemSource {
    data: Vec<u8>,
    pos: usize,
}

impl MemSource {
    /// A source that will hand over exactly `data`; it never fails.
    pub fn new(data: Vec<u8>) -> (r: MemSource)
        ensures
            r.remaining() == data@,
            r.infallible(),
    {
        MemSource { data, pos: 0 }
    }
}

impl ByteSource for MemSource {
    closed spec fn remaining(&self) -> Seq<u8> {
        if self.pos <= self.data@.len() {
            self.data@.skip(self.pos as int)
        } else {
            Seq::empty()
        }
    }

    closed spec fn infallible(&self) -> bool {
        true
    }

    fn read_chunk(&mut self, max: usize) -> (r: Result<Vec<u8>, ScanError>) {
        if self.pos > self.data.len() {
            self.pos = self.data.len();
        }
        let ghost start = self.pos as int;
        let mut chunk: Vec<u8> = Vec::new();
        let mut taken: usize = 0;
        while taken < max && self.pos < self.data.len()
            invariant
                self.data@ == old(self).data@,
                0 <= start <= self.pos <= self.data@.len(),
                taken <= max,
                self.pos == start + taken,
                chunk@ =~= self.data@.subrange(start, self.pos as int),
            decreases max - taken,
        {
            proof {
                assert(self.data@.subrange(start, self.pos + 1) =~= self.data@.subrange(
                    start,
                    self.pos as int,
                ).push(self.data@[self.pos as int]));
            }
            chunk.push(self.data[self.pos]);
            self.pos = self.pos + 1;
            taken = taken + 1;
        }
        proof {
            let rem = old(self).remaining();
            assert(rem =~= self.data@.skip(start));
            assert(chunk@ =~= rem.take(chunk@.len() as int));
            assert(self.remaining() =~= rem.skip(chunk@.len() as int));
        }
        Ok(chunk)
    }
}

/// A source that borrows its bytes: the in-memory stand-in for a borrowed
/// handle. Given the same content, scanning it and scanning a `MemSource`
/// yield the same items.
pub struct BorrowedSource<'a> {
    data: &'a Vec<u8>,
    pos: usize,
}

impl<'a> BorrowedSource<'a> {
    /// A source that will hand over exactly `data`, borrowed; it never
    /// fails.
    pub fn new(data: &'a Vec<u8>) -> (r: BorrowedSource<'a>)
        ensures
            r.remaining() == data@,
            r.infallible(),
    {
        BorrowedSource { data, pos: 0 }
    }
}

impl<'a> ByteSource for BorrowedSource<'a> {
    closed spec fn remaining(&self) -> Seq<u8> {
        if self.pos <= self.data@.len() {
            self.data@.skip(self.pos as int)
        } else {
            Seq::empty()
        }
    }

    closed spec fn infallible(&self) -> bool {
        true
    }

    fn read_chunk(&mut self, max: usize) -> (r: Result<Vec<u8>, ScanError>) {
        if self.pos > self.data.len() {
            self.pos = self.data.len();
        }
        let ghost start = self.pos as int;
        let mut chunk: Vec<u8> = Vec::new();
        let mut taken: usize = 0;
        while taken < max && self.pos < self.data.len()
            invariant
                self.data@ == old(self).data@,
                0 <= start <= self.pos <= self.data@.len(),
                taken <= max,
                self.pos == start + taken,
                chunk@ =~= self.data@.subrange(start, self.pos as int),
            decreases max - taken,
        {
            proof {
                assert(self.data@.subrange(start, self.pos + 1) =~= self.data@.subrange(
                    start,
                    self.pos as int,
                ).push(self.data@[self.pos as int]));
            }
            chunk.push(self.data[self.pos]);
            self.pos = self.pos + 1;
            taken = taken + 1;
        }
        proof {
            let rem = old(self).remaining();
            assert(rem =~= self.data@.skip(start));
            assert(chunk@ =~= rem.take(chunk@.len() as int));
            assert(self.remaining() =~= rem.skip(chunk@.len() as int));
        }
        Ok(chunk)
    }
}

/// A source whose transport has failed: every read reports `Io` and hands
/// over nothing. The stand-in for a broken socket or pipe.
pub struct FailingSource;

impl ByteSource for FailingSource {
    closed spec fn remaining(&self) -> Seq<u8> {
        Seq::empty()
    }

    closed spec fn infallible(&self) -> bool {
        false
    }

    fn read_chunk(&mut self, max: usize) -> (r: Result<Vec<u8>, ScanError>) {
        Err(ScanError::Io)
    }
}

} // verus!
