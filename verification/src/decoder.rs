//! A push-style decoder over plain values, for callers that do their own
//! reading: feed byte chunks in, poll items out.
//!
//! [`Scanner`] pulls from a [`ByteSource`]; this type inverts the control so
//! that ordinary I/O loops can read a chunk, feed it, and drain whatever
//! items became ready — the incremental behaviour of the scanner without the
//! source trait.
//!
//! [`Scanner`]: crate::scanner::Scanner
//! [`ByteSource`]: crate::source::ByteSource

use vstd::prelude::*;

use crate::accumulator::Accumulator;
use crate::codec;
use crate::error::ScanError;
use crate::scanner::needs_more;
use crate::scanner::spec_step;
use crate::scanner::ScannedItem;
use crate::scanner::Step;

verus! {

/// What one poll of the decoder produced.
#[derive(Debug)]
pub enum Poll {
    /// The buffered bytes do not yet decide a step: feed more, or call
    /// [`StreamDecoder::finish`] at end-of-stream.
    NeedMore,
    /// One item was produced.
    Item(ScannedItem),
    /// The head of the buffer cannot be sized: the stream is fatally broken.
    Fatal(ScanError),
}

/// An incremental decoder fed by the caller.
pub struct StreamDecoder {
    buffer: Accumulator,
}

impl StreamDecoder {
    /// The fed bytes not yet attributed to an item.
    pub closed spec fn buffered(self) -> Seq<u8> {
        self.buffer@
    }

    /// A new decoder with nothing buffered.
    pub fn new() -> (r: StreamDecoder)
        ensures
            r.buffered() =~= Seq::<u8>::empty(),
    {
        StreamDecoder { buffer: Accumulator::new() }
    }

    /// Hand the decoder the next chunk of the stream.
    pub fn feed(&mut self, bytes: &Vec<u8>)
        ensures
            final(self).buffered() =~= old(self).buffered() + bytes@,
    {
        self.buffer.append(bytes);
    }

    /// Produce one item from the buffered bytes if they decide a step:
    /// exactly [`spec_step`] of the buffer, except that a buffer short of
    /// its announced byte count asks for more instead of flushing.
    pub fn poll(&mut self) -> (r: Poll)
        ensures
            ({
                let b = old(self).buffered();
                match r {
                    Poll::NeedMore => needs_more(b) && final(self).buffered() == b,
                    Poll::Fatal(e) => e == ScanError::BadHeader && spec_step(b)
                        == Step::BadHeader && final(self).buffered() == b,
                    Poll::Item(item) => match spec_step(b) {
                        Step::Decoded { payload, used } => item matches ScannedItem::Event(f)
                            && f@ == payload && final(self).buffered() == b.skip(used as int),
                        Step::Skip { count, error } => item matches ScannedItem::Unknown(raw, e)
                            && raw@ == b.take(count as int) && e == error && error
                            == ScanError::BadChecksum && final(self).buffered() == b.skip(
                            count as int,
                        ),
                        _ => false,
                    },
                }
            }),
    {
        let required = match codec::required_bytes(self.buffer.contiguous_view()) {
            Ok(v) => v,
            Err(e) => {
                return Poll::Fatal(e);
            },
        };
        if self.buffer.len() < required {
            return Poll::NeedMore;
        }
        match codec::decode(self.buffer.contiguous_view()) {
            Ok((frame, used)) => {
                self.buffer.drain_prefix(used);
                Poll::Item(ScannedItem::Event(frame))
            },
            Err(e) => {
                let n = match codec::required_bytes(self.buffer.contiguous_view()) {
                    Ok(v) => v,
                    Err(_) => 1,
                };
                let raw = self.buffer.drain_prefix(n);
                Poll::Item(ScannedItem::Unknown(raw, e))
            },
        }
    }

    /// The stream has ended: flush the buffered bytes, if any, as one final
    /// `Unknown` item with a `Truncated` cause.
    pub fn finish(&mut self) -> (r: Option<ScannedItem>)
        ensures
            final(self).buffered().len() == 0,
            ({
                let b = old(self).buffered();
                match r {
                    None => b.len() == 0,
                    Some(item) => b.len() > 0 && (item matches ScannedItem::Unknown(raw, e)
                        && raw@ == b && e == ScanError::Truncated),
                }
            }),
    {
        if self.buffer.is_empty() {
            return None;
        }
        let blen = self.buffer.len();
        let raw = self.buffer.drain_prefix(blen);
        proof {
            assert(raw@ =~= old(self).buffered());
        }
        Some(ScannedItem::Unknown(raw, ScanError::Truncated))
    }
}

} // verus!
