//! Error taxonomy of the scanner.
//!
//! `Io` and `BadHeader` are fatal to a scan: the stream position can no
//! longer be trusted. `BadChecksum` and `Truncated` are recoverable: they
//! travel inside an `Unknown` item together with the offending bytes, and
//! scanning continues.

use vstd::prelude::*;

verus! {

/// Why a step of the scanner could not produce a decoded frame.
#[derive(Clone, Copy, Debug, PartialEq, Eq, Structural)]
pub enum ScanError {
    /// The source's read failed at the transport level (fatal).
    Io,
    /// The frame length could not be determined from the bytes at the head
    /// of the stream (fatal: the scanner cannot know how much to skip).
    BadHeader,
    /// The frame's size was known but its content failed to decode
    /// (recoverable: exactly the sized bytes are skipped).
    BadChecksum,
    /// The source closed in the middle of a frame (recoverable: the
    /// leftover bytes are flushed as one final item).
    Truncated,
}

} // verus!
