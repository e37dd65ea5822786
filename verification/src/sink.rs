//! Writing items back out as bytes.

use vstd::prelude::*;

use crate::codec::Frame;
use crate::codec::spec_encode;

verus! {

/// Ask a struct to write itself to a byte sink.
pub trait WriteInto {
    /// The exact bytes this value writes.
    spec fn encoding(&self) -> Seq<u8>;

    /// Write the struct to the writer: append exactly `encoding`, never
    /// disturbing what the writer already holds.
    fn write_into(&self, writer: &mut Vec<u8>)
        ensures
            final(writer)@ == old(writer)@ + self.encoding(),
    ;
}

impl WriteInto for Frame {
    /// A frame writes itself as its wire encoding.
    open spec fn encoding(&self) -> Seq<u8> {
        spec_encode(self@)
    }

    fn write_into(&self, writer: &mut Vec<u8>) {
        self.encode_into(writer);
    }
}

} // verus!
