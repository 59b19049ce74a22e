//! The bookkeeping of the chunk decompressor: where a chunk lies in the
//! source.

use vstd::prelude::*;

verus! {

/// Finds the chunks of a file in a source by the offsets that the
/// hierarchy gives; the chunk table is not read.
#[derive(Clone, Copy, Debug, PartialEq, Eq, Structural)]
pub struct CopcDecompressor {
    /// Where the file starts in the source.
    pub start: u64,
}

impl CopcDecompressor {
    /// The bookkeeping for a file that starts at `start` in the source.
    pub fn new(start: u64) -> (d: CopcDecompressor)
        ensures
            d.start == start,
    {
        CopcDecompressor { start }
    }

    /// Where the source is to be set for the chunk at an offset of the
    /// file: that far behind the start of the file. `None` where that is
    /// beyond any source.
    pub fn source_seek(&self, offset: u64) -> (r: Option<u64>)
        ensures
            r == (if self.start + offset <= u64::MAX {
                Some((self.start + offset) as u64)
            } else {
                None
            }),
    {
        if offset > u64::MAX - self.start {
            None
        } else {
            Some(self.start + offset)
        }
    }
}

} // verus!
