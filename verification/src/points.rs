//! Sources of point records.

use crate::error::Error;
use vstd::prelude::*;

verus! {

/// A source that hands out point records one after the other.
pub trait LasPointReader {
    /// Fills the buffer with the next point record, or fails.
    fn read_next_into(&mut self, buffer: &mut [u8]) -> (r: Result<(), Error>);
}

/// Point records that are not compressed, one after the other in memory.
#[derive(Debug)]
pub struct RawPointReader {
    /// The records.
    pub src: Vec<u8>,
    /// Where the next record starts.
    pub pos: usize,
}

impl RawPointReader {
    /// The source has as many bytes left as the buffer takes.
    pub open spec fn can_fill(self, len: int) -> bool {
        self.pos + len <= self.src@.len()
    }

    /// Fills the buffer with the bytes at the position of the source, and
    /// moves the position behind them. Where the source has too few bytes
    /// left, nothing changes.
    pub fn fill(&mut self, buffer: &mut [u8]) -> (r: Result<(), Error>)
        ensures
            final(self).src == old(self).src,
            old(self).can_fill(old(buffer)@.len() as int) ==> r is Ok && final(buffer)@ == old(
                self,
            ).src@.subrange(old(self).pos as int, old(self).pos + old(buffer)@.len())
                && final(self).pos == old(self).pos + old(buffer)@.len(),
            !old(self).can_fill(old(buffer)@.len() as int) ==> r is Err && r->Err_0
                == Error::CorruptMetadata && final(buffer)@ == old(buffer)@ && final(self).pos
                == old(self).pos,
    {
        let len: usize = buffer.len();
        if self.pos > self.src.len() || self.src.len() - self.pos < len {
            return Err(Error::CorruptMetadata);
        }
        let mut i: usize = 0;
        while i < len
            invariant
                i <= len,
                buffer@.len() == len,
                self.pos + len <= self.src@.len() <= usize::MAX,
                *self == *old(self),
                forall|j: int| 0 <= j < i ==> buffer@[j] == self.src@[self.pos + j],
            decreases len - i,
        {
            buffer[i] = self.src[self.pos + i];
            i = i + 1;
        }
        assert(buffer@ =~= self.src@.subrange(self.pos as int, self.pos + len));
        self.pos = self.pos + len;
        Ok(())
    }
}

impl LasPointReader for RawPointReader {
    /// Fills the buffer with the next record of the source.
    fn read_next_into(&mut self, buffer: &mut [u8]) -> (r: Result<(), Error>)
        ensures
            final(self).src == old(self).src,
            old(self).can_fill(old(buffer)@.len() as int) ==> r is Ok && final(buffer)@ == old(
                self,
            ).src@.subrange(old(self).pos as int, old(self).pos + old(buffer)@.len())
                && final(self).pos == old(self).pos + old(buffer)@.len(),
            !old(self).can_fill(old(buffer)@.len() as int) ==> r is Err && r->Err_0
                == Error::CorruptMetadata && final(buffer)@ == old(buffer)@ && final(self).pos
                == old(self).pos,
    {
        self.fill(buffer)
    }
}

} // verus!
