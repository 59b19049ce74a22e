//! The bookkeeping of the chunk compressor: where each chunk starts, and
//! the table of the chunks that were written.

use vstd::prelude::*;

verus! {

/// The number of bytes that are kept free, where the points start, for the
/// offset of the chunk table.
pub const TABLE_OFFSET_BYTES: u64 = 8;

/// What is written in place of the offset of the chunk table until the
/// table is written.
pub const TABLE_OFFSET_PLACEHOLDER: i64 = -1;

/// What the chunk table says of a chunk.
#[derive(Clone, Copy, Debug, PartialEq, Eq, Structural)]
pub struct ChunkTableEntry {
    /// The number of points in the chunk.
    pub point_count: u64,
    /// The number of bytes of the compressed chunk.
    pub byte_count: u64,
}

/// Keeps the chunk table while chunks of variable size are written one
/// after the other.
#[derive(Debug)]
pub struct CopcCompressor {
    /// The number of bytes of a point record.
    pub record_size: u16,
    /// Where the offset of the chunk table is kept free.
    pub start_pos: u64,
    /// Where the chunk that is written next starts.
    pub chunk_start_pos: u64,
    /// The chunks that were written.
    pub chunk_table: Vec<ChunkTableEntry>,
    /// Whether the chunk table was asked for: no chunk is taken after that.
    pub finished: bool,
}

impl CopcCompressor {
    /// A point record has bytes.
    pub open spec fn wf(self) -> bool {
        self.record_size > 0
    }

    /// The bookkeeping for points written from `start_pos` on: eight bytes
    /// are kept free there, and the first chunk starts behind them. `None`
    /// where a record has no bytes or the position leaves no room.
    pub fn new(start_pos: u64, record_size: u16) -> (r: Option<CopcCompressor>)
        ensures
            match r {
                Some(c) => {
                    &&& record_size > 0
                    &&& start_pos + 8 <= u64::MAX
                    &&& c.wf()
                    &&& c.record_size == record_size
                    &&& c.start_pos == start_pos
                    &&& c.chunk_start_pos == start_pos + 8
                    &&& c.chunk_table@.len() == 0
                    &&& !c.finished
                },
                None => record_size == 0 || start_pos + 8 > u64::MAX,
            },
    {
        if record_size == 0 || start_pos > u64::MAX - TABLE_OFFSET_BYTES {
            return None;
        }
        Some(
            CopcCompressor {
                record_size,
                start_pos,
                chunk_start_pos: start_pos + TABLE_OFFSET_BYTES,
                chunk_table: Vec::new(),
                finished: false,
            },
        )
    }

    /// The number of points in a chunk of that many bytes: the records
    /// that fit into it.
    pub fn points_in_chunk(&self, chunk_len: usize) -> (n: u64)
        requires
            self.wf(),
        ensures
            n == chunk_len as int / self.record_size as int,
    {
        (chunk_len / self.record_size as usize) as u64
    }

    /// Takes note of a chunk of `chunk_len` uncompressed bytes that was
    /// written from where the last chunk ended up to `current_pos`. Gives
    /// what the chunk table says of the chunk, and where the chunk starts.
    pub fn compress_chunk(&mut self, chunk_len: usize, current_pos: u64) -> (r: (
        ChunkTableEntry,
        u64,
    ))
        requires
            old(self).wf(),
            !old(self).finished,
            current_pos >= old(self).chunk_start_pos,
        ensures
            final(self).wf(),
            !final(self).finished,
            r.0.point_count == chunk_len as int / old(self).record_size as int,
            r.0.byte_count == current_pos - old(self).chunk_start_pos,
            r.1 == old(self).chunk_start_pos,
            final(self).chunk_start_pos == current_pos,
            final(self).chunk_table@ == old(self).chunk_table@.push(r.0),
            final(self).start_pos == old(self).start_pos,
            final(self).record_size == old(self).record_size,
    {
        let entry = ChunkTableEntry {
            point_count: self.points_in_chunk(chunk_len),
            byte_count: current_pos - self.chunk_start_pos,
        };
        self.chunk_table.push(entry);
        let chunk_start = self.chunk_start_pos;
        self.chunk_start_pos = current_pos;
        (entry, chunk_start)
    }

    /// Ends the writing of chunks, and says what is to be written then: at
    /// the position that was kept free, the position at which the chunk
    /// table starts, which is where the last chunk ended. No chunk is taken
    /// after that.
    pub fn done(&mut self) -> (r: (u64, u64))
        ensures
            r.0 == old(self).start_pos,
            r.1 == old(self).chunk_start_pos,
            *final(self) == (CopcCompressor { finished: true, ..*old(self) }),
    {
        self.finished = true;
        (self.start_pos, self.chunk_start_pos)
    }
}

} // verus!
