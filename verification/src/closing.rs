//! Closing a file: the chunks that are still open, the entries of the
//! hierarchy, and what is written last.

use crate::double::Double;
use crate::error::Error;
use crate::header::Header;
use crate::hierarchy::{distinct_keys, entries_bytes, has_entry, plain, sum_counts, Entry};
use crate::info::CopcInfo;
use crate::key::VoxelKey;
use crate::octree::{count_in, NodeState};
use crate::placing::{lemma_sum_points_update, lemma_sum_points_zero, same_setup};
use crate::query::{leads, parent};
use crate::vlr::{padded, Vlr, EVLR_HEADER_BYTES};
use crate::writer::{chunk_fits, node_fits, sum_points, CopcWriter, OpenChunk, Ticket};
use vstd::prelude::*;
use vstd::string::StringSliceAdditionalSpecFns;

verus! {

/// One more entry counts its points more.
pub proof fn lemma_sum_counts_push(entries: Seq<Entry>, entry: Entry)
    ensures
        sum_counts(entries.push(entry)) == sum_counts(entries) + entry.point_count,
{
    assert(entries.push(entry).drop_last() =~= entries);
}

/// The first chunk from `from` on that holds points; the number of chunks
/// where there is none.
pub open spec fn next_filled(open: Seq<OpenChunk>, from: int) -> int
    decreases open.len() - from,
{
    if from >= open.len() {
        open.len() as int
    } else if open[from].points > 0 {
        from
    } else {
        next_filled(open, from + 1)
    }
}

/// What closes a file.
#[derive(Debug)]
pub struct Closing {
    /// The hierarchy, to be written as the first extended record.
    pub hierarchy: Vlr,
    /// The COPC info, to be written over the first record.
    pub info: Vlr,
}

impl CopcWriter {
    /// Takes note that the chunk that was handed out last was written, up
    /// to the position `current_pos` of the file: the hierarchy gets an
    /// entry for the chunk, which starts where the chunk before it ended. A
    /// chunk of more compressed bytes than an entry can say is refused, and
    /// goes on waiting.
    pub fn chunk_written(&mut self, current_pos: u64) -> (r: Result<Entry, Error>)
        requires
            old(self).wf(),
            old(self).pending is Some,
            !old(self).compressor.finished,
            current_pos >= old(self).compressor.chunk_start_pos,
        ensures
            final(self).wf(),
            current_pos - old(self).compressor.chunk_start_pos > i32::MAX ==> r is Err && r->Err_0
                == Error::InvalidNodeSize && *final(self) == *old(self),
            current_pos - old(self).compressor.chunk_start_pos <= i32::MAX ==> {
                &&& r is Ok
                &&& r->Ok_0 == (Entry {
                    key: old(self).pending->0.key,
                    offset: old(self).compressor.chunk_start_pos,
                    byte_size: (current_pos - old(self).compressor.chunk_start_pos) as i32,
                    point_count: old(self).pending->0.points,
                })
                &&& final(self).hierarchy.entries@ == old(self).hierarchy.entries@.push(r->Ok_0)
                &&& final(self).idle()
                &&& !final(self).compressor.finished
                &&& final(self).compressor.chunk_start_pos == current_pos
                &&& final(self).compressor.chunk_table@ == old(self).compressor.chunk_table@.push(
                    crate::compressor::ChunkTableEntry {
                        point_count: old(self).pending->0.points as u64,
                        byte_count: (current_pos - old(self).compressor.chunk_start_pos) as u64,
                    },
                )
                &&& same_setup(*old(self), *final(self))
                &&& final(self).is_closed == old(self).is_closed
                &&& final(self).header == old(self).header
                &&& final(self).copc_info == old(self).copc_info
                &&& final(self).nodes@ == old(self).nodes@.insert(
                    old(self).pending->0.key,
                    NodeState { written: true, ..old(self).nodes@[old(self).pending->0.key] },
                )
                &&& final(self).open == old(self).open
                &&& final(self).draining == old(self).draining
                &&& final(self).drained == old(self).drained
                &&& final(self).strategy == old(self).strategy
                &&& final(self).offered == old(self).offered
                &&& final(self).fault == old(self).fault
            },
    {
        if current_pos - self.compressor.chunk_start_pos > i32::MAX as u64 {
            return Err(Error::InvalidNodeSize);
        }
        let ticket = match self.pending {
            Some(t) => t,
            None => {
                return Err(Error::InvalidNodeSize);
            },
        };
        let state = match self.nodes.get(&ticket.key) {
            Some(state) => state,
            None => {
                return Err(Error::InvalidNodeSize);
            },
        };
        proof {
            let size = self.compressor.record_size as int;
            assert((ticket.points * size) / size == ticket.points) by (nonlinear_arith)
                requires
                    size > 0,
            ;
        }
        let (noted, offset) = self.compressor.compress_chunk(ticket.bytes, current_pos);
        let entry = Entry {
            key: ticket.key,
            offset,
            byte_size: noted.byte_count as i32,
            point_count: noted.point_count as i32,
        };
        self.hierarchy.entries.push(entry);
        self.nodes.insert(&ticket.key, NodeState { written: true, ..state });
        self.pending = None;
        proof {
            let entries = self.hierarchy.entries@;
            let before = old(self).hierarchy.entries@;
            lemma_sum_counts_push(before, entry);
            assert(entries[before.len() as int].key == ticket.key);
            assert forall|k: VoxelKey| #[trigger] self.nodes@.contains_key(k) implies node_fits(
                self.nodes@,
                self.open@,
                entries,
                self.draining,
                self.max_node_size as int,
                k,
            ) by {
                assert(old(self).nodes@.contains_key(k));
                assert(old(self).node_ok(k));
                if old(self).nodes@[k].written {
                    let i = choose|i: int| 0 <= i < before.len() && (#[trigger] before[i]).key == k;
                    assert(entries[i].key == k);
                }
            }
            assert forall|i: int| 0 <= i < self.open@.len() implies chunk_fits(
                self.nodes@,
                self.compressor.record_size as int,
                #[trigger] self.open@[i],
                i,
            ) by {
                assert(old(self).chunk_ok(i));
            }
            assert forall|i: int| 0 <= i < entries.len() implies self.nodes@.contains_key(
                (#[trigger] entries[i]).key,
            ) && self.nodes@[entries[i].key].written by {
                if i < before.len() {
                    assert(entries[i] == before[i]);
                }
            }
            assert forall|i: int, j: int| 0 <= i < j < entries.len() implies (
            #[trigger] entries[i]).key != (#[trigger] entries[j]).key by {
                assert(entries[i] == before[i]);
                if j < before.len() {
                    assert(entries[j] == before[j]);
                } else {
                    assert(old(self).nodes@[before[i].key].written);
                }
            }
        }
        Ok(entry)
    }

    /// Hands out the next open chunk that holds points, for the file to be
    /// closed. A closed writer and a writer without points have none. When
    /// `None` comes back, no open chunk holds a point any more.
    pub fn drain(&mut self) -> (r: Result<Option<OpenChunk>, Error>)
        requires
            old(self).wf(),
            old(self).idle(),
        ensures
            final(self).wf(),
            old(self).is_closed ==> r is Err && r->Err_0 == Error::ClosedWriter && *final(self)
                == *old(self),
            !old(self).is_closed && old(self).header.number_of_points < 1 ==> r is Err && r->Err_0
                == Error::EmptyCopcFile && *final(self) == *old(self),
            !old(self).is_closed && old(self).header.number_of_points >= 1 ==> {
                let at = next_filled(old(self).open@, old(self).drained as int);
                &&& r is Ok
                &&& same_setup(*old(self), *final(self))
                &&& final(self).is_closed == old(self).is_closed
                &&& final(self).draining
                &&& final(self).header == old(self).header
                &&& final(self).copc_info == old(self).copc_info
                &&& final(self).hierarchy == old(self).hierarchy
                &&& final(self).compressor == old(self).compressor
                &&& final(self).nodes == old(self).nodes
                &&& final(self).strategy == old(self).strategy
                &&& final(self).offered == old(self).offered
                &&& final(self).fault == old(self).fault
                &&& at == old(self).open@.len() ==> {
                    &&& r->Ok_0 is None
                    &&& final(self).idle()
                    &&& final(self).open == old(self).open
                    &&& final(self).drained == at
                    &&& sum_points(final(self).open@) == 0
                }
                &&& at < old(self).open@.len() ==> {
                    &&& r->Ok_0 is Some
                    &&& r->Ok_0->0.key == old(self).open@[at].key
                    &&& r->Ok_0->0.points == old(self).open@[at].points
                    &&& r->Ok_0->0.data == old(self).open@[at].data
                    &&& r->Ok_0->0.points > 0
                    &&& final(self).pending == Some(
                        Ticket {
                            key: r->Ok_0->0.key,
                            points: r->Ok_0->0.points,
                            bytes: r->Ok_0->0.data@.len() as usize,
                        },
                    )
                    &&& final(self).drained == at + 1
                    &&& final(self).open@.len() == old(self).open@.len()
                    &&& sum_points(final(self).open@) == sum_points(old(self).open@)
                        - r->Ok_0->0.points
                }
            },
    {
        if self.is_closed {
            return Err(Error::ClosedWriter);
        }
        if self.header.number_of_points < 1 {
            return Err(Error::EmptyCopcFile);
        }
        self.draining = true;
        while self.drained < self.open.len()
            invariant
                self.wf(),
                self.idle(),
                !old(self).is_closed,
                old(self).header.number_of_points >= 1,
                *self == (CopcWriter { draining: true, drained: self.drained, ..*old(self) }),
                old(self).drained <= self.drained,
                next_filled(self.open@, self.drained as int) == next_filled(
                    old(self).open@,
                    old(self).drained as int,
                ),
            decreases self.open@.len() - self.drained,
        {
            let at: usize = self.drained;
            if self.open[at].points > 0 {
                let ghost before = self.open@;
                let mut chunk = OpenChunk { key: self.open[at].key, points: 0, data: Vec::new() };
                std::mem::swap(&mut chunk, &mut self.open[at]);
                self.drained = at + 1;
                self.pending = Some(
                    Ticket { key: chunk.key, points: chunk.points, bytes: chunk.data.len() },
                );
                proof {
                    lemma_sum_points_update(before, self.open@, at as int);
                }
                return Ok(Some(chunk));
            }
            self.drained = at + 1;
        }
        proof {
            lemma_sum_points_zero(self.open@);
        }
        Ok(None)
    }
}

/// The entry of a node without points.
pub open spec fn empty_entry(k: VoxelKey) -> Entry {
    Entry { key: k, offset: 0, byte_size: 0, point_count: 0 }
}

/// The entries that the hierarchy lacks for it to lead to every node: an
/// entry without points for each of the first `n` chunks whose node has no
/// entry.
pub open spec fn spec_missing(
    open: Seq<OpenChunk>,
    nodes: Map<VoxelKey, NodeState>,
    n: int,
) -> Seq<Entry>
    decreases n,
{
    if n <= 0 {
        Seq::empty()
    } else {
        spec_missing(open, nodes, n - 1) + (if nodes[open[n - 1].key].written {
            Seq::<Entry>::empty()
        } else {
            seq![empty_entry(open[n - 1].key)]
        })
    }
}

impl CopcWriter {
    /// Why the file cannot be closed; `None` where it can. A closed writer
    /// cannot be closed again, and a file without points is none. Every
    /// point must be in a chunk that was written. The hierarchy must fit
    /// the fields that tell of it.
    pub open spec fn close_fault(self, start_of_first_evlr: u64) -> Option<Error> {
        if self.is_closed {
            Some(Error::ClosedWriter)
        } else if self.header.number_of_points < 1 {
            Some(Error::EmptyCopcFile)
        } else if self.pending is Some || sum_points(self.open@) != 0 {
            Some(Error::PointNotAddedToAnyNode)
        } else if start_of_first_evlr + 60 > u64::MAX || 32 * (self.hierarchy.entries@.len()
            + self.open@.len()) > u64::MAX || self.header.evlrs@.len() + 1 > u32::MAX {
            Some(Error::CorruptMetadata)
        } else {
            None
        }
    }

    /// Gives each node that has none an entry without points, so that the
    /// hierarchy leads to every node that has points.
    pub(crate) fn complete_hierarchy(&mut self)
        requires
            old(self).wf(),
            old(self).pending is None,
            old(self).draining,
            sum_points(old(self).open@) == 0,
        ensures
            final(self).wf(),
            *final(self) == (CopcWriter {
                hierarchy: final(self).hierarchy,
                nodes: final(self).nodes,
                ..*old(self)
            }),
            final(self).hierarchy.entries@ == old(self).hierarchy.entries@ + spec_missing(
                old(self).open@,
                old(self).nodes@,
                old(self).open@.len() as int,
            ),
            final(self).hierarchy.entries@.len() <= old(self).hierarchy.entries@.len() + old(
                self,
            ).open@.len(),
            sum_counts(final(self).hierarchy.entries@) == sum_counts(old(self).hierarchy.entries@),
            forall|k: VoxelKey| #[trigger]
                final(self).nodes@.contains_key(k) ==> final(self).nodes@[k].written,
            forall|k: VoxelKey| #[trigger]
                count_in(final(self).nodes@, k) == count_in(old(self).nodes@, k),
    {
        proof {
            lemma_sum_points_zero(self.open@);
            assert forall|j: int| 0 <= j < self.open@.len() implies (#[trigger] self.open@[j]).points
                == 0 by {
                assert(self.chunk_ok(j));
            }
        }
        let mut i: usize = 0;
        while i < self.open.len()
            invariant
                i <= self.open@.len(),
                self.wf(),
                self.pending is None,
                self.draining,
                forall|j: int| 0 <= j < self.open@.len() ==> (#[trigger] self.open@[j]).points == 0,
                *self == (CopcWriter {
                    hierarchy: self.hierarchy,
                    nodes: self.nodes,
                    ..*old(self)
                }),
                self.hierarchy.entries@ == old(self).hierarchy.entries@ + spec_missing(
                    old(self).open@,
                    old(self).nodes@,
                    i as int,
                ),
                self.hierarchy.entries@.len() <= old(self).hierarchy.entries@.len() + i,
                sum_counts(self.hierarchy.entries@) == sum_counts(old(self).hierarchy.entries@),
                forall|k: VoxelKey| #[trigger]
                    self.nodes@.contains_key(k) ==> old(self).nodes@.contains_key(k) && (
                    self.nodes@[k] == old(self).nodes@[k] || (self.nodes@[k] == (NodeState {
                        written: true,
                        ..old(self).nodes@[k]
                    }) && self.nodes@[k].slot < i)),
                forall|k: VoxelKey| #[trigger]
                    old(self).nodes@.contains_key(k) ==> self.nodes@.contains_key(k),
                forall|k: VoxelKey| #[trigger]
                    self.nodes@.contains_key(k) && self.nodes@[k].slot < i ==> self.nodes@[k].written,
            decreases self.open@.len() - i,
        {
            let key = self.open[i].key;
            let ghost before = *self;
            proof {
                assert(self.chunk_ok(i as int));
                assert(self.node_ok(key));
            }
            let state = match self.nodes.get(&key) {
                Some(state) => state,
                None => NodeState { count: 0, slot: i, written: true },
            };
            if !state.written {
                let entry = Entry { key, offset: 0, byte_size: 0, point_count: 0 };
                self.hierarchy.entries.push(entry);
                self.nodes.insert(&key, NodeState { written: true, ..state });
                proof {
                    let entries = self.hierarchy.entries@;
                    let earlier = before.hierarchy.entries@;
                    lemma_sum_counts_push(earlier, entry);
                    assert(entries[earlier.len() as int].key == key);
                    assert(entries =~= old(self).hierarchy.entries@ + spec_missing(
                        old(self).open@,
                        old(self).nodes@,
                        i + 1,
                    ));
                    assert forall|k: VoxelKey| #[trigger] self.nodes@.contains_key(k) implies node_fits(
                        self.nodes@,
                        self.open@,
                        entries,
                        self.draining,
                        self.max_node_size as int,
                        k,
                    ) by {
                        assert(before.nodes@.contains_key(k));
                        assert(before.node_ok(k));
                        if before.nodes@[k].written {
                            let w = choose|w: int|
                                0 <= w < earlier.len() && (#[trigger] earlier[w]).key == k;
                            assert(entries[w].key == k);
                        }
                    }
                    assert forall|j: int| 0 <= j < self.open@.len() implies chunk_fits(
                        self.nodes@,
                        self.compressor.record_size as int,
                        #[trigger] self.open@[j],
                        j,
                    ) by {
                        assert(before.chunk_ok(j));
                    }
                    assert forall|j: int| 0 <= j < entries.len() implies self.nodes@.contains_key(
                        (#[trigger] entries[j]).key,
                    ) && self.nodes@[entries[j].key].written by {
                        if j < earlier.len() {
                            assert(entries[j] == earlier[j]);
                        }
                    }
                    assert forall|a: int, b: int| 0 <= a < b < entries.len() implies (
                    #[trigger] entries[a]).key != (#[trigger] entries[b]).key by {
                        assert(entries[a] == earlier[a]);
                        if b < earlier.len() {
                            assert(entries[b] == earlier[b]);
                        } else {
                            assert(before.nodes@[earlier[a].key].written);
                        }
                    }
                    assert forall|k: VoxelKey| #[trigger]
                        self.nodes@.contains_key(k) && self.nodes@[k].slot < i + 1 implies self.nodes@[k].written by {
                        assert(before.nodes@.contains_key(k));
                        assert(before.node_ok(k));
                    }
                }
            } else {
                proof {
                    assert(self.hierarchy.entries@ =~= old(self).hierarchy.entries@ + spec_missing(
                        old(self).open@,
                        old(self).nodes@,
                        i + 1,
                    ));
                    assert forall|k: VoxelKey| #[trigger]
                        self.nodes@.contains_key(k) && self.nodes@[k].slot < i + 1 implies self.nodes@[k].written by {
                        assert(self.node_ok(k));
                    }
                }
            }
            i = i + 1;
        }
        proof {
            assert forall|k: VoxelKey| #[trigger] self.nodes@.contains_key(k) implies self.nodes@[k].written by {
                assert(self.node_ok(k));
            }
        }
    }

    /// Once every node has an entry, the hierarchy leads to each of its
    /// nodes.
    proof fn lemma_leads(self)
        requires
            self.wf(),
            forall|k: VoxelKey| #[trigger] self.nodes@.contains_key(k) ==> self.nodes@[k].written,
        ensures
            leads(self.hierarchy.entries@),
            distinct_keys(self.hierarchy.entries@),
    {
        let entries = self.hierarchy.entries@;
        assert forall|i: int| 0 <= i < entries.len() implies (#[trigger] entries[i]).key.valid() && (
        entries[i].key.level > 0 ==> has_entry(entries, parent(entries[i].key))) by {
            let k = entries[i].key;
            assert(self.nodes@.contains_key(k));
            assert(self.node_ok(k));
            if k.level > 0 {
                assert(self.nodes@.contains_key(parent(k)));
                assert(self.node_ok(parent(k)));
            }
        }
    }

    /// Closes the file, whose chunks and chunk table have been written up
    /// to the position `start_of_first_evlr`, where the hierarchy is to be
    /// written as the first extended record. Each node that has no entry,
    /// because it holds no point, gets an entry without points: the
    /// hierarchy then leads to every node, and no node has two entries. The
    /// COPC info is told where the root page lies, 60 bytes behind that
    /// position, how many bytes it has, 32 for each entry, and the spacing;
    /// the header is told where the extended records start and that there is
    /// one more of them. The entries of the hierarchy count every point of
    /// the header.
    pub fn close(&mut self, start_of_first_evlr: u64, spacing: Double) -> (r: Result<
        Closing,
        Error,
    >)
        requires
            old(self).wf(),
        ensures
            final(self).wf(),
            match old(self).close_fault(start_of_first_evlr) {
                Some(e) => r is Err && r->Err_0 == e && *final(self) == *old(self),
                None => {
                    &&& r is Ok
                    &&& final(self).is_closed
                    &&& final(self).hierarchy.entries@ == old(self).hierarchy.entries@
                        + spec_missing(
                        old(self).open@,
                        old(self).nodes@,
                        old(self).open@.len() as int,
                    )
                    &&& final(self).copc_info == (CopcInfo {
                        spacing,
                        root_hier_offset: (start_of_first_evlr + 60) as u64,
                        root_hier_size: (32 * final(self).hierarchy.entries@.len()) as u64,
                        ..old(self).copc_info
                    })
                    &&& final(self).header == (Header {
                        start_of_first_evlr,
                        number_of_evlrs: (old(self).header.evlrs@.len() + 1) as u32,
                        ..old(self).header
                    })
                    &&& *final(self) == (CopcWriter {
                        is_closed: true,
                        draining: true,
                        copc_info: final(self).copc_info,
                        header: final(self).header,
                        hierarchy: final(self).hierarchy,
                        nodes: final(self).nodes,
                        ..*old(self)
                    })
                    &&& forall|k: VoxelKey| #[trigger]
                        count_in(final(self).nodes@, k) == count_in(old(self).nodes@, k)
                    &&& r->Ok_0.hierarchy.parts() == (
                        padded("copc".spec_bytes(), 16),
                        1000int,
                        padded("EPT Hierarchy".spec_bytes(), 32),
                        entries_bytes(final(self).hierarchy.entries@),
                    )
                    &&& r->Ok_0.info.parts() == (
                        padded("copc".spec_bytes(), 16),
                        1int,
                        padded("COPC info VLR".spec_bytes(), 32),
                        final(self).copc_info.spec_bytes(),
                    )
                    &&& sum_counts(final(self).hierarchy.entries@)
                        == final(self).header.number_of_points
                    &&& leads(final(self).hierarchy.entries@)
                    &&& distinct_keys(final(self).hierarchy.entries@)
                    &&& plain(final(self).hierarchy.entries@)
                },
            },
    {
        if self.is_closed {
            return Err(Error::ClosedWriter);
        }
        if self.header.number_of_points < 1 {
            return Err(Error::EmptyCopcFile);
        }
        if self.pending.is_some() {
            return Err(Error::PointNotAddedToAnyNode);
        }
        proof {
            assert forall|j: int| 0 <= j < self.open@.len() implies 0 <= (
            #[trigger] self.open@[j]).points by {
                assert(self.chunk_ok(j));
            }
        }
        let mut i: usize = 0;
        while i < self.open.len()
            invariant
                i <= self.open@.len(),
                forall|j: int| 0 <= j < i ==> (#[trigger] self.open@[j]).points == 0,
                forall|j: int| 0 <= j < self.open@.len() ==> 0 <= (#[trigger] self.open@[j]).points,
                *self == *old(self),
                self.wf(),
                !self.is_closed,
                self.header.number_of_points >= 1,
                self.pending is None,
            decreases self.open@.len() - i,
        {
            if self.open[i].points != 0 {
                proof {
                    lemma_sum_points_zero(self.open@);
                }
                return Err(Error::PointNotAddedToAnyNode);
            }
            i = i + 1;
        }
        proof {
            lemma_sum_points_zero(self.open@);
        }
        if start_of_first_evlr > u64::MAX - EVLR_HEADER_BYTES || (self.hierarchy.entries.len() as u128
            + self.open.len() as u128) * 32 > u64::MAX as u128 || self.header.evlrs.len() as u128
            + 1 > u32::MAX as u128 {
            return Err(Error::CorruptMetadata);
        }
        self.draining = true;
        proof {
            assert forall|k: VoxelKey| #[trigger] self.nodes@.contains_key(k) implies node_fits(
                self.nodes@,
                self.open@,
                self.hierarchy.entries@,
                self.draining,
                self.max_node_size as int,
                k,
            ) by {
                assert(old(self).node_ok(k));
            }
        }
        self.complete_hierarchy();
        proof {
            self.lemma_leads();
        }
        self.header.start_of_first_evlr = start_of_first_evlr;
        self.header.number_of_evlrs = (self.header.evlrs.len() + 1) as u32;
        self.copc_info.spacing = spacing;
        self.copc_info.root_hier_offset = start_of_first_evlr + EVLR_HEADER_BYTES;
        self.copc_info.root_hier_size = self.hierarchy.byte_size();
        self.is_closed = true;
        Ok(Closing { hierarchy: self.hierarchy.evlr(), info: self.copc_info.into_vlr() })
    }
}

} // verus!
