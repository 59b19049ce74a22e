//! Placing points: into which node a point goes, and what that does to the
//! writer.

use crate::bounds::Bounds;
use crate::double::Double;
use crate::error::Error;
use crate::header::Header;
use crate::info::CopcInfo;
use crate::key::VoxelKey;
use crate::octree::{
    count_in, find_candidates, find_greedy, get_random_weighted_index, spec_candidates,
    spec_target, NodeState,
};
use crate::query::{lemma_parent_valid, parent, root_key};
use crate::writer::{chunk_fits, lifted, sum_points, CopcWriter, OpenChunk, PointRecord, Ticket};
use vstd::prelude::*;

verus! {

/// One more chunk holds its points more.
pub proof fn lemma_sum_points_push(open: Seq<OpenChunk>, chunk: OpenChunk)
    ensures
        sum_points(open.push(chunk)) == sum_points(open) + chunk.points,
{
    assert(open.push(chunk).drop_last() =~= open);
}

/// Where one chunk changes, the sum changes by as much as the chunk.
pub proof fn lemma_sum_points_update(a: Seq<OpenChunk>, b: Seq<OpenChunk>, at: int)
    requires
        a.len() == b.len(),
        0 <= at < a.len(),
        forall|i: int| 0 <= i < a.len() && i != at ==> (#[trigger] a[i]).points == b[i].points,
    ensures
        sum_points(b) == sum_points(a) - a[at].points + b[at].points,
    decreases a.len(),
{
    if at == a.len() - 1 {
        lemma_sum_points_same(a.drop_last(), b.drop_last());
    } else {
        lemma_sum_points_update(a.drop_last(), b.drop_last(), at);
    }
}

/// Chunks with the same numbers of points hold the same number of points.
pub proof fn lemma_sum_points_same(a: Seq<OpenChunk>, b: Seq<OpenChunk>)
    requires
        a.len() == b.len(),
        forall|i: int| 0 <= i < a.len() ==> (#[trigger] a[i]).points == b[i].points,
    ensures
        sum_points(b) == sum_points(a),
    decreases a.len(),
{
    if a.len() > 0 {
        lemma_sum_points_same(a.drop_last(), b.drop_last());
    }
}

/// Chunks without negative numbers of points hold no points exactly if
/// each of them holds none.
pub proof fn lemma_sum_points_zero(open: Seq<OpenChunk>)
    requires
        forall|i: int| 0 <= i < open.len() ==> 0 <= (#[trigger] open[i]).points,
    ensures
        sum_points(open) >= 0,
        sum_points(open) == 0 <==> forall|i: int|
            0 <= i < open.len() ==> (#[trigger] open[i]).points == 0,
    decreases open.len(),
{
    if open.len() > 0 {
        let front = open.drop_last();
        assert forall|i: int| 0 <= i < front.len() implies 0 <= (#[trigger] front[i]).points by {
            assert(front[i] == open[i]);
        }
        lemma_sum_points_zero(front);
        if sum_points(open) == 0 {
            assert forall|i: int| 0 <= i < open.len() implies (#[trigger] open[i]).points
                == 0 by {
                if i < front.len() {
                    assert(front[i] == open[i]);
                }
            }
        }
        if forall|i: int| 0 <= i < open.len() ==> (#[trigger] open[i]).points == 0 {
            assert forall|i: int| 0 <= i < front.len() implies (#[trigger] front[i]).points
                == 0 by {
                assert(front[i] == open[i]);
            }
            assert(open[open.len() - 1].points == 0);
        }
    }
}

/// The writers are set up alike: what is fixed when a writer is made is the
/// same in both.
pub open spec fn same_setup(a: CopcWriter, b: CopcWriter) -> bool {
    &&& a.start == b.start
    &&& a.format == b.format
    &&& a.min_node_size == b.min_node_size
    &&& a.max_node_size == b.max_node_size
    &&& a.root == b.root
    &&& a.compressor.record_size == b.compressor.record_size
    &&& a.compressor.start_pos == b.compressor.start_pos
    &&& a.header.version_major == b.header.version_major
    &&& a.header.version_minor == b.header.version_minor
    &&& a.header.header_size == b.header.header_size
    &&& a.header.point_data_record_format == b.header.point_data_record_format
    &&& a.header.point_data_record_length == b.header.point_data_record_length
    &&& a.header.global_encoding == b.header.global_encoding
    &&& a.header.generating_software == b.header.generating_software
    &&& a.header.vlrs == b.header.vlrs
    &&& a.header.evlrs == b.header.evlrs
    &&& a.copc_info.center == b.copc_info.center
    &&& a.copc_info.halfsize == b.copc_info.halfsize
}

/// The range of GPS times after a point with the time `t`: a time below
/// the range lowers its start, a time above it raises its end. Times are
/// compared as IEEE 754 has it.
pub open spec fn spec_time_range(info: CopcInfo, t: Double) -> CopcInfo {
    CopcInfo {
        gpstime_minimum: if t.spec_lt(info.gpstime_minimum) {
            t
        } else {
            info.gpstime_minimum
        },
        gpstime_maximum: if info.gpstime_maximum.spec_lt(t) {
            t
        } else {
            info.gpstime_maximum
        },
        ..info
    }
}

/// The range of GPS times holds each time that it has taken, and what it
/// held before: it only grows.
pub proof fn lemma_time_range_holds(info: CopcInfo, t: Double)
    ensures
        !t.spec_lt(spec_time_range(info, t).gpstime_minimum),
        !spec_time_range(info, t).gpstime_maximum.spec_lt(t),
        !info.gpstime_minimum.spec_lt(spec_time_range(info, t).gpstime_minimum),
        !spec_time_range(info, t).gpstime_maximum.spec_lt(info.gpstime_maximum),
{
}

impl CopcWriter {
    /// The points of a node that are gathered in its open chunk.
    pub open spec fn chunk_of(self, k: VoxelKey) -> Seq<u8> {
        if self.nodes@.contains_key(k) {
            self.open@[self.nodes@[k].slot as int].data@
        } else {
            Seq::empty()
        }
    }

    /// The writer `after` is the writer `before` after the point went into
    /// the node `k`: the node counts one point more, and no other node
    /// changes; as many points were offered as before; the header counts the point and its return, and its bounds
    /// hold the point; the range of GPS times holds the point's time. Where
    /// that filled the node, the node's chunk, with the point as its last
    /// record, was handed out and waits to be written; else the point is
    /// the last record of the node's open chunk.
    pub open spec fn placed(
        before: CopcWriter,
        after: CopcWriter,
        k: VoxelKey,
        point: PointRecord,
        handed: Option<OpenChunk>,
    ) -> bool {
        &&& same_setup(before, after)
        &&& after.is_closed == before.is_closed
        &&& after.draining == before.draining
        &&& after.drained == before.drained
        &&& after.offered == before.offered
        &&& after.header.start_of_first_evlr == before.header.start_of_first_evlr
        &&& after.header.number_of_evlrs == before.header.number_of_evlrs
        &&& after.strategy == before.strategy
        &&& after.fault == before.fault
        &&& after.hierarchy == before.hierarchy
        &&& after.compressor == before.compressor
        &&& count_in(after.nodes@, k) == count_in(before.nodes@, k) + 1
        &&& forall|o: VoxelKey|
            o != k ==> #[trigger] count_in(after.nodes@, o) == count_in(before.nodes@, o)
        &&& forall|o: VoxelKey| o != k ==> #[trigger] after.chunk_of(o) == before.chunk_of(o)
        &&& after.header.number_of_points == before.header.number_of_points + 1
        &&& after.header.number_of_points_by_return@ == Header::counted(
            before.header.number_of_points_by_return@,
            point.return_number,
        )
        &&& after.header.bounds == before.header.bounds.join(
            Bounds::point(point.x as i64, point.y as i64, point.z as i64),
        )
        &&& after.copc_info == spec_time_range(before.copc_info, point.gps_time)
        &&& if count_in(before.nodes@, k) + 1 >= before.max_node_size {
            &&& handed is Some
            &&& handed->0.key == k
            &&& handed->0.points == count_in(before.nodes@, k) + 1
            &&& handed->0.data@ == before.chunk_of(k) + point.data@
            &&& after.pending == Some(
                Ticket { key: k, points: handed->0.points, bytes: handed->0.data@.len() as usize },
            )
            &&& after.chunk_of(k) == Seq::<u8>::empty()
        } else {
            &&& handed is None
            &&& after.pending is None
            &&& after.chunk_of(k) == before.chunk_of(k) + point.data@
        }
    }

    /// The writer `after` is the writer `before` with more nodes in its
    /// table, none of which holds a point: no count, no chunk and nothing
    /// else has changed.
    pub open spec fn grown(before: CopcWriter, after: CopcWriter) -> bool {
        &&& after == (CopcWriter { nodes: after.nodes, open: after.open, ..before })
        &&& forall|k: VoxelKey| #[trigger]
            before.nodes@.contains_key(k) ==> after.nodes@.contains_key(k) && after.nodes@[k]
                == before.nodes@[k]
        &&& forall|k: VoxelKey| #[trigger] count_in(after.nodes@, k) == count_in(before.nodes@, k)
        &&& forall|k: VoxelKey| #[trigger] after.chunk_of(k) == before.chunk_of(k)
        &&& sum_points(after.open@) == sum_points(before.open@)
    }

    /// A table that has grown twice has grown.
    pub proof fn lemma_grown_twice(a: CopcWriter, b: CopcWriter, c: CopcWriter)
        requires
            CopcWriter::grown(a, b),
            CopcWriter::grown(b, c),
        ensures
            CopcWriter::grown(a, c),
    {
        assert forall|k: VoxelKey| #[trigger] a.nodes@.contains_key(k) implies c.nodes@.contains_key(
            k,
        ) && c.nodes@[k] == a.nodes@[k] by {
            assert(b.nodes@.contains_key(k));
        }
    }

    /// A point that is placed after the table has grown is placed.
    pub proof fn lemma_placed_after_grown(
        a: CopcWriter,
        b: CopcWriter,
        c: CopcWriter,
        k: VoxelKey,
        point: PointRecord,
        handed: Option<OpenChunk>,
    )
        requires
            CopcWriter::grown(a, b),
            CopcWriter::placed(b, c, k, point, handed),
        ensures
            CopcWriter::placed(a, c, k, point, handed),
    {
        assert(count_in(b.nodes@, k) == count_in(a.nodes@, k));
        assert(b.chunk_of(k) == a.chunk_of(k));
    }

    /// Takes a node into the table, with an empty chunk.
    pub(crate) fn open_node(&mut self, key: VoxelKey)
        requires
            old(self).wf(),
            key.valid(),
            !old(self).nodes@.contains_key(key),
            key.level == 0 || old(self).nodes@.contains_key(parent(key)),
        ensures
            final(self).wf(),
            CopcWriter::grown(*old(self), *final(self)),
            final(self).nodes@ == old(self).nodes@.insert(
                key,
                NodeState { count: 0, slot: old(self).open@.len() as usize, written: false },
            ),
            final(self).open@.len() == old(self).open@.len() + 1,
            forall|i: int| 0 <= i < old(self).open@.len() ==> final(self).open@[i] == old(self).open@[i],
    {
        let slot: usize = self.open.len();
        proof {
            assert forall|i: int| 0 <= i < self.open@.len() implies (#[trigger] self.open@[i]).key
                != key by {
                assert(self.chunk_ok(i));
            }
        }
        self.open.push(OpenChunk { key, points: 0, data: Vec::new() });
        self.nodes.insert(&key, NodeState { count: 0, slot, written: false });
        proof {
            lemma_sum_points_push(old(self).open@, self.open@[slot as int]);
            assert forall|k: VoxelKey| #[trigger] self.nodes@.contains_key(k) implies self.node_ok(
                k,
            ) by {
                if k != key {
                    assert(old(self).node_ok(k));
                }
            }
            assert forall|i: int| 0 <= i < self.open@.len() implies chunk_fits(
                self.nodes@,
                self.compressor.record_size as int,
                #[trigger] self.open@[i],
                i,
            ) by {
                if i < slot {
                    assert(old(self).chunk_ok(i));
                }
            }
            assert forall|k: VoxelKey| #[trigger] self.chunk_of(k) == old(self).chunk_of(k) by {
                if old(self).nodes@.contains_key(k) {
                    assert(old(self).node_ok(k));
                }
            }
            if self.pending is Some {
                assert(old(self).node_ok(self.pending->0.key));
            }
        }
    }

    /// Takes a node into the table unless it is there.
    pub(crate) fn open_node_once(&mut self, key: VoxelKey)
        requires
            old(self).wf(),
            key.valid(),
            key.level == 0 || old(self).nodes@.contains_key(parent(key)),
        ensures
            final(self).wf(),
            CopcWriter::grown(*old(self), *final(self)),
            final(self).nodes@.contains_key(key),
    {
        if self.nodes.get(&key).is_none() {
            self.open_node(key);
        }
    }

    /// Takes the nodes above a node into the table, with empty chunks, so
    /// that the hierarchy leads to the node.
    pub(crate) fn open_path(&mut self, key: VoxelKey)
        requires
            old(self).wf(),
            key.valid(),
        ensures
            final(self).wf(),
            CopcWriter::grown(*old(self), *final(self)),
            key.level == 0 || final(self).nodes@.contains_key(parent(key)),
    {
        // the nodes above the key, the nearest first
        let mut above: Vec<VoxelKey> = Vec::new();
        let mut k = key;
        while k.level > 0
            invariant
                k.valid(),
                k == lifted(key, above@.len()),
                forall|i: int|
                    0 <= i < above@.len() ==> (#[trigger] above@[i]) == lifted(
                        key,
                        (i + 1) as nat,
                    ) && above@[i].valid(),
            decreases k.level,
        {
            proof {
                lemma_parent_valid(k);
            }
            k = VoxelKey { level: k.level - 1, x: k.x / 2, y: k.y / 2, z: k.z / 2 };
            above.push(k);
        }
        let mut i: usize = above.len();
        while i > 0
            invariant
                i <= above@.len(),
                self.wf(),
                CopcWriter::grown(*old(self), *self),
                lifted(key, above@.len()).level == 0,
                forall|j: int|
                    0 <= j < above@.len() ==> (#[trigger] above@[j]) == lifted(
                        key,
                        (j + 1) as nat,
                    ) && above@[j].valid(),
                forall|j: int| i <= j < above@.len() ==> self.nodes@.contains_key(#[trigger] above@[j]),
            decreases i,
        {
            let node = above[i - 1];
            let ghost before = *self;
            proof {
                if i < above@.len() {
                    assert(above@[i as int] == parent(node));
                    assert(self.nodes@.contains_key(above@[i as int]));
                }
            }
            self.open_node_once(node);
            proof {
                CopcWriter::lemma_grown_twice(*old(self), before, *self);
                assert forall|j: int| i - 1 <= j < above@.len() implies self.nodes@.contains_key(
                    #[trigger] above@[j],
                ) by {
                    if j >= i {
                        assert(before.nodes@.contains_key(above@[j]));
                    }
                }
            }
            i = i - 1;
        }
        proof {
            assert(lifted(key, 0) == key);
            if key.level > 0 {
                assert(lifted(key, 1) == parent(lifted(key, 0)));
                assert(above@[0] == parent(key));
            }
        }
    }

    /// Puts a point into a node that is not full, whose cell holds the
    /// point, and to which the table leads.
    pub fn place_at(&mut self, key: VoxelKey, point: &PointRecord) -> (handed: Option<OpenChunk>)
        requires
            old(self).wf(),
            old(self).idle(),
            !old(self).draining,
            old(self).header.number_of_points < u64::MAX,
            key.valid(),
            key.level == 0 || old(self).nodes@.contains_key(parent(key)),
            count_in(old(self).nodes@, key) < old(self).max_node_size,
            point.data@.len() == old(self).compressor.record_size,
        ensures
            final(self).wf(),
            CopcWriter::placed(*old(self), *final(self), key, *point, handed),
    {
        if self.nodes.get(&key).is_none() {
            self.open_node(key);
        }
        let ghost ready = *self;
        self.header.add_point(point.x, point.y, point.z, point.return_number);
        if point.gps_time.lt(&self.copc_info.gpstime_minimum) {
            self.copc_info.gpstime_minimum = point.gps_time;
        }
        if point.gps_time.gt(&self.copc_info.gpstime_maximum) {
            self.copc_info.gpstime_maximum = point.gps_time;
        }
        let state = match self.nodes.get(&key) {
            Some(state) => state,
            None => NodeState { count: 0, slot: 0, written: false },
        };
        let slot: usize = state.slot;
        let count: i32 = state.count;
        proof {
            assert(ready.node_ok(key));
            assert(ready.chunk_ok(slot as int));
        }
        let mut chunk = OpenChunk { key, points: 0, data: Vec::new() };
        std::mem::swap(&mut chunk, &mut self.open[slot]);
        let ghost data_before = chunk.data@;
        chunk.data.extend_from_slice(point.data.as_slice());
        chunk.points = chunk.points + 1;
        self.nodes.insert(&key, NodeState { count: count + 1, slot, written: false });
        let full: bool = count + 1 >= self.max_node_size;
        proof {
            assert(data_before =~= old(self).chunk_of(key));
            assert(chunk.data@ =~= old(self).chunk_of(key) + point.data@);
            assert(chunk.data@.len() == chunk.points * self.compressor.record_size)
                by (nonlinear_arith)
                requires
                    data_before.len() == (chunk.points - 1) * self.compressor.record_size,
                    chunk.data@.len() == data_before.len() + self.compressor.record_size,
            ;
        }
        let handed: Option<OpenChunk> = if full {
            self.pending = Some(Ticket { key, points: chunk.points, bytes: chunk.data.len() });
            Some(chunk)
        } else {
            std::mem::swap(&mut chunk, &mut self.open[slot]);
            None
        };
        proof {
            lemma_sum_points_update(ready.open@, self.open@, slot as int);
            assert forall|k: VoxelKey| #[trigger] self.nodes@.contains_key(k) implies self.node_ok(
                k,
            ) by {
                assert(ready.nodes@.contains_key(k));
                assert(ready.node_ok(k));
            }
            assert forall|i: int| 0 <= i < self.open@.len() implies chunk_fits(
                self.nodes@,
                self.compressor.record_size as int,
                #[trigger] self.open@[i],
                i,
            ) by {
                assert(ready.chunk_ok(i));
            }
            assert forall|o: VoxelKey| o != key implies #[trigger] count_in(self.nodes@, o)
                == count_in(old(self).nodes@, o) by {
                assert(count_in(ready.nodes@, o) == count_in(old(self).nodes@, o));
            }
            assert forall|o: VoxelKey| o != key implies #[trigger] self.chunk_of(o) == old(
                self,
            ).chunk_of(o) by {
                if ready.nodes@.contains_key(o) {
                    assert(ready.node_ok(o));
                }
                assert(ready.chunk_of(o) == old(self).chunk_of(o));
            }
            assert forall|i: int| 0 <= i < self.hierarchy.entries@.len() implies self.nodes@.contains_key(
                (#[trigger] self.hierarchy.entries@[i]).key,
            ) && self.nodes@[self.hierarchy.entries@[i].key].written by {
                assert(ready.nodes@[ready.hierarchy.entries@[i].key].written);
            }
        }
        handed
    }
}

impl CopcWriter {
    /// The writer takes no point any more: it is closed, or being closed.
    pub open spec fn shut(self) -> bool {
        self.is_closed || self.draining
    }

    /// The point lies in the root cube, at a place of the grid that a
    /// record can hold.
    pub open spec fn holds(self, point: PointRecord) -> bool {
        point.on_grid && self.root.contains(point.x as int, point.y as int, point.z as int)
    }

    /// The node that takes the point in the greedy way; `None` where the
    /// nodes on the point's way are full down to the deepest level.
    pub open spec fn greedy_target(self, point: PointRecord) -> Option<VoxelKey> {
        spec_target(
            self.nodes@,
            self.root,
            self.max_node_size as int,
            point.x as int,
            point.y as int,
            point.z as int,
            root_key(),
        )
    }

    /// The nodes among which the point is handed out in the stochastic
    /// way.
    pub open spec fn stochastic_candidates(self, point: PointRecord, levels: i32) -> Seq<
        VoxelKey,
    > {
        spec_candidates(
            self.nodes@,
            self.root,
            self.max_node_size as int,
            point.x as int,
            point.y as int,
            point.z as int,
            root_key(),
            levels as int,
        )
    }

    /// Adds a point in the greedy way: the point goes into the first node
    /// on its way down from the root that is not full, and lies in the cell
    /// of that node. Where no node takes the point, or the header cannot
    /// count another point, nothing changes.
    pub fn add_point_greedy(&mut self, point: &PointRecord) -> (r: Result<Option<OpenChunk>, Error>)
        requires
            old(self).wf(),
            old(self).idle(),
            !old(self).draining,
            old(self).holds(*point),
            point.data@.len() == old(self).compressor.record_size,
        ensures
            final(self).wf(),
            match old(self).greedy_target(*point) {
                Some(k) if old(self).header.number_of_points < u64::MAX => {
                    &&& r is Ok
                    &&& CopcWriter::placed(*old(self), *final(self), k, *point, r->Ok_0)
                    &&& k.valid()
                    &&& k.spec_bounds(old(self).root).contains(
                        point.x as int,
                        point.y as int,
                        point.z as int,
                    )
                },
                _ => r is Err && r->Err_0 == Error::PointNotAddedToAnyNode && *final(self) == *old(
                    self,
                ),
            },
    {
        if !self.header.has_room() {
            return Err(Error::PointNotAddedToAnyNode);
        }
        match find_greedy(&self.nodes, &self.root, self.max_node_size, point.x, point.y, point.z) {
            Some(key) => Ok(self.place_at(key, point)),
            None => Err(Error::PointNotAddedToAnyNode),
        }
    }

    /// Adds a point in the stochastic way: the point goes into one of the
    /// nodes on its way down to the level `levels` that are not full, drawn
    /// at random, and lies in the cell of that node. Where all of them are
    /// full the point goes the greedy way.
    pub fn add_point_stochastic(&mut self, point: &PointRecord, levels: i32) -> (r: Result<
        Option<OpenChunk>,
        Error,
    >)
        requires
            old(self).wf(),
            old(self).idle(),
            !old(self).draining,
            old(self).holds(*point),
            point.data@.len() == old(self).compressor.record_size,
        ensures
            final(self).wf(),
            old(self).stochastic_candidates(*point, levels).len() > 0 && old(
                self,
            ).header.number_of_points < u64::MAX ==> r is Ok && exists|i: int|
                {
                    &&& 0 <= i < old(self).stochastic_candidates(*point, levels).len()
                    &&& CopcWriter::placed(
                        *old(self),
                        *final(self),
                        #[trigger] old(self).stochastic_candidates(*point, levels)[i],
                        *point,
                        r->Ok_0,
                    )
                    &&& old(self).stochastic_candidates(*point, levels)[i].spec_bounds(
                        old(self).root,
                    ).contains(point.x as int, point.y as int, point.z as int)
                },
            old(self).stochastic_candidates(*point, levels).len() > 0 && old(
                self,
            ).header.number_of_points == u64::MAX ==> r is Err && r->Err_0
                == Error::PointNotAddedToAnyNode && *final(self) == *old(self),
            old(self).stochastic_candidates(*point, levels).len() == 0 ==> match old(
                self,
            ).greedy_target(*point) {
                Some(k) if old(self).header.number_of_points < u64::MAX => {
                    &&& r is Ok
                    &&& CopcWriter::placed(*old(self), *final(self), k, *point, r->Ok_0)
                    &&& k.spec_bounds(old(self).root).contains(
                        point.x as int,
                        point.y as int,
                        point.z as int,
                    )
                },
                _ => r is Err && r->Err_0 == Error::PointNotAddedToAnyNode && *final(self) == *old(
                    self,
                ),
            },
    {
        let candidates = find_candidates(
            &self.nodes,
            &self.root,
            self.max_node_size,
            point.x,
            point.y,
            point.z,
            levels,
        );
        if candidates.len() == 0 {
            return self.add_point_greedy(point);
        }
        if !self.header.has_room() {
            return Err(Error::PointNotAddedToAnyNode);
        }
        proof {
            assert forall|i: int| 0 <= i < candidates@.len() implies candidates@[0].level <= (
            #[trigger] candidates@[i]).level <= crate::key::MAX_LEVEL && 0
                <= candidates@[0].level by {
                assert(candidates@[i].valid());
                assert(candidates@[0].valid());
            }
        }
        let chosen = get_random_weighted_index(&candidates);
        let key = candidates[chosen];
        self.open_path(key);
        let ghost grown = *self;
        let handed = self.place_at(key, point);
        proof {
            CopcWriter::lemma_placed_after_grown(*old(self), grown, *self, key, *point, handed);
        }
        Ok(handed)
    }
}

} // verus!
