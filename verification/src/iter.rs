//! The point iterator: in which order chunks are read, and which of their
//! points are handed out.

use crate::node::OctreeNode;
use crate::query::{descending, points_in, takes, BoundsSelection};
use vstd::prelude::*;

verus! {

/// Nodes that hold points each hold no less than no points together.
pub proof fn lemma_points_in_positive(nodes: Seq<OctreeNode>)
    requires
        forall|i: int| 0 <= i < nodes.len() ==> (#[trigger] nodes[i]).entry.point_count > 0,
    ensures
        points_in(nodes) >= 0,
    decreases nodes.len(),
{
    if nodes.len() > 0 {
        assert forall|i: int| 0 <= i < nodes.drop_last().len() implies (
        #[trigger] nodes.drop_last()[i]).entry.point_count > 0 by {
            assert(nodes.drop_last()[i] == nodes[i]);
        }
        lemma_points_in_positive(nodes.drop_last());
    }
}

/// What the reader of the file does next.
#[derive(Clone, Copy, Debug, PartialEq, Eq, Structural)]
pub enum PointStep {
    /// No point is left.
    End,
    /// Decode the next point of the current chunk and offer it; where
    /// `seek` holds an offset, a new chunk starts there, and the source is
    /// to be set to it first.
    Read { seek: Option<u64> },
}

/// Walks over the points of the nodes that a query asks for. The caller
/// decodes the points; the iterator says where, and which of them belong to
/// the answer.
#[derive(Debug)]
pub struct PointIter {
    /// The nodes whose chunks have not been started, the next one last.
    pub nodes: Vec<OctreeNode>,
    /// The box that a point must lie in, on the grid.
    pub bounds: BoundsSelection,
    /// The offset of the chunk that was started last.
    pub position: u64,
    /// The number of points of the current chunk that have not been decoded.
    pub node_points_left: u64,
    /// The number of points of all chunks that have not been decoded.
    pub total_points_left: u128,
}

impl PointIter {
    /// The nodes hold points and wait in the order in which the file holds
    /// their chunks, behind the chunk that was started last; the points
    /// that are left are those of the current chunk and of the nodes that
    /// wait.
    pub open spec fn wf(self) -> bool {
        &&& forall|i: int| 0 <= i < self.nodes@.len() ==> (#[trigger] self.nodes@[i]).entry.point_count > 0
        &&& forall|i: int|
            0 <= i < self.nodes@.len() ==> (#[trigger] self.nodes@[i]).entry.offset
                >= self.position
        &&& descending(self.nodes@)
        &&& self.total_points_left == self.node_points_left + points_in(self.nodes@)
    }

    /// The point belongs to the answer: no box was asked for, or the point
    /// lies in it.
    pub open spec fn accepts(self, x: i32, y: i32, z: i32) -> bool {
        takes(self.bounds, x as int, y as int, z as int)
    }

    /// An iterator over the points of the nodes, which come in the order of
    /// their offsets, the largest first, and hold points each.
    pub fn new(nodes: Vec<OctreeNode>, bounds: BoundsSelection) -> (it: PointIter)
        requires
            descending(nodes@),
            forall|i: int| 0 <= i < nodes@.len() ==> (#[trigger] nodes@[i]).entry.point_count > 0,
        ensures
            it.wf(),
            it.nodes == nodes,
            it.bounds == bounds,
            it.position == 0,
            it.node_points_left == 0,
            it.total_points_left == points_in(nodes@),
    {
        let mut total: u128 = 0;
        let mut i: usize = 0;
        assert(nodes@.subrange(0, 0) =~= Seq::<OctreeNode>::empty());
        while i < nodes.len()
            invariant
                i <= nodes@.len(),
                forall|i: int|
                    0 <= i < nodes@.len() ==> (#[trigger] nodes@[i]).entry.point_count > 0,
                total == points_in(nodes@.subrange(0, i as int)),
                total <= i * 0x8000_0000,
            decreases nodes@.len() - i,
        {
            assert(nodes@.subrange(0, i + 1).drop_last() =~= nodes@.subrange(0, i as int));
            total = total + nodes[i].entry.point_count as u128;
            i = i + 1;
        }
        assert(nodes@.subrange(0, i as int) =~= nodes@);
        PointIter { nodes, bounds, position: 0, node_points_left: 0, total_points_left: total }
    }

    /// What to do next. With no point left the walk ends. With points left
    /// in the current chunk the next of them is to be decoded. Else the
    /// chunk of the last node that waits is started: its offset is never
    /// below that of the chunk before, so the file is read forwards.
    pub fn advance(&mut self) -> (step: PointStep)
        requires
            old(self).wf(),
        ensures
            final(self).wf(),
            final(self).bounds == old(self).bounds,
            final(self).total_points_left == old(self).total_points_left,
            old(self).total_points_left == 0 ==> step == PointStep::End && *final(self) == *old(
                self,
            ),
            old(self).total_points_left > 0 && old(self).node_points_left > 0 ==> step == (
            PointStep::Read { seek: None }) && *final(self) == *old(self),
            old(self).total_points_left > 0 && old(self).node_points_left == 0 ==> {
                &&& old(self).nodes@.len() > 0
                &&& step == PointStep::Read { seek: Some(old(self).nodes@.last().entry.offset) }
                &&& final(self).nodes@ == old(self).nodes@.drop_last()
                &&& final(self).position == old(self).nodes@.last().entry.offset
                &&& final(self).position >= old(self).position
                &&& final(self).node_points_left == old(self).nodes@.last().entry.point_count
            },
    {
        if self.total_points_left == 0 {
            return PointStep::End;
        }
        if self.node_points_left > 0 {
            return PointStep::Read { seek: None };
        }
        assert(self.nodes@.len() > 0);
        let ghost before = self.nodes@;
        let node = self.nodes[self.nodes.len() - 1];
        self.nodes.pop();
        assert(before[before.len() - 1].entry.point_count > 0);
        assert(before[before.len() - 1].entry.offset >= self.position);
        self.position = node.entry.offset;
        self.node_points_left = node.entry.point_count as u64;
        proof {
            assert forall|i: int| 0 <= i < self.nodes@.len() implies (
            #[trigger] self.nodes@[i]).entry.offset >= self.position by {
                assert(self.nodes@[i] == before[i]);
                assert(before[i].entry.offset >= before[before.len() - 1].entry.offset);
            }
            assert forall|i: int, j: int| 0 <= i <= j < self.nodes@.len() implies (
            #[trigger] self.nodes@[i]).entry.offset >= (#[trigger] self.nodes@[j]).entry.offset by {
                assert(self.nodes@[i] == before[i] && self.nodes@[j] == before[j]);
            }
            assert forall|i: int| 0 <= i < self.nodes@.len() implies (
            #[trigger] self.nodes@[i]).entry.point_count > 0 by {
                assert(self.nodes@[i] == before[i]);
            }
        }
        PointStep::Read { seek: Some(node.entry.offset) }
    }

    /// Takes the point that was decoded from the current chunk, and says
    /// whether it belongs to the answer.
    pub fn offer(&mut self, x: i32, y: i32, z: i32) -> (inside: bool)
        requires
            old(self).wf(),
            old(self).node_points_left > 0,
        ensures
            final(self).wf(),
            inside == old(self).accepts(x, y, z),
            final(self).node_points_left == old(self).node_points_left - 1,
            final(self).total_points_left == old(self).total_points_left - 1,
            final(self).nodes == old(self).nodes,
            final(self).bounds == old(self).bounds,
            final(self).position == old(self).position,
    {
        proof {
            lemma_points_in_positive(self.nodes@);
        }
        self.node_points_left = self.node_points_left - 1;
        self.total_points_left = self.total_points_left - 1;
        match self.bounds {
            BoundsSelection::All => true,
            BoundsSelection::Within(b) => b.contains_point(x as i64, y as i64, z as i64),
        }
    }

    /// The number of points that are still to be decoded: no more than
    /// that many points are still to come.
    pub fn size_hint(&self) -> (n: u128)
        ensures
            n == self.total_points_left,
    {
        self.total_points_left
    }
}

} // verus!
