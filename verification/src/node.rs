//! The nodes of an octree in memory.

use crate::bounds::Bounds;
use crate::hierarchy::Entry;
use crate::key::VoxelKey;
use vstd::prelude::*;

verus! {

/// A node of the octree: what the hierarchy says of it, and the box of its
/// cell. The keys of its children follow from its own key.
#[derive(Clone, Copy, Debug, PartialEq, Eq, Structural)]
pub struct OctreeNode {
    /// The entry of the node.
    pub entry: Entry,
    /// The box of the node's cell.
    pub bounds: Bounds,
}

impl OctreeNode {
    /// A node without points under the key that addresses nothing, with a
    /// box that is the origin.
    pub fn new() -> (node: OctreeNode)
        ensures
            node.entry == (Entry {
                key: VoxelKey { level: -1i32, x: 0, y: 0, z: 0 },
                offset: 0,
                byte_size: 0,
                point_count: 0,
            }),
            node.bounds == Bounds::point(0, 0, 0),
    {
        OctreeNode { entry: Entry::default(), bounds: Bounds::new(0, 0, 0, 0, 0, 0) }
    }

    /// Whether the node holds as many points as a node may hold.
    pub fn is_full(&self, max_size: i32) -> (full: bool)
        ensures
            full == (self.entry.point_count >= max_size),
    {
        self.entry.point_count >= max_size
    }

    /// The keys of the eight children of the node, in the order of their
    /// directions.
    pub fn children(&self) -> (keys: Vec<VoxelKey>)
        requires
            self.entry.key.level < i32::MAX,
        ensures
            keys@.len() == 8,
            forall|dir: int|
                0 <= dir < 8 ==> keys@[dir] == #[trigger] self.entry.key.spec_child(dir as i32),
    {
        self.entry.key.children()
    }
}

} // verus!
