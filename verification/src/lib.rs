//! Reading and writing Cloud Optimized Point Cloud (COPC) data: the container
//! model, the octree index and query planner, and the octree builder.
//!
//! A COPC file is a LAZ 1.4 file whose points are kept in the nodes of an
//! octree, one compressed chunk for each node, with a hierarchy that says
//! where the chunk of each node lies. This library holds what is decided
//! and computed when such a file is read or written; reading and writing
//! bytes, compressing and decompressing points, and arithmetic in world
//! coordinates are left to the caller.
//!
//! - [`key`], [`bounds`]: the cells of the octree and their boxes on the
//!   integer grid of the points.
//! - [`hierarchy`], [`info`], [`vlr`], [`endian`]: the stored forms of the
//!   COPC records.
//! - [`reader`], [`index`], [`query`], [`iter`]: the records of a file, its
//!   hierarchy, the nodes that a query asks for, and the order in which
//!   their chunks are read.
//! - [`writer`], [`placing`], [`closing`], [`octree`], [`forward`],
//!   [`header`], [`layout`], [`path`]: the header of a written file, the
//!   node that takes each point, and the entries that close the file.
//! - [`compressor`], [`decompressor`], [`points`]: the bookkeeping of the
//!   chunks.
//! - [`double`], [`error`], [`node`]: numbers in the stored format, failures,
//!   and the nodes that a query is answered with.

use vstd::prelude::*;

pub use crate::bounds::Bounds;
pub use crate::double::{Double, Vector};
pub use crate::error::{Error, PointAddError};
pub use crate::header::Header;
pub use crate::hierarchy::{Entry, HierarchyPage};
pub use crate::info::CopcInfo;
pub use crate::iter::{PointIter, PointStep};
pub use crate::key::VoxelKey;
pub use crate::query::{BoundsSelection, LodSelection};
pub use crate::reader::{CopcHeaders, CopcReader};
pub use crate::vlr::Vlr;
pub use crate::writer::CopcWriter;

pub mod bounds;
pub mod closing;
pub mod compressor;
pub mod decompressor;
pub mod double;
pub mod endian;
pub mod error;
pub mod forward;
pub mod header;
pub mod hierarchy;
pub mod index;
pub mod info;
pub mod iter;
pub mod key;
pub mod layout;
pub mod node;
pub mod octree;
pub mod path;
pub mod placing;
pub mod points;
pub mod query;
pub mod reader;
pub mod vlr;
pub mod writer;

verus! {

/// Smallest number of points that a node holds unless the caller says otherwise.
pub const MIN_NODE_SIZE_DEFAULT: i32 = 256;

/// Largest number of points that a node holds unless the caller says otherwise.
pub const MAX_NODE_SIZE_DEFAULT: i32 = 16384;

} // verus!
