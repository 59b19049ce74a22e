//! The writer: which header a COPC file gets, into which node each point
//! goes, when a node's chunk is written, and what closes the file.

use crate::bounds::Bounds;
use crate::compressor::CopcCompressor;
use crate::double::{Double, Vector};
use crate::error::{Error, PointAddError};
use crate::forward::{crs_record, epsg_wkt, forward, has_wkt, kept, laz_record, laz_vlr_record, parts_of};
use crate::header::{
    compressed_format_byte, laz_items, spec_laz_items, spec_upgraded, upgrade_format,
    with_wkt_bit, Header, PointAttributes, PointFormat, HEADER_BYTES,
};
use crate::hierarchy::{distinct_keys, has_entry, plain, sum_counts, Entry, HierarchyPage};
use crate::info::CopcInfo;
use crate::key::VoxelKey;
use crate::layout::{
    lemma_parts_length, lemma_parts_length_concat, lemma_parts_length_two, length_of_records,
    parts_length,
};
use crate::octree::{count_in, expected_levels, NodeState, NodeTable};
use crate::query::{parent, root_key};
use crate::vlr::{padded, text32, Vlr};
use vstd::prelude::*;
use vstd::string::StringSliceAdditionalSpecFns;

verus! {

/// What the caller works out of the source header in world coordinates,
/// where the library does no arithmetic.
#[derive(Clone, Copy, Debug, PartialEq, Eq, Structural)]
pub struct Georeference {
    /// The step of the grid along each axis.
    pub scale: Vector,
    /// The root cube on a grid whose step differs between the axes, where
    /// the sides of the cube differ and the caller works them out. On a
    /// grid with one step the library works the cube out, and this box is
    /// not looked at.
    pub root: Bounds,
    /// The extent of the bounds along each axis: maximum minus minimum.
    pub extents: Vector,
    /// The centre of the root cube.
    pub center: Vector,
    /// Half of the side of the root cube.
    pub halfsize: Double,
    /// The EPSG code of the horizontal CRS that the GeoTIFF keys of the
    /// header give, if they give one.
    pub epsg: Option<u16>,
}

/// Whether a box of the grid holds another.
pub fn holds_box(outer: &Bounds, inner: &Bounds) -> (r: bool)
    ensures
        r == (outer.valid() && inner.within(*outer)),
{
    outer.min_x <= outer.max_x && outer.min_y <= outer.max_y && outer.min_z <= outer.max_z
        && outer.min_x <= inner.min_x && outer.min_y <= inner.min_y && outer.min_z
        <= inner.min_z && inner.max_x <= outer.max_x && inner.max_y <= outer.max_y && inner.max_z
        <= outer.max_z
}

/// The node sizes that a writer works with: a size below one stands for
/// the default. `None` where the smallest size is not below the largest.
pub open spec fn spec_node_sizes(min_size: i32, max_size: i32) -> Option<(i32, i32)> {
    let lo = if min_size < 1 {
        crate::MIN_NODE_SIZE_DEFAULT
    } else {
        min_size
    };
    let hi = if max_size < 1 {
        crate::MAX_NODE_SIZE_DEFAULT
    } else {
        max_size
    };
    if lo >= hi {
        None
    } else {
        Some((lo, hi))
    }
}

/// The node sizes that a writer works with.
pub fn node_sizes(min_size: i32, max_size: i32) -> (r: Result<(i32, i32), Error>)
    ensures
        match spec_node_sizes(min_size, max_size) {
            Some(sizes) => r == Ok::<(i32, i32), Error>(sizes) && 0 < sizes.0 < sizes.1,
            None => r == Err::<(i32, i32), Error>(Error::InvalidNodeSize),
        },
{
    let lo: i32 = if min_size < 1 {
        crate::MIN_NODE_SIZE_DEFAULT
    } else {
        min_size
    };
    let hi: i32 = if max_size < 1 {
        crate::MAX_NODE_SIZE_DEFAULT
    } else {
        max_size
    };
    if lo >= hi {
        Err(Error::InvalidNodeSize)
    } else {
        Ok((lo, hi))
    }
}

/// The points of a node that have not been written: the chunk that the
/// node's points are gathered in until the node is full.
#[derive(Debug)]
pub struct OpenChunk {
    /// The key of the node.
    pub key: VoxelKey,
    /// The number of points in the chunk.
    pub points: i32,
    /// The points, one record after the other.
    pub data: Vec<u8>,
}

/// What the writer takes of a point.
#[derive(Debug)]
pub struct PointRecord {
    /// Whether the point lies at a place of the grid that a record can
    /// hold; a point that does not lies out of bounds, and its position is
    /// not looked at.
    pub on_grid: bool,
    /// The position on the grid.
    pub x: i32,
    pub y: i32,
    pub z: i32,
    /// The GPS time.
    pub gps_time: Double,
    /// The number of the return.
    pub return_number: u8,
    /// What the point carries.
    pub attributes: PointAttributes,
    /// The point as a record of the file.
    pub data: Vec<u8>,
}

/// A chunk that was handed out to be written, and of which the writer
/// waits to hear where it was written.
#[derive(Clone, Copy, Debug, PartialEq, Eq, Structural)]
pub struct Ticket {
    pub key: VoxelKey,
    pub points: i32,
    /// The number of bytes of the chunk before compression.
    pub bytes: usize,
}

/// The number of points in the chunks together.
pub open spec fn sum_points(open: Seq<OpenChunk>) -> int
    decreases open.len(),
{
    if open.len() == 0 {
        0
    } else {
        sum_points(open.drop_last()) + open.last().points
    }
}

/// What holds of a node of the table: it is a cell of the octree, and the
/// node above it is in the table too; it knows its chunk; while points are
/// taken, a node that is not full has all its points in its chunk and no
/// entry; a node with an entry has an empty chunk.
pub open spec fn node_fits(
    nodes: Map<VoxelKey, NodeState>,
    open: Seq<OpenChunk>,
    entries: Seq<Entry>,
    draining: bool,
    max_size: int,
    k: VoxelKey,
) -> bool {
    let state = nodes[k];
    &&& k.valid()
    &&& k.level > 0 ==> nodes.contains_key(parent(k))
    &&& state.slot < open.len()
    &&& open[state.slot as int].key == k
    &&& 0 <= state.count
    &&& !draining && state.count < max_size ==> open[state.slot as int].points == state.count
        && !state.written
    &&& state.written ==> open[state.slot as int].points == 0 && has_entry(entries, k)
}

/// What holds of chunk `i` of the list: it holds as many records as it
/// counts points, and it is the chunk of its node.
pub open spec fn chunk_fits(
    nodes: Map<VoxelKey, NodeState>,
    record_size: int,
    chunk: OpenChunk,
    i: int,
) -> bool {
    &&& 0 <= chunk.points
    &&& chunk.data@.len() == chunk.points * record_size
    &&& nodes.contains_key(chunk.key)
    &&& nodes[chunk.key].slot == i
}

/// The node that lies `n` levels above a node.
pub open spec fn lifted(k: VoxelKey, n: nat) -> VoxelKey
    decreases n,
{
    if n == 0 {
        k
    } else {
        parent(lifted(k, (n - 1) as nat))
    }
}

/// How the points are handed out to the nodes.
#[derive(Clone, Copy, Debug, PartialEq, Eq, Structural)]
pub enum Strategy {
    /// Each point goes to the first node on its way that is not full.
    Greedy,
    /// The first `hint` points go to a node drawn at random among the
    /// nodes on their way down to the level `levels` that are not full; the
    /// rest goes the greedy way.
    Stochastic { hint: i32, levels: i32 },
}

/// The name that the writer leaves in the header.
pub open spec fn software_name() -> Seq<u8> {
    padded("COPC-rs v0.5.0".spec_bytes(), 32)
}

/// A COPC file being written.
#[derive(Debug)]
pub struct CopcWriter {
    pub is_closed: bool,
    /// Where the file starts in the sink.
    pub start: u64,
    /// The bookkeeping of the chunks.
    pub compressor: CopcCompressor,
    /// The header of the file; its counters follow the points.
    pub header: Header,
    /// The format of the points.
    pub format: PointFormat,
    /// The entries of the chunks that were written; closing adds the
    /// entries of the nodes without points.
    pub hierarchy: HierarchyPage,
    pub min_node_size: i32,
    pub max_node_size: i32,
    pub copc_info: CopcInfo,
    /// The box of the root cell on the grid.
    pub root: Bounds,
    /// The nodes that points were put into, and the nodes above them.
    pub nodes: NodeTable,
    /// The chunks of the nodes, in the order in which the nodes came into
    /// the table; a chunk that was handed out is empty.
    pub open: Vec<OpenChunk>,
    /// Whether the open chunks are being handed out for the file to be
    /// closed; no point is taken from then on.
    pub draining: bool,
    /// How many of the open chunks were looked at when closing.
    pub drained: usize,
    /// The chunk that was handed out last, until it is written.
    pub pending: Option<Ticket>,
    pub strategy: Strategy,
    /// The number of points that were offered.
    pub offered: u64,
    /// Why a point was refused, if one was.
    pub fault: Option<PointAddError>,
}

impl CopcWriter {
    /// The number of points of the chunk that was handed out and is not
    /// written yet.
    pub open spec fn pending_points(self) -> int {
        match self.pending {
            Some(t) => t.points as int,
            None => 0,
        }
    }

    /// No chunk waits to be written.
    pub open spec fn idle(self) -> bool {
        self.pending is None
    }

    /// What holds of a node of the table.
    pub open spec fn node_ok(self, k: VoxelKey) -> bool {
        node_fits(
            self.nodes@,
            self.open@,
            self.hierarchy.entries@,
            self.draining,
            self.max_node_size as int,
            k,
        )
    }

    /// What holds of a chunk of the list.
    pub open spec fn chunk_ok(self, i: int) -> bool {
        chunk_fits(self.nodes@, self.compressor.record_size as int, self.open@[i], i)
    }

    /// What holds of the chunk that waits to be written: it holds points,
    /// and its node has an empty chunk and no entry yet.
    pub open spec fn pending_ok(self) -> bool {
        match self.pending {
            Some(t) => {
                &&& t.points > 0
                &&& t.bytes == t.points * self.compressor.record_size
                &&& self.nodes@.contains_key(t.key)
                &&& !self.nodes@[t.key].written
                &&& self.open@[self.nodes@[t.key].slot as int].points == 0
                &&& !self.draining ==> self.nodes@[t.key].count >= self.max_node_size
            },
            None => true,
        }
    }

    /// The writer is in order: the root cell is a cube; the node sizes and
    /// the format are valid; the nodes, the chunks and the chunk that waits
    /// are in order; each entry is that of a node, and no node has two; and
    /// every point that the header counts is in an entry, in an open chunk,
    /// or in the chunk that waits to be written.
    pub open spec fn wf(self) -> bool {
        &&& self.root.valid()
        &&& 0 < self.min_node_size < self.max_node_size
        &&& self.format.valid()
        &&& self.compressor.wf()
        &&& self.compressor.record_size == PointFormat::base_length(self.format.number as int)
            + self.format.extra_bytes
        &&& forall|k: VoxelKey| #[trigger]
            self.nodes@.contains_key(k) ==> node_fits(
                self.nodes@,
                self.open@,
                self.hierarchy.entries@,
                self.draining,
                self.max_node_size as int,
                k,
            )
        &&& forall|i: int|
            0 <= i < self.open@.len() ==> chunk_fits(
                self.nodes@,
                self.compressor.record_size as int,
                #[trigger] self.open@[i],
                i,
            )
        &&& forall|i: int|
            0 <= i < self.hierarchy.entries@.len() ==> self.nodes@.contains_key(
                (#[trigger] self.hierarchy.entries@[i]).key,
            ) && self.nodes@[self.hierarchy.entries@[i].key].written
        &&& distinct_keys(self.hierarchy.entries@)
        &&& plain(self.hierarchy.entries@)
        &&& self.pending_ok()
        &&& !self.draining ==> self.drained == 0
        &&& self.drained <= self.open@.len()
        &&& forall|i: int| 0 <= i < self.drained ==> (#[trigger] self.open@[i]).points == 0
        &&& self.header.number_of_points == sum_counts(self.hierarchy.entries@) + sum_points(
            self.open@,
        ) + self.pending_points()
    }

    /// Why a writer cannot be made for a header; `None` where it can. The
    /// node sizes are looked at first, then the version, the CRS, the
    /// bounds, the point format, and last whether the records leave room for
    /// points.
    pub open spec fn spec_fault(
        header: Header,
        geo: Georeference,
        start: u64,
        min_size: i32,
        max_size: i32,
    ) -> Option<Error> {
        let wkt = has_wkt(header.vlrs@) || has_wkt(header.evlrs@);
        if spec_node_sizes(min_size, max_size) is None {
            Some(Error::InvalidNodeSize)
        } else if header.version_major != 1 || !(2 <= header.version_minor <= 4) {
            Some(Error::WrongLasVersion)
        } else if !wkt && geo.epsg is None {
            Some(Error::InvalidCrs)
        } else if !wkt && !(epsg_wkt(geo.epsg->0) is Some && epsg_wkt(geo.epsg->0)->0.len()
            <= u16::MAX) {
            Some(Error::InvalidEPSGCode(geo.epsg->0))
        } else if !geo.extents.x.normal() || !geo.extents.y.normal() || !geo.extents.z.normal()
            || CopcWriter::spec_root(header, geo) is None {
            Some(Error::InvalidBounds)
        } else if spec_upgraded(header.point_data_record_format, header.point_data_record_length)
            is None {
            Some(Error::UnsupportedPointFormat(header.point_data_record_format))
        } else if 375 + CopcWriter::spec_records_length(header, geo) + 8 > u64::MAX {
            Some(Error::CorruptMetadata)
        } else {
            None
        }
    }

    /// The root cell of a file written for a header; `None` where there is
    /// none. The bounds of the header must be a box. On a grid with one
    /// step the root is the cube around the bounds: as long on each side as
    /// the bounds are on their longest, and centred on them. On a grid whose
    /// step differs between the axes it is the box that the caller gives,
    /// which must hold the bounds.
    pub open spec fn spec_root(header: Header, geo: Georeference) -> Option<Bounds> {
        if !header.bounds.valid() {
            None
        } else if geo.scale.x.spec_same(geo.scale.y) && geo.scale.y.spec_same(geo.scale.z) {
            header.bounds.spec_cube()
        } else if geo.root.valid() && header.bounds.within(geo.root) {
            Some(geo.root)
        } else {
            None
        }
    }

    /// The root cell of a file written for a header, on the grid.
    pub fn root_for(header: &Header, geo: &Georeference) -> (r: Option<Bounds>)
        ensures
            r == CopcWriter::spec_root(*header, *geo),
            r is Some ==> r->0.valid() && header.bounds.within(r->0),
    {
        if header.bounds.min_x > header.bounds.max_x || header.bounds.min_y > header.bounds.max_y
            || header.bounds.min_z > header.bounds.max_z {
            return None;
        }
        if geo.scale.x.same(&geo.scale.y) && geo.scale.y.same(&geo.scale.z) {
            header.bounds.cube()
        } else if holds_box(&geo.root, &header.bounds) {
            Some(geo.root)
        } else {
            None
        }
    }

    /// The number of bytes of the records that follow the header of a file
    /// written for a header: the COPC info, the LAZ record with its items,
    /// the records that are kept, and the CRS record where one is added,
    /// each with its header of 54 bytes.
    pub open spec fn spec_records_length(header: Header, geo: Georeference) -> int {
        54 + 160 + 54 + 34 + 6 * spec_laz_items(CopcWriter::spec_format(header)).len()
            + parts_length(kept(header.vlrs@)) + (if has_wkt(header.vlrs@) || has_wkt(
            header.evlrs@,
        ) {
            0
        } else {
            54 + epsg_wkt(geo.epsg->0)->0.len()
        })
    }

    /// The records that follow the header of a file written for a header:
    /// a COPC info in which every value is zero, to be filled in when the
    /// file is closed; the LAZ record; the records that are kept; and, where
    /// none of them gives the CRS as WKT, a record that does.
    pub open spec fn spec_records(header: Header, geo: Georeference) -> Seq<
        (Seq<u8>, int, Seq<u8>, Seq<u8>),
    > {
        seq![
            (
                padded("copc".spec_bytes(), 16),
                1int,
                padded("COPC info VLR".spec_bytes(), 32),
                CopcInfo::spec_zero().spec_bytes(),
            ),
            (
                padded("laszip encoded".spec_bytes(), 16),
                22204int,
                padded("https://laszip.org".spec_bytes(), 32),
                laz_vlr_record(spec_laz_items(CopcWriter::spec_format(header))),
            ),
        ] + kept(header.vlrs@) + (if has_wkt(header.vlrs@) || has_wkt(header.evlrs@) {
            Seq::empty()
        } else {
            seq![
                (
                    padded("LASF_Projection".spec_bytes(), 16),
                    2112int,
                    padded(Seq::<u8>::empty(), 32),
                    epsg_wkt(geo.epsg->0)->0,
                ),
            ]
        })
    }

    /// The COPC info of a writer before any point: the root cube, no
    /// spacing, no hierarchy, and a range of GPS times that any time
    /// narrows.
    pub open spec fn spec_first_info(geo: Georeference) -> CopcInfo {
        CopcInfo {
            center: geo.center,
            halfsize: geo.halfsize,
            spacing: Double { bits: 0 },
            root_hier_offset: 0,
            root_hier_size: 0,
            gpstime_minimum: Double { bits: 0x7FEF_FFFF_FFFF_FFFF },
            gpstime_maximum: Double { bits: 0xFFEF_FFFF_FFFF_FFFF },
        }
    }

    /// A writer of a COPC file for points with the given source header. The
    /// file starts at `start` in the sink; every position that the writer
    /// speaks of counts from there. The points start behind the header of
    /// 375 bytes and the records.
    ///
    /// A node size below one stands for the default; the smallest size
    /// must be below the largest. The source is of LAS 1.2, 1.3 or 1.4.
    /// The records of the source are kept but
    /// for those that the writer makes anew and those that cannot be kept;
    /// where none gives the CRS as WKT, the WKT of the EPSG code is looked
    /// up. The extents of the bounds must be normal numbers, and the root
    /// cell must lie on the grid and hold the bounds. Point formats 1 and 3 become
    /// 6 and 7; formats 6, 7 and 8 stay; others are refused. The header
    /// becomes one of LAS 1.4 without points.
    pub fn new(header: Header, geo: Georeference, start: u64, min_size: i32, max_size: i32) -> (r:
        Result<CopcWriter, Error>)
        ensures
            match CopcWriter::spec_fault(header, geo, start, min_size, max_size) {
                Some(e) => r is Err && r->Err_0 == e,
                None => {
                    &&& r is Ok
                    &&& r->Ok_0.wf()
                    &&& r->Ok_0.idle()
                    &&& !r->Ok_0.is_closed
                    &&& r->Ok_0.start == start
                    &&& (r->Ok_0.min_node_size, r->Ok_0.max_node_size) == spec_node_sizes(
                        min_size,
                        max_size,
                    )->0
                    &&& r->Ok_0.format == CopcWriter::spec_format(header)
                    &&& r->Ok_0.header.version_major == 1
                    &&& r->Ok_0.header.version_minor == 4
                    &&& r->Ok_0.header.header_size == 375
                    &&& r->Ok_0.header.point_data_record_format == 192 + r->Ok_0.format.number
                    &&& r->Ok_0.header.point_data_record_length == PointFormat::base_length(
                        r->Ok_0.format.number as int,
                    ) + r->Ok_0.format.extra_bytes
                    &&& r->Ok_0.header.global_encoding == (if (header.global_encoding / 16) % 2
                        == 1 {
                        header.global_encoding as int
                    } else {
                        header.global_encoding + 16
                    })
                    &&& r->Ok_0.header.generating_software@ == software_name()
                    &&& r->Ok_0.header.number_of_points == 0
                    &&& forall|i: int|
                        0 <= i < 15 ==> r->Ok_0.header.number_of_points_by_return@[i] == 0
                    &&& r->Ok_0.header.bounds == header.bounds
                    &&& r->Ok_0.header.start_of_first_evlr == 0
                    &&& r->Ok_0.header.number_of_evlrs == 0
                    &&& parts_of(r->Ok_0.header.vlrs@) == CopcWriter::spec_records(header, geo)
                    &&& parts_of(r->Ok_0.header.evlrs@) == kept(header.evlrs@)
                    &&& Some(r->Ok_0.root) == CopcWriter::spec_root(header, geo)
                    &&& header.bounds.within(r->Ok_0.root)
                    &&& r->Ok_0.copc_info == CopcWriter::spec_first_info(geo)
                    &&& r->Ok_0.hierarchy.entries@.len() == 0
                    &&& r->Ok_0.nodes@ == Map::<VoxelKey, NodeState>::empty()
                    &&& r->Ok_0.open@.len() == 0
                    &&& !r->Ok_0.draining
                    &&& r->Ok_0.drained == 0
                    &&& r->Ok_0.compressor.start_pos == 375 + CopcWriter::spec_records_length(
                        header,
                        geo,
                    )
                    &&& r->Ok_0.compressor.chunk_table@.len() == 0
                    &&& !r->Ok_0.compressor.finished
                    &&& r->Ok_0.strategy == Strategy::Greedy
                    &&& r->Ok_0.offered == 0
                    &&& r->Ok_0.fault is None
                },
            },
    {
        let (min_node_size, max_node_size) = match node_sizes(min_size, max_size) {
            Ok(sizes) => sizes,
            Err(e) => {
                return Err(e);
            },
        };
        if header.version_major != 1 || header.version_minor < 2 || header.version_minor > 4 {
            return Err(Error::WrongLasVersion);
        }
        let (mut forward_vlrs, wkt_in_vlrs) = forward(&header.vlrs);
        let (forward_evlrs, wkt_in_evlrs) = forward(&header.evlrs);
        if !(wkt_in_vlrs || wkt_in_evlrs) {
            let code: u16 = match geo.epsg {
                Some(code) => code,
                None => {
                    return Err(Error::InvalidCrs);
                },
            };
            let ghost before = forward_vlrs@;
            match crs_record(code) {
                Ok(record) => {
                    forward_vlrs.push(record);
                    assert(parts_of(forward_vlrs@) =~= parts_of(before) + seq![
                        (
                            padded("LASF_Projection".spec_bytes(), 16),
                            2112int,
                            padded(Seq::<u8>::empty(), 32),
                            epsg_wkt(code)->0,
                        ),
                    ]);
                },
                Err(e) => {
                    return Err(e);
                },
            }
        } else {
            assert(parts_of(forward_vlrs@) =~= parts_of(forward_vlrs@) + Seq::empty());
        }
        if !geo.extents.x.is_normal() || !geo.extents.y.is_normal() || !geo.extents.z.is_normal() {
            return Err(Error::InvalidBounds);
        }
        let root = match CopcWriter::root_for(&header, &geo) {
            Some(root) => root,
            None => {
                return Err(Error::InvalidBounds);
            },
        };
        let format = match upgrade_format(
            header.point_data_record_format,
            header.point_data_record_length,
        ) {
            Ok(format) => format,
            Err(e) => {
                return Err(e);
            },
        };
        let mut vlrs: Vec<Vlr> = Vec::new();
        vlrs.push(CopcInfo::default().into_vlr());
        let items = laz_items(&format);
        vlrs.push(laz_record(&items));
        let ghost first = vlrs@;
        let ghost kept_vlrs = forward_vlrs@;
        vlrs.append(&mut forward_vlrs);
        proof {
            assert(parts_of(vlrs@) =~= parts_of(first) + parts_of(kept_vlrs));
            assert(parts_of(vlrs@) =~= CopcWriter::spec_records(header, geo));
            lemma_parts_length(vlrs@);
            lemma_parts_length_concat(parts_of(first), parts_of(kept_vlrs));
            lemma_parts_length_two(parts_of(first));
            if wkt_in_vlrs || wkt_in_evlrs {
                assert(parts_of(kept_vlrs) =~= kept(header.vlrs@));
            } else {
                let added = parts_of(kept_vlrs).last();
                assert(parts_of(kept_vlrs).drop_last() =~= kept(header.vlrs@));
                assert(added.3 == epsg_wkt(geo.epsg->0)->0);
            }
            assert(parts_length(parts_of(vlrs@)) == CopcWriter::spec_records_length(header, geo));
        }
        let records: u64 = match length_of_records(&vlrs) {
            Some(n) => n,
            None => {
                return Err(Error::CorruptMetadata);
            },
        };
        if HEADER_BYTES as u128 + records as u128 + 8 > u64::MAX as u128 {
            return Err(Error::CorruptMetadata);
        }
        let compressor = match CopcCompressor::new(HEADER_BYTES as u64 + records, format.len()) {
            Some(c) => c,
            None => {
                return Err(Error::CorruptMetadata);
            },
        };
        let new_header = Header {
            version_major: 1,
            version_minor: 4,
            header_size: HEADER_BYTES,
            point_data_record_format: compressed_format_byte(&format),
            point_data_record_length: format.len(),
            global_encoding: with_wkt_bit(header.global_encoding),
            generating_software: text32("COPC-rs v0.5.0"),
            number_of_points: 0,
            number_of_points_by_return: [0u64;15],
            bounds: header.bounds,
            start_of_first_evlr: 0,
            number_of_evlrs: 0,
            vlrs,
            evlrs: forward_evlrs,
        };
        let copc_info = CopcInfo {
            center: geo.center,
            halfsize: geo.halfsize,
            spacing: Double::zero(),
            root_hier_offset: 0,
            root_hier_size: 0,
            gpstime_minimum: Double::max_value(),
            gpstime_maximum: Double::min_value(),
        };
        let writer = CopcWriter {
            is_closed: false,
            start,
            compressor,
            header: new_header,
            format,
            hierarchy: HierarchyPage { entries: Vec::new() },
            min_node_size,
            max_node_size,
            copc_info,
            root,
            nodes: NodeTable::new(),
            open: Vec::new(),
            draining: false,
            drained: 0,
            pending: None,
            strategy: Strategy::Greedy,
            offered: 0,
            fault: None,
        };
        Ok(writer)
    }

    /// The format of the points of a file written for a header.
    pub open spec fn spec_format(header: Header) -> PointFormat {
        let u = spec_upgraded(header.point_data_record_format, header.point_data_record_length)->0;
        PointFormat {
            number: u.0 as u8,
            extra_bytes: (u.1 - PointFormat::base_length(u.0)) as u16,
        }
    }
}

impl CopcWriter {
    /// Starts the writing of points, of which the caller expects
    /// `num_points`: with fewer than a smallest and a largest node hold
    /// together, the points go the greedy way, else the stochastic way. A
    /// closed writer takes no points.
    pub fn write(&mut self, num_points: i32) -> (r: Result<Strategy, Error>)
        requires
            old(self).wf(),
        ensures
            final(self).wf(),
            old(self).shut() ==> r is Err && r->Err_0 == Error::ClosedWriter && *final(self)
                == *old(self),
            !old(self).shut() ==> {
                &&& r is Ok
                &&& r->Ok_0 == final(self).strategy
                &&& *final(self) == (CopcWriter { strategy: r->Ok_0, ..*old(self) })
                &&& num_points < old(self).max_node_size + old(self).min_node_size ==> r->Ok_0
                    == Strategy::Greedy
                &&& num_points >= old(self).max_node_size + old(self).min_node_size ==> {
                    &&& r->Ok_0 is Stochastic
                    &&& r->Ok_0->hint == num_points
                    &&& 0 <= r->Ok_0->levels <= 17
                    &&& crate::octree::levels_hold(
                        num_points as int,
                        old(self).max_node_size as int,
                        r->Ok_0->levels as int,
                    )
                    &&& r->Ok_0->levels > 0 ==> !crate::octree::levels_hold(
                        num_points as int,
                        old(self).max_node_size as int,
                        r->Ok_0->levels - 1,
                    )
                }
            },
    {
        if self.is_closed || self.draining {
            return Err(Error::ClosedWriter);
        }
        let strategy = if (num_points as i64) < self.max_node_size as i64
            + self.min_node_size as i64 {
            Strategy::Greedy
        } else {
            Strategy::Stochastic {
                hint: num_points,
                levels: expected_levels(num_points, self.max_node_size),
            }
        };
        self.strategy = strategy;
        Ok(strategy)
    }

    /// Why the point is refused, if it is: its attributes or the length of
    /// its record are not those of the format, or it lies outside the root
    /// cube.
    pub open spec fn refusal(self, point: PointRecord) -> Option<PointAddError> {
        if !self.format.spec_matches(point.attributes) || point.data@.len()
            != self.compressor.record_size {
            Some(PointAddError::PointAttributesDoNotMatch(self.format.number))
        } else if !self.holds(point) {
            Some(PointAddError::PointNotInBounds)
        } else {
            None
        }
    }

    /// What is remembered of the refusals after one more: attributes that
    /// do not match go before a point out of bounds.
    pub open spec fn noted(fault: Option<PointAddError>, refusal: PointAddError) -> Option<
        PointAddError,
    > {
        match refusal {
            PointAddError::PointAttributesDoNotMatch(_) => Some(refusal),
            PointAddError::PointNotInBounds => if fault is None {
                Some(refusal)
            } else {
                fault
            },
        }
    }

    /// The number of points that were offered, after one more.
    pub open spec fn counted_offer(offered: u64) -> u64 {
        if offered < u64::MAX {
            (offered + 1) as u64
        } else {
            offered
        }
    }

    /// Looks at a point before it is added. A point that is refused is
    /// noted and left out; the writing goes on.
    pub(crate) fn check(&mut self, point: &PointRecord) -> (ok: bool)
        requires
            old(self).wf(),
        ensures
            final(self).wf(),
            ok == (old(self).refusal(*point) is None),
            *final(self) == (CopcWriter {
                offered: CopcWriter::counted_offer(old(self).offered),
                fault: match old(self).refusal(*point) {
                    Some(e) => CopcWriter::noted(old(self).fault, e),
                    None => old(self).fault,
                },
                ..*old(self)
            }),
    {
        if self.offered < u64::MAX {
            self.offered = self.offered + 1;
        }
        if !self.format.matches(&point.attributes) || point.data.len()
            != self.compressor.record_size as usize {
            self.fault = Some(PointAddError::PointAttributesDoNotMatch(self.format.number));
            return false;
        }
        if !point.on_grid || !self.root.contains_point(
            point.x as i64,
            point.y as i64,
            point.z as i64,
        ) {
            if self.fault.is_none() {
                self.fault = Some(PointAddError::PointNotInBounds);
            }
            return false;
        }
        true
    }

    /// The writer `after` and the result are those of writing a point in
    /// the greedy way with the writer `before`. A writer that is shut takes
    /// no point. A point that is refused is noted and left out. Any other
    /// point is added in the greedy way.
    pub open spec fn wrote_greedy(
        before: CopcWriter,
        after: CopcWriter,
        point: PointRecord,
        r: Result<Option<OpenChunk>, Error>,
    ) -> bool {
        let checked = CopcWriter { offered: CopcWriter::counted_offer(before.offered), ..before };
        if before.shut() {
            r is Err && r->Err_0 == Error::ClosedWriter && after == before
        } else if before.refusal(point) is Some {
            &&& r is Ok
            &&& r->Ok_0 is None
            &&& after == (CopcWriter {
                fault: CopcWriter::noted(before.fault, before.refusal(point)->0),
                ..checked
            })
        } else {
            match before.greedy_target(point) {
                Some(k) if before.header.number_of_points < u64::MAX => {
                    &&& r is Ok
                    &&& CopcWriter::placed(checked, after, k, point, r->Ok_0)
                    &&& k.spec_bounds(before.root).contains(
                        point.x as int,
                        point.y as int,
                        point.z as int,
                    )
                },
                _ => r is Err && r->Err_0 == Error::PointNotAddedToAnyNode && after == checked,
            }
        }
    }

    /// The writer `after` and the result are those of writing a point in
    /// the stochastic way with the writer `before`, for `hint` points
    /// expected and `levels` levels to fill. A writer that is shut takes no
    /// point. A point that is refused is noted and left out. Any other
    /// point is added to one of its candidates while fewer than `hint`
    /// points were offered before it and it has candidates, and in the
    /// greedy way else.
    pub open spec fn wrote_stochastic(
        before: CopcWriter,
        after: CopcWriter,
        point: PointRecord,
        hint: i32,
        levels: i32,
        r: Result<Option<OpenChunk>, Error>,
    ) -> bool {
        let checked = CopcWriter { offered: CopcWriter::counted_offer(before.offered), ..before };
        let candidates = before.stochastic_candidates(point, levels);
        let greedy = hint <= before.offered || candidates.len() == 0;
        if before.shut() {
            r is Err && r->Err_0 == Error::ClosedWriter && after == before
        } else if before.refusal(point) is Some {
            &&& r is Ok
            &&& r->Ok_0 is None
            &&& after == (CopcWriter {
                fault: CopcWriter::noted(before.fault, before.refusal(point)->0),
                ..checked
            })
        } else if before.header.number_of_points == u64::MAX || (greedy && before.greedy_target(
            point,
        ) is None) {
            r is Err && r->Err_0 == Error::PointNotAddedToAnyNode && after == checked
        } else if greedy {
            &&& r is Ok
            &&& CopcWriter::placed(checked, after, before.greedy_target(point)->0, point, r->Ok_0)
            &&& before.greedy_target(point)->0.spec_bounds(before.root).contains(
                point.x as int,
                point.y as int,
                point.z as int,
            )
        } else {
            &&& r is Ok
            &&& exists|i: int|
                {
                    &&& 0 <= i < candidates.len()
                    &&& CopcWriter::placed(checked, after, #[trigger] candidates[i], point, r->Ok_0)
                    &&& candidates[i].spec_bounds(before.root).contains(
                        point.x as int,
                        point.y as int,
                        point.z as int,
                    )
                }
        }
    }

    /// Writes a point in the greedy way.
    pub fn write_greedy(&mut self, point: &PointRecord) -> (r: Result<Option<OpenChunk>, Error>)
        requires
            old(self).wf(),
            old(self).idle(),
        ensures
            final(self).wf(),
            CopcWriter::wrote_greedy(*old(self), *final(self), *point, r),
    {
        if self.is_closed || self.draining {
            return Err(Error::ClosedWriter);
        }
        if !self.check(point) {
            return Ok(None);
        }
        self.add_point_greedy(point)
    }

    /// Writes a point in the stochastic way, for `hint` points expected and
    /// `levels` levels to fill.
    pub fn write_stochastic(&mut self, point: &PointRecord, hint: i32, levels: i32) -> (r: Result<
        Option<OpenChunk>,
        Error,
    >)
        requires
            old(self).wf(),
            old(self).idle(),
        ensures
            final(self).wf(),
            CopcWriter::wrote_stochastic(*old(self), *final(self), *point, hint, levels, r),
    {
        if self.is_closed || self.draining {
            return Err(Error::ClosedWriter);
        }
        let index: u64 = self.offered;
        if !self.check(point) {
            return Ok(None);
        }
        if hint as i64 <= 0 || (hint as u64) <= index {
            self.add_point_greedy(point)
        } else {
            self.add_point_stochastic(point, levels)
        }
    }

    /// Writes a point in the way that `write` chose. Where a chunk comes
    /// back, the point filled its node: the chunk is to be written, and the
    /// writer told so, before the next point.
    pub fn write_point(&mut self, point: &PointRecord) -> (r: Result<Option<OpenChunk>, Error>)
        requires
            old(self).wf(),
            old(self).idle(),
        ensures
            final(self).wf(),
            match old(self).strategy {
                Strategy::Greedy => CopcWriter::wrote_greedy(*old(self), *final(self), *point, r),
                Strategy::Stochastic { hint, levels } => CopcWriter::wrote_stochastic(
                    *old(self),
                    *final(self),
                    *point,
                    hint,
                    levels,
                    r,
                ),
            },
            r is Ok && r->Ok_0 is Some <==> final(self).pending is Some,
    {
        match self.strategy {
            Strategy::Greedy => self.write_greedy(point),
            Strategy::Stochastic { hint, levels } => self.write_stochastic(point, hint, levels),
        }
    }

    /// What the writing of the points came to: where no point was offered,
    /// that; else the refusal that was noted, if a point was refused.
    pub fn outcome(&self) -> (r: Result<(), Error>)
        ensures
            self.offered == 0 ==> r is Err && r->Err_0 == Error::EmptyIterator,
            self.offered > 0 ==> match self.fault {
                Some(e) => r is Err && r->Err_0 == Error::InvalidPoint(e),
                None => r is Ok,
            },
    {
        if self.offered == 0 {
            return Err(Error::EmptyIterator);
        }
        match self.fault {
            Some(e) => Err(Error::InvalidPoint(e)),
            None => Ok(()),
        }
    }

    /// Whether the writer is closed.
    pub fn is_closed(&self) -> (r: bool)
        ensures
            r == self.is_closed,
    {
        self.is_closed
    }

    /// The number of points that a node holds at most.
    pub fn max_node_size(&self) -> (r: i32)
        ensures
            r == self.max_node_size,
    {
        self.max_node_size
    }

    /// The number of points below which a node counts as small.
    pub fn min_node_size(&self) -> (r: i32)
        ensures
            r == self.min_node_size,
    {
        self.min_node_size
    }

    /// The header of the file; its counters follow the points, and closing
    /// fills in where the extended records start.
    pub fn header(&self) -> (r: &Header)
        ensures
            *r == self.header,
    {
        &self.header
    }

    /// The entries of the chunks that were written.
    pub fn hierarchy_entries(&self) -> (r: &HierarchyPage)
        ensures
            *r == self.hierarchy,
    {
        &self.hierarchy
    }

    /// The COPC info of the file; closing fills in the hierarchy and the
    /// spacing.
    pub fn copc_info(&self) -> (r: &CopcInfo)
        ensures
            *r == self.copc_info,
    {
        &self.copc_info
    }

    /// The number of points in the root node, by which the spacing of the
    /// file is worked out.
    pub fn root_point_count(&self) -> (r: i32)
        ensures
            r == count_in(self.nodes@, root_key()),
    {
        match self.nodes.get(&VoxelKey { level: 0, x: 0, y: 0, z: 0 }) {
            Some(state) => state.count,
            None => 0,
        }
    }
}

} // verus!
