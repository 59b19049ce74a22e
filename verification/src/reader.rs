//! The reader: the records that a COPC file must have, and the points that
//! a query asks for.

use crate::bounds::Bounds;
use crate::error::Error;
use crate::forward::{spec_kind, RecordKind};
use crate::header::{Header, HEADER_BYTES};
use crate::hierarchy::{entries_parse, Entry, HierarchyPage};
use crate::index::HierarchyIndex;
use crate::info::CopcInfo;
use crate::iter::PointIter;
use crate::key::VoxelKey;
use crate::query::{
    answers, descending, level_range, load_octree_for_query, points_in, spec_level_range,
    BoundsSelection, LodSelection, Query,
};
use crate::vlr::{trimmed, Vlr};
use vstd::prelude::*;

verus! {

/// What the record at a place is.
pub open spec fn kind_at(records: Seq<Vlr>, i: int) -> RecordKind {
    spec_kind(trimmed(records[i].user_id@), records[i].record_id)
}

/// The place of the last record of a kind among the first `n`; -1 where
/// there is none.
pub open spec fn last_of(records: Seq<Vlr>, kind: RecordKind, n: int) -> int
    decreases n,
{
    if n <= 0 {
        -1
    } else if kind_at(records, n - 1) == kind {
        n - 1
    } else {
        last_of(records, kind, n - 1)
    }
}

/// The records that make a LAS file a COPC file.
#[derive(Debug)]
pub struct CopcHeaders {
    /// The content of the COPC info record.
    pub copc_info: CopcInfo,
    /// The LAZ record, which says how the points are compressed.
    pub laszip_vlr: Vlr,
    /// The hierarchy record, whose data are the root page.
    pub hierarchy_vlr: Vlr,
}

impl CopcHeaders {
    /// Why the records do not make a COPC file; `None` where they do. The
    /// COPC info must be the first record and hold its values; a hierarchy
    /// record and a LAZ record must be among the records.
    pub open spec fn spec_fault(records: Seq<Vlr>) -> Option<Error> {
        if records.len() == 0 || kind_at(records, 0) != RecordKind::CopcInfo {
            Some(Error::CopcInfoVlrNotFound)
        } else if records[0].data@.len() < 72 {
            Some(Error::CorruptMetadata)
        } else if last_of(records, RecordKind::CopcHierarchy, records.len() as int) < 0 {
            Some(Error::EptHierarchyVlrNotFound)
        } else if last_of(records, RecordKind::LasZip, records.len() as int) < 0 {
            Some(Error::LasZipVlrNotFound)
        } else {
            None
        }
    }

    /// Picks the COPC records from the records of a file, which come in the
    /// order of the file: those after the header, then the extended ones.
    /// Of several hierarchy or LAZ records the last one counts.
    pub fn read_from(records: &Vec<Vlr>) -> (r: Result<CopcHeaders, Error>)
        ensures
            match CopcHeaders::spec_fault(records@) {
                Some(e) => r is Err && r->Err_0 == e,
                None => {
                    &&& r is Ok
                    &&& r->Ok_0.copc_info == CopcInfo::spec_parse(records@[0].data@)
                    &&& r->Ok_0.hierarchy_vlr.parts() == records@[last_of(
                        records@,
                        RecordKind::CopcHierarchy,
                        records@.len() as int,
                    )].parts()
                    &&& r->Ok_0.laszip_vlr.parts() == records@[last_of(
                        records@,
                        RecordKind::LasZip,
                        records@.len() as int,
                    )].parts()
                },
            },
    {
        if records.len() == 0 {
            return Err(Error::CopcInfoVlrNotFound);
        }
        match RecordKind::of(&records[0]) {
            RecordKind::CopcInfo => {},
            _ => {
                return Err(Error::CopcInfoVlrNotFound);
            },
        }
        let copc_info = match CopcInfo::read_from(records[0].data.as_slice()) {
            Ok(info) => info,
            Err(e) => {
                return Err(e);
            },
        };
        let mut hierarchy: Option<usize> = None;
        let mut laszip: Option<usize> = None;
        let mut i: usize = 0;
        while i < records.len()
            invariant
                i <= records@.len(),
                match hierarchy {
                    Some(at) => at == last_of(records@, RecordKind::CopcHierarchy, i as int),
                    None => last_of(records@, RecordKind::CopcHierarchy, i as int) == -1,
                },
                match laszip {
                    Some(at) => at == last_of(records@, RecordKind::LasZip, i as int),
                    None => last_of(records@, RecordKind::LasZip, i as int) == -1,
                },
                hierarchy is Some ==> hierarchy->0 < i,
                laszip is Some ==> laszip->0 < i,
            decreases records@.len() - i,
        {
            match RecordKind::of(&records[i]) {
                RecordKind::CopcHierarchy => {
                    hierarchy = Some(i);
                },
                RecordKind::LasZip => {
                    laszip = Some(i);
                },
                _ => {},
            }
            i = i + 1;
        }
        let h = match hierarchy {
            Some(at) => at,
            None => {
                return Err(Error::EptHierarchyVlrNotFound);
            },
        };
        let l = match laszip {
            Some(at) => at,
            None => {
                return Err(Error::LasZipVlrNotFound);
            },
        };
        Ok(
            CopcHeaders {
                copc_info,
                laszip_vlr: records[l].duplicate(),
                hierarchy_vlr: records[h].duplicate(),
            },
        )
    }

    /// The root page of the hierarchy: the entries that fit into the size
    /// that the COPC info gives, read from the data of the hierarchy record.
    pub fn root_page(&self) -> (r: Result<HierarchyPage, Error>)
        ensures
            match r {
                Ok(page) => {
                    &&& 32 * (self.copc_info.root_hier_size / 32) <= self.hierarchy_vlr.data@.len()
                    &&& page.entries@ == entries_parse(
                        self.hierarchy_vlr.data@.subrange(
                            0,
                            32 * (self.copc_info.root_hier_size / 32) as int,
                        ),
                        (self.copc_info.root_hier_size / 32) as nat,
                    )
                },
                Err(e) => e == Error::CorruptMetadata && 32 * (self.copc_info.root_hier_size / 32)
                    > self.hierarchy_vlr.data@.len(),
            },
    {
        HierarchyPage::read_from(self.hierarchy_vlr.data.as_slice(), 0, self.copc_info.root_hier_size)
    }
}

/// A COPC file that has been opened: its header, its COPC info, the box of
/// its root cell on the grid, and its hierarchy.
#[derive(Debug)]
pub struct CopcReader {
    header: Header,
    copc_info: CopcInfo,
    root: Bounds,
    index: HierarchyIndex,
}

impl CopcReader {
    /// The box of the root cell.
    pub closed spec fn spec_root(self) -> Bounds {
        self.root
    }

    /// The COPC info of the file.
    pub closed spec fn spec_copc_info(self) -> CopcInfo {
        self.copc_info
    }

    /// The header of the file.
    pub closed spec fn spec_header(self) -> Header {
        self.header
    }

    /// The entry of each node that the hierarchy names.
    pub closed spec fn spec_index(self) -> Map<VoxelKey, Entry> {
        self.index@
    }

    /// The root cell is a box on the grid.
    pub closed spec fn wf(self) -> bool {
        self.root.valid()
    }

    /// Why a file cannot be read; `None` where it can. A COPC file is a
    /// LAS 1.4 file, whose header has 375 bytes, and its root cell is a
    /// box on the grid: the cube of the world, whose sides differ on a grid
    /// whose step differs between the axes.
    pub open spec fn spec_fault(header: Header, root: Bounds) -> Option<Error> {
        if header.version_major != 1 || header.version_minor != 4 {
            Some(Error::WrongLasVersion)
        } else if header.header_size != 375 {
            Some(Error::HeaderNot375Bytes)
        } else if !root.valid() {
            Some(Error::InvalidBounds)
        } else {
            None
        }
    }

    /// A reader of a file with this header, COPC info and hierarchy, whose
    /// root cell has the box `root` on the grid.
    pub fn new(header: Header, copc_info: CopcInfo, root: Bounds, index: HierarchyIndex) -> (r:
        Result<CopcReader, Error>)
        ensures
            match CopcReader::spec_fault(header, root) {
                Some(e) => r is Err && r->Err_0 == e,
                None => r is Ok && r->Ok_0.wf() && r->Ok_0.spec_root() == root
                    && r->Ok_0.spec_copc_info() == copc_info && r->Ok_0.spec_header() == header
                    && r->Ok_0.spec_index() == index@,
            },
    {
        if header.version_major != 1 || header.version_minor != 4 {
            return Err(Error::WrongLasVersion);
        }
        if header.header_size != HEADER_BYTES {
            return Err(Error::HeaderNot375Bytes);
        }
        if root.min_x > root.max_x || root.min_y > root.max_y || root.min_z > root.max_z {
            return Err(Error::InvalidBounds);
        }
        Ok(CopcReader { header, copc_info, root, index })
    }

    /// The header of the file.
    pub fn header(&self) -> (h: &Header)
        ensures
            *h == self.spec_header(),
    {
        &self.header
    }

    /// The COPC info of the file.
    pub fn copc_info(&self) -> (info: &CopcInfo)
        ensures
            *info == self.spec_copc_info(),
    {
        &self.copc_info
    }

    /// An iterator over the points that a query asks for: those of the
    /// nodes in the range of levels whose cells, and the cells above them,
    /// touch the box. The box is given on the grid. A resolution that is
    /// not a normal number above zero is refused.
    pub fn points(&self, levels: LodSelection, bounds: BoundsSelection) -> (r: Result<
        PointIter,
        Error,
    >)
        requires
            self.wf(),
        ensures
            match spec_level_range(levels, self.spec_copc_info().spacing) {
                None => r is Err && r->Err_0 == Error::InvalidResolution,
                Some((first, end)) => {
                    &&& r is Ok
                    &&& r->Ok_0.wf()
                    &&& answers(
                        self.spec_index(),
                        Query {
                            root: self.spec_root(),
                            level_min: first as i64,
                            level_max: end as i64,
                            within: bounds,
                        },
                        r->Ok_0.nodes@,
                    )
                    &&& descending(r->Ok_0.nodes@)
                    &&& r->Ok_0.bounds == bounds
                    &&& r->Ok_0.position == 0
                    &&& r->Ok_0.node_points_left == 0
                    &&& r->Ok_0.total_points_left == points_in(r->Ok_0.nodes@)
                },
            },
    {
        let (level_min, level_max) = match level_range(&levels, &self.copc_info.spacing) {
            Ok(range) => range,
            Err(e) => {
                return Err(e);
            },
        };
        let query = Query { root: self.root, level_min, level_max, within: bounds };
        let nodes = load_octree_for_query(&self.index, &query);
        Ok(PointIter::new(nodes, bounds))
    }
}

} // verus!
