//! Which records of a source header a written file keeps, and the records
//! that the writer adds.

use crate::error::Error;
use crate::header::LazItem;
use crate::vlr::{padded, spells, text16, text32, trimmed, Vlr};
use vstd::prelude::*;
use vstd::string::StringSliceAdditionalSpecFns;

verus! {

/// The record id of a CRS given as WKT.
pub const WKT_RECORD_ID: u16 = 2112;

/// The record id of the LAZ record.
pub const LASZIP_RECORD_ID: u16 = 22204;

/// What a record is to a COPC file.
#[derive(Clone, Copy, Debug, PartialEq, Eq, Structural)]
pub enum RecordKind {
    /// A CRS as WKT: `LASF_Projection`, 2112.
    WktCrs,
    /// A part of a CRS as GeoTIFF keys: `LASF_Projection`, 34735 to 34737.
    GeoTiffCrs,
    /// The COPC info: `copc`, 1.
    CopcInfo,
    /// The hierarchy: `copc`, 1000.
    CopcHierarchy,
    /// The LAZ record: `laszip encoded`, 22204.
    LasZip,
    /// A waveform packet descriptor: `LASF_Spec`, 100 to 354, and 65535.
    Waveform,
    /// Any other record.
    Other,
}

/// What the record with this user id, cut of its NUL bytes, and this record
/// id is. Upper and lower case count as the same in the user id.
pub open spec fn spec_kind(user: Seq<u8>, record_id: u16) -> RecordKind {
    if spells(user, "lasf_projection".spec_bytes()) && record_id == 2112 {
        RecordKind::WktCrs
    } else if spells(user, "lasf_projection".spec_bytes()) && 34735 <= record_id <= 34737 {
        RecordKind::GeoTiffCrs
    } else if spells(user, "copc".spec_bytes()) && record_id == 1 {
        RecordKind::CopcInfo
    } else if spells(user, "copc".spec_bytes()) && record_id == 1000 {
        RecordKind::CopcHierarchy
    } else if spells(user, "laszip encoded".spec_bytes()) && record_id == 22204 {
        RecordKind::LasZip
    } else if spells(user, "lasf_spec".spec_bytes()) && (100 <= record_id < 355 || record_id
        == 65535) {
        RecordKind::Waveform
    } else {
        RecordKind::Other
    }
}

impl RecordKind {
    /// What the record is.
    pub fn of(vlr: &Vlr) -> (kind: RecordKind)
        ensures
            kind == spec_kind(trimmed(vlr.user_id@), vlr.record_id),
    {
        let id = vlr.record_id;
        if vlr.is("lasf_projection", id) {
            if id == 2112 {
                return RecordKind::WktCrs;
            }
            if 34735 <= id && id <= 34737 {
                return RecordKind::GeoTiffCrs;
            }
        }
        if vlr.is("copc", id) {
            if id == 1 {
                return RecordKind::CopcInfo;
            }
            if id == 1000 {
                return RecordKind::CopcHierarchy;
            }
        }
        if id == 22204 && vlr.is("laszip encoded", id) {
            return RecordKind::LasZip;
        }
        if (100 <= id && id < 355 || id == 65535) && vlr.is("lasf_spec", id) {
            return RecordKind::Waveform;
        }
        RecordKind::Other
    }

    /// A written file keeps the record: it is a CRS as WKT, or nothing that
    /// the writer makes anew or cannot keep.
    pub open spec fn forwarded(self) -> bool {
        self == RecordKind::WktCrs || self == RecordKind::Other
    }
}

/// The parts of each record.
pub open spec fn parts_of(records: Seq<Vlr>) -> Seq<(Seq<u8>, int, Seq<u8>, Seq<u8>)> {
    Seq::new(records.len(), |i: int| records[i].parts())
}

/// The parts of the records that a written file keeps, in their order.
pub open spec fn kept(records: Seq<Vlr>) -> Seq<(Seq<u8>, int, Seq<u8>, Seq<u8>)>
    decreases records.len(),
{
    if records.len() == 0 {
        Seq::empty()
    } else {
        let last = records.last();
        kept(records.drop_last()) + (if spec_kind(
            trimmed(last.user_id@),
            last.record_id,
        ).forwarded() {
            seq![last.parts()]
        } else {
            Seq::empty()
        })
    }
}

/// One of the records is a CRS as WKT.
pub open spec fn has_wkt(records: Seq<Vlr>) -> bool {
    exists|i: int|
        0 <= i < records.len() && spec_kind(
            trimmed((#[trigger] records[i]).user_id@),
            records[i].record_id,
        ) == RecordKind::WktCrs
}

/// The records that a written file keeps, and whether a CRS as WKT is
/// among them.
pub fn forward(records: &Vec<Vlr>) -> (r: (Vec<Vlr>, bool))
    ensures
        parts_of(r.0@) == kept(records@),
        r.1 == has_wkt(records@),
{
    let mut out: Vec<Vlr> = Vec::new();
    let mut wkt = false;
    let mut i: usize = 0;
    assert(records@.subrange(0, 0) =~= Seq::<Vlr>::empty());
    assert(parts_of(out@) =~= kept(records@.subrange(0, 0)));
    while i < records.len()
        invariant
            i <= records@.len(),
            parts_of(out@) == kept(records@.subrange(0, i as int)),
            wkt == has_wkt(records@.subrange(0, i as int)),
        decreases records@.len() - i,
    {
        let ghost before = records@.subrange(0, i as int);
        let ghost after = records@.subrange(0, i + 1);
        let ghost old_out = out@;
        let kind = RecordKind::of(&records[i]);
        proof {
            assert(after.drop_last() =~= before);
            assert(after.last() == records@[i as int]);
        }
        match kind {
            RecordKind::WktCrs => {
                out.push(records[i].duplicate());
                wkt = true;
                proof {
                    assert(parts_of(out@) =~= parts_of(old_out) + seq![records@[i as int].parts()]);
                    assert(spec_kind(trimmed(after[i as int].user_id@), after[i as int].record_id)
                        == RecordKind::WktCrs);
                }
            },
            RecordKind::Other => {
                out.push(records[i].duplicate());
                proof {
                    assert(parts_of(out@) =~= parts_of(old_out) + seq![records@[i as int].parts()]);
                }
            },
            _ => {
                assert(parts_of(out@) =~= parts_of(old_out) + Seq::empty());
            },
        }
        proof {
            if has_wkt(before) {
                let j = choose|j: int|
                    0 <= j < before.len() && spec_kind(
                        trimmed((#[trigger] before[j]).user_id@),
                        before[j].record_id,
                    ) == RecordKind::WktCrs;
                assert(after[j] == before[j]);
            }
            if has_wkt(after) && kind != RecordKind::WktCrs {
                let j = choose|j: int|
                    0 <= j < after.len() && spec_kind(
                        trimmed((#[trigger] after[j]).user_id@),
                        after[j].record_id,
                    ) == RecordKind::WktCrs;
                assert(before[j] == after[j]);
            }
        }
        i = i + 1;
    }
    assert(records@.subrange(0, i as int) =~= records@);
    (out, wkt)
}

/// The WKT text of the CRS with an EPSG code, as bytes; `None` for a code
/// without a definition.
pub uninterp spec fn epsg_wkt(code: u16) -> Option<Seq<u8>>;

/// Calls `crs_definitions::from_code` and takes the bytes of the `wkt` text
/// of the definition that it finds.
#[verifier::external_body]
fn lookup_wkt(code: u16) -> (r: Option<Vec<u8>>)
    ensures
        match r {
            Some(wkt) => epsg_wkt(code) == Some(wkt@),
            None => epsg_wkt(code) is None,
        },
{
    match crs_definitions::from_code(code) {
        Some(def) => Some(def.wkt.as_bytes().to_vec()),
        None => None,
    }
}

/// The record that gives a CRS as WKT: user id `LASF_Projection`, record id
/// 2112, no description. A text that is too long for a record is refused
/// like a code without a definition.
pub fn wkt_record(code: u16, wkt: Option<Vec<u8>>) -> (r: Result<Vlr, Error>)
    ensures
        match wkt {
            Some(text) if text@.len() <= u16::MAX => r is Ok && r->Ok_0.parts() == (
                padded("LASF_Projection".spec_bytes(), 16),
                2112int,
                padded(Seq::<u8>::empty(), 32),
                text@,
            ),
            _ => r is Err && r->Err_0 == Error::InvalidEPSGCode(code),
        },
{
    match wkt {
        Some(text) => {
            if text.len() > u16::MAX as usize {
                return Err(Error::InvalidEPSGCode(code));
            }
            let description = [0u8;32];
            assert(description@ =~= padded(Seq::<u8>::empty(), 32));
            Ok(
                Vlr {
                    user_id: text16("LASF_Projection"),
                    record_id: WKT_RECORD_ID,
                    description,
                    data: text,
                },
            )
        },
        None => Err(Error::InvalidEPSGCode(code)),
    }
}

/// The record that gives the CRS with an EPSG code as WKT; a code without
/// a definition is refused.
pub fn crs_record(code: u16) -> (r: Result<Vlr, Error>)
    ensures
        match epsg_wkt(code) {
            Some(text) if text.len() <= u16::MAX => r is Ok && r->Ok_0.parts() == (
                padded("LASF_Projection".spec_bytes(), 16),
                2112int,
                padded(Seq::<u8>::empty(), 32),
                text,
            ),
            _ => r is Err && r->Err_0 == Error::InvalidEPSGCode(code),
        },
{
    wkt_record(code, lookup_wkt(code))
}

/// The data of the LAZ record for compressed points made of these items,
/// in chunks of variable size.
pub uninterp spec fn laz_vlr_record(items: Seq<LazItem>) -> Seq<u8>;

/// Builds the items with `laz::LazItemRecordBuilder`, the record with
/// `laz::LazVlrBuilder` and `with_variable_chunk_size`, and takes the bytes
/// that `laz::LazVlr::write_to` writes into a vector, which cannot fail.
/// The builder takes the way of compressing from the first item, so there
/// must be one. The record has 34 bytes before its items, and six bytes for
/// each item.
#[verifier::external_body]
fn laz_vlr_data(items: &Vec<LazItem>) -> (data: Vec<u8>)
    requires
        items@.len() > 0,
    ensures
        data@ == laz_vlr_record(items@),
        data@.len() == 34 + 6 * items@.len(),
{
    let mut builder = laz::LazItemRecordBuilder::new();
    for item in items.iter() {
        builder.add_item(match item {
            LazItem::Point14 => laz::LazItemType::Point14,
            LazItem::RGB14 => laz::LazItemType::RGB14,
            LazItem::RGBNIR14 => laz::LazItemType::RGBNIR14,
            LazItem::Byte14(n) => laz::LazItemType::Byte14(*n),
        });
    }
    let vlr = laz::LazVlrBuilder::new(builder.build()).with_variable_chunk_size().build();
    let mut data = Vec::new();
    let _ = vlr.write_to(&mut data);
    data
}

/// The LAZ record for compressed points made of these items, of which
/// there is at least one: user id `laszip encoded`, record id 22204, and
/// data of 34 bytes and six more for each item.
pub fn laz_record(items: &Vec<LazItem>) -> (vlr: Vlr)
    requires
        items@.len() > 0,
    ensures
        vlr.parts() == (
            padded("laszip encoded".spec_bytes(), 16),
            22204int,
            padded("https://laszip.org".spec_bytes(), 32),
            laz_vlr_record(items@),
        ),
        vlr.data@.len() == 34 + 6 * items@.len(),
{
    Vlr {
        user_id: text16("laszip encoded"),
        record_id: LASZIP_RECORD_ID,
        description: text32("https://laszip.org"),
        data: laz_vlr_data(items),
    }
}

} // verus!
