//! The COPC info record: where the octree lies and where its hierarchy starts.

use crate::double::{Double, Vector};
use crate::endian::{append_u64, le_u64, lemma_u64_round_trip, read_u64_at, u64_bytes};
use crate::error::Error;
use crate::vlr::{padded, text16, text32, Vlr};
use vstd::prelude::*;
use vstd::string::StringSliceAdditionalSpecFns;

verus! {

/// The number of bytes of the stored record.
pub const INFO_BYTES: usize = 160;

/// The number of bytes of the stored record that carry values; zeros follow.
pub const INFO_VALUE_BYTES: usize = 72;

/// The record id of the COPC info record.
pub const INFO_RECORD_ID: u16 = 1;

/// The content of the COPC info record.
#[derive(Clone, Copy, Debug, PartialEq, Eq, Structural)]
pub struct CopcInfo {
    /// The centre of the octree, in world coordinates.
    pub center: Vector,
    /// The distance from the centre to each face of the root cube.
    pub halfsize: Double,
    /// The distance between points at the root; halved at each level.
    pub spacing: Double,
    /// Where in the file the first hierarchy page starts.
    pub root_hier_offset: u64,
    /// The number of bytes of the first hierarchy page.
    pub root_hier_size: u64,
    /// The smallest GPS time of a point.
    pub gpstime_minimum: Double,
    /// The largest GPS time of a point.
    pub gpstime_maximum: Double,
}

impl Default for CopcInfo {
    /// The record in which every value is zero.
    fn default() -> (info: CopcInfo)
        ensures
            info == CopcInfo::spec_zero(),
    {
        CopcInfo {
            center: Vector { x: Double::zero(), y: Double::zero(), z: Double::zero() },
            halfsize: Double::zero(),
            spacing: Double::zero(),
            root_hier_offset: 0,
            root_hier_size: 0,
            gpstime_minimum: Double::zero(),
            gpstime_maximum: Double::zero(),
        }
    }
}

/// The given number of zero bytes.
pub open spec fn zeros(n: nat) -> Seq<u8> {
    Seq::new(n, |i: int| 0u8)
}

impl CopcInfo {
    /// The record in which every value is zero.
    pub open spec fn spec_zero() -> CopcInfo {
        CopcInfo {
            center: Vector {
                x: Double { bits: 0 },
                y: Double { bits: 0 },
                z: Double { bits: 0 },
            },
            halfsize: Double { bits: 0 },
            spacing: Double { bits: 0 },
            root_hier_offset: 0,
            root_hier_size: 0,
            gpstime_minimum: Double { bits: 0 },
            gpstime_maximum: Double { bits: 0 },
        }
    }

    /// The nine values of the record, in the order in which they are stored.
    pub open spec fn values(self) -> Seq<u64> {
        seq![
            self.center.x.bits,
            self.center.y.bits,
            self.center.z.bits,
            self.halfsize.bits,
            self.spacing.bits,
            self.root_hier_offset,
            self.root_hier_size,
            self.gpstime_minimum.bits,
            self.gpstime_maximum.bits,
        ]
    }

    /// The bytes of the values, eight for each, least significant first.
    pub open spec fn value_bytes(self) -> Seq<u8> {
        u64_bytes(self.center.x.bits as int) + u64_bytes(self.center.y.bits as int) + u64_bytes(
            self.center.z.bits as int,
        ) + u64_bytes(self.halfsize.bits as int) + u64_bytes(self.spacing.bits as int)
            + u64_bytes(self.root_hier_offset as int) + u64_bytes(self.root_hier_size as int)
            + u64_bytes(self.gpstime_minimum.bits as int) + u64_bytes(
            self.gpstime_maximum.bits as int,
        )
    }

    /// The 160 bytes of the stored record: the values, then eleven reserved
    /// numbers that are zero.
    pub open spec fn spec_bytes(self) -> Seq<u8> {
        self.value_bytes() + zeros(88)
    }

    /// Value `i` of the record that the bytes hold.
    pub open spec fn value_at(s: Seq<u8>, i: int) -> u64 {
        le_u64(s.subrange(8 * i, 8 * i + 8)) as u64
    }

    /// The record that the bytes hold; what follows the values is not looked
    /// at.
    pub open spec fn spec_parse(s: Seq<u8>) -> CopcInfo
        recommends
            s.len() >= 72,
    {
        CopcInfo {
            center: Vector {
                x: Double { bits: CopcInfo::value_at(s, 0) },
                y: Double { bits: CopcInfo::value_at(s, 1) },
                z: Double { bits: CopcInfo::value_at(s, 2) },
            },
            halfsize: Double { bits: CopcInfo::value_at(s, 3) },
            spacing: Double { bits: CopcInfo::value_at(s, 4) },
            root_hier_offset: CopcInfo::value_at(s, 5),
            root_hier_size: CopcInfo::value_at(s, 6),
            gpstime_minimum: Double { bits: CopcInfo::value_at(s, 7) },
            gpstime_maximum: Double { bits: CopcInfo::value_at(s, 8) },
        }
    }

    /// Reads the record from the data of its VLR. Fails where the data end
    /// before the values do.
    pub fn read_from(data: &[u8]) -> (r: Result<CopcInfo, Error>)
        ensures
            data@.len() >= 72 ==> r == Ok::<CopcInfo, Error>(CopcInfo::spec_parse(data@)),
            data@.len() < 72 ==> r == Err::<CopcInfo, Error>(Error::CorruptMetadata),
    {
        if data.len() < INFO_VALUE_BYTES {
            return Err(Error::CorruptMetadata);
        }
        Ok(
            CopcInfo {
                center: Vector {
                    x: Double::from_bits(read_u64_at(data, 0)),
                    y: Double::from_bits(read_u64_at(data, 8)),
                    z: Double::from_bits(read_u64_at(data, 16)),
                },
                halfsize: Double::from_bits(read_u64_at(data, 24)),
                spacing: Double::from_bits(read_u64_at(data, 32)),
                root_hier_offset: read_u64_at(data, 40),
                root_hier_size: read_u64_at(data, 48),
                gpstime_minimum: Double::from_bits(read_u64_at(data, 56)),
                gpstime_maximum: Double::from_bits(read_u64_at(data, 64)),
            },
        )
    }

    /// The record as a VLR: user id `copc`, record id 1, and the 160 bytes
    /// of the stored record as data.
    pub fn into_vlr(self) -> (vlr: Vlr)
        ensures
            vlr.user_id@ == padded("copc".spec_bytes(), 16),
            vlr.record_id == 1,
            vlr.description@ == padded("COPC info VLR".spec_bytes(), 32),
            vlr.data@ == self.spec_bytes(),
            vlr.data@.len() == 160,
    {
        let mut data: Vec<u8> = Vec::with_capacity(INFO_BYTES);
        append_u64(&mut data, self.center.x.to_bits());
        append_u64(&mut data, self.center.y.to_bits());
        append_u64(&mut data, self.center.z.to_bits());
        append_u64(&mut data, self.halfsize.to_bits());
        append_u64(&mut data, self.spacing.to_bits());
        append_u64(&mut data, self.root_hier_offset);
        append_u64(&mut data, self.root_hier_size);
        append_u64(&mut data, self.gpstime_minimum.to_bits());
        append_u64(&mut data, self.gpstime_maximum.to_bits());
        assert(data@ =~= self.value_bytes());
        let mut i: usize = 0;
        while i < 88
            invariant
                i <= 88,
                data@ == self.value_bytes() + zeros(i as nat),
            decreases 88 - i,
        {
            data.push(0);
            assert(data@ =~= self.value_bytes() + zeros((i + 1) as nat));
            i = i + 1;
        }
        proof {
            lemma_info_round_trip(self);
        }
        Vlr {
            user_id: text16("copc"),
            record_id: INFO_RECORD_ID,
            description: text32("COPC info VLR"),
            data,
        }
    }
}

/// The stored record takes 160 bytes, its last 88 bytes are zero, and
/// reading it gives the record back.
pub proof fn lemma_info_round_trip(info: CopcInfo)
    ensures
        info.spec_bytes().len() == 160,
        forall|i: int| 72 <= i < 160 ==> info.spec_bytes()[i] == 0,
        CopcInfo::spec_parse(info.spec_bytes()) == info,
{
    let v = info.values();
    let s = info.spec_bytes();
    assert forall|i: int| 0 <= i < 9 implies u64_bytes(v[i] as int).len() == 8 && le_u64(
        u64_bytes(v[i] as int),
    ) == v[i] by {
        lemma_u64_round_trip(v[i] as int);
    }
    assert(s.len() == 160);
    assert(s.subrange(0, 8) =~= u64_bytes(v[0] as int));
    assert(s.subrange(8, 16) =~= u64_bytes(v[1] as int));
    assert(s.subrange(16, 24) =~= u64_bytes(v[2] as int));
    assert(s.subrange(24, 32) =~= u64_bytes(v[3] as int));
    assert(s.subrange(32, 40) =~= u64_bytes(v[4] as int));
    assert(s.subrange(40, 48) =~= u64_bytes(v[5] as int));
    assert(s.subrange(48, 56) =~= u64_bytes(v[6] as int));
    assert(s.subrange(56, 64) =~= u64_bytes(v[7] as int));
    assert(s.subrange(64, 72) =~= u64_bytes(v[8] as int));
}

} // verus!
