//! The layout of a file: how many bytes the records take that stand between
//! the header and the points.

use crate::error::Error;
use crate::forward::parts_of;
use crate::vlr::Vlr;
use vstd::prelude::*;

verus! {

/// The number of bytes that records take after a header, each with its
/// header of 54 bytes.
pub open spec fn records_length(records: Seq<Vlr>) -> int
    decreases records.len(),
{
    if records.len() == 0 {
        0
    } else {
        records_length(records.drop_last()) + 54 + records.last().data@.len()
    }
}

/// The number of bytes that the records take after a header; `None` where
/// it does not fit a position in a file.
pub fn length_of_records(records: &Vec<Vlr>) -> (r: Option<u64>)
    ensures
        match r {
            Some(n) => n == records_length(records@),
            None => records_length(records@) > u64::MAX,
        },
{
    let mut total: u64 = 0;
    let mut i: usize = 0;
    assert(records@.subrange(0, 0) =~= Seq::<Vlr>::empty());
    while i < records.len()
        invariant
            i <= records@.len(),
            total == records_length(records@.subrange(0, i as int)),
        decreases records@.len() - i,
    {
        let ghost next = records@.subrange(0, i + 1);
        assert(next.drop_last() =~= records@.subrange(0, i as int));
        let len: usize = records[i].data.len();
        if len as u128 + 54 + total as u128 > u64::MAX as u128 {
            proof {
                lemma_records_length_grows(records@, i + 1);
            }
            return None;
        }
        total = total + 54 + len as u64;
        i = i + 1;
    }
    assert(records@.subrange(0, i as int) =~= records@);
    Some(total)
}

/// More records take no fewer bytes.
pub proof fn lemma_records_length_grows(records: Seq<Vlr>, n: int)
    requires
        0 <= n <= records.len(),
    ensures
        0 <= records_length(records.subrange(0, n)) <= records_length(records),
    decreases records.len() - n,
{
    if n < records.len() {
        lemma_records_length_grows(records, n + 1);
        assert(records.subrange(0, n + 1).drop_last() =~= records.subrange(0, n));
        lemma_records_length_positive(records.subrange(0, n));
    } else {
        assert(records.subrange(0, n) =~= records);
        lemma_records_length_positive(records);
    }
}

/// Records take no less than no bytes.
pub proof fn lemma_records_length_positive(records: Seq<Vlr>)
    ensures
        0 <= records_length(records),
    decreases records.len(),
{
    if records.len() > 0 {
        lemma_records_length_positive(records.drop_last());
    }
}

/// The number of bytes that are left between the records, which end at
/// `position`, and the points, which start at `offset_to_point_data`.
/// Records that end behind the start of the points are refused.
pub fn padding_before_points(position: u64, offset_to_point_data: u64) -> (r: Result<u64, Error>)
    ensures
        position <= offset_to_point_data ==> r == Ok::<u64, Error>(
            (offset_to_point_data - position) as u64,
        ),
        position > offset_to_point_data ==> r == Err::<u64, Error>(Error::CorruptMetadata),
{
    if position > offset_to_point_data {
        Err(Error::CorruptMetadata)
    } else {
        Ok(offset_to_point_data - position)
    }
}

/// The number of bytes that records with these parts take after a header.
pub open spec fn parts_length(parts: Seq<(Seq<u8>, int, Seq<u8>, Seq<u8>)>) -> int
    decreases parts.len(),
{
    if parts.len() == 0 {
        0
    } else {
        parts_length(parts.drop_last()) + 54 + parts.last().3.len()
    }
}

/// Records take as many bytes as their parts say.
pub proof fn lemma_parts_length(records: Seq<Vlr>)
    ensures
        records_length(records) == parts_length(parts_of(records)),
    decreases records.len(),
{
    if records.len() > 0 {
        lemma_parts_length(records.drop_last());
        assert(parts_of(records).drop_last() =~= parts_of(records.drop_last()));
    }
}

/// Two records take the bytes of each, and a header each.
pub proof fn lemma_parts_length_two(parts: Seq<(Seq<u8>, int, Seq<u8>, Seq<u8>)>)
    requires
        parts.len() == 2,
    ensures
        parts_length(parts) == 54 + parts[0].3.len() + 54 + parts[1].3.len(),
{
    let front = parts.drop_last();
    assert(front.len() == 1);
    assert(front.last() == parts[0]);
    assert(parts.last() == parts[1]);
    assert(parts_length(front.drop_last()) == 0);
    assert(parts_length(front) == parts_length(front.drop_last()) + 54 + front.last().3.len());
    assert(parts_length(parts) == parts_length(front) + 54 + parts.last().3.len());
}

/// Records one after the other take the bytes of both.
pub proof fn lemma_parts_length_concat(
    a: Seq<(Seq<u8>, int, Seq<u8>, Seq<u8>)>,
    b: Seq<(Seq<u8>, int, Seq<u8>, Seq<u8>)>,
)
    ensures
        parts_length(a + b) == parts_length(a) + parts_length(b),
    decreases b.len(),
{
    if b.len() == 0 {
        assert(a + b =~= a);
    } else {
        assert((a + b).drop_last() =~= a + b.drop_last());
        lemma_parts_length_concat(a, b.drop_last());
    }
}

} // verus!
