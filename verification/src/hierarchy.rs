//! Hierarchy entries and pages: where the points of each node are stored.

use crate::endian::{
    append_i32, append_u64, i32_bytes, le_i32, le_u64, lemma_i32_round_trip,
    lemma_u64_round_trip, read_i32_at, read_u64_at, u64_bytes,
};
use crate::error::Error;
use crate::key::VoxelKey;
use crate::vlr::{padded, text16, text32, Vlr};
use vstd::prelude::*;
use vstd::string::StringSliceAdditionalSpecFns;

verus! {

/// The number of bytes that a stored entry takes.
pub const ENTRY_BYTES: usize = 32;

/// The record id of the hierarchy record.
pub const HIERARCHY_RECORD_ID: u16 = 1000;

/// What the hierarchy says of one node.
///
/// With a point count above zero, `offset` and `byte_size` locate the chunk
/// of the node's points. With a point count of -1 they locate a page of
/// further entries. With a point count of zero the node is empty.
#[derive(Clone, Copy, Debug, PartialEq, Eq, Structural)]
pub struct Entry {
    pub key: VoxelKey,
    pub offset: u64,
    pub byte_size: i32,
    pub point_count: i32,
}

impl Default for Entry {
    /// An empty entry under the key that addresses nothing.
    fn default() -> (e: Entry)
        ensures
            e == (Entry {
                key: VoxelKey { level: -1i32, x: 0, y: 0, z: 0 },
                offset: 0,
                byte_size: 0,
                point_count: 0,
            }),
    {
        Entry { key: VoxelKey::default(), offset: 0, byte_size: 0, point_count: 0 }
    }
}

impl Entry {
    /// The thirty-two bytes of the stored entry: the key, the offset, the
    /// byte size, the point count.
    pub open spec fn spec_bytes(self) -> Seq<u8> {
        self.key.spec_bytes() + u64_bytes(self.offset as int) + i32_bytes(self.byte_size as int)
            + i32_bytes(self.point_count as int)
    }

    /// The entry that thirty-two bytes hold.
    pub open spec fn spec_parse(s: Seq<u8>) -> Entry
        recommends
            s.len() == 32,
    {
        Entry {
            key: VoxelKey::spec_parse(s.subrange(0, 16)),
            offset: le_u64(s.subrange(16, 24)) as u64,
            byte_size: le_i32(s.subrange(24, 28)) as i32,
            point_count: le_i32(s.subrange(28, 32)) as i32,
        }
    }

    /// The entry points to a page of further entries.
    pub open spec fn is_page(self) -> bool {
        self.point_count == -1
    }

    /// Reads the entry stored at `pos`. Fails where the bytes end before the
    /// entry does.
    pub fn read_from(buf: &[u8], pos: usize) -> (r: Result<Entry, Error>)
        ensures
            pos + 32 <= buf@.len() ==> r == Ok::<Entry, Error>(
                Entry::spec_parse(buf@.subrange(pos as int, pos + 32)),
            ),
            pos + 32 > buf@.len() ==> r == Err::<Entry, Error>(Error::CorruptMetadata),
    {
        if buf.len() < ENTRY_BYTES || pos > buf.len() - ENTRY_BYTES {
            return Err(Error::CorruptMetadata);
        }
        let ghost s = buf@.subrange(pos as int, pos + 32);
        proof {
            assert(s.subrange(0, 16) =~= buf@.subrange(pos as int, pos + 16));
            assert(s.subrange(16, 24) =~= buf@.subrange(pos + 16, pos + 24));
            assert(s.subrange(24, 28) =~= buf@.subrange(pos + 24, pos + 28));
            assert(s.subrange(28, 32) =~= buf@.subrange(pos + 28, pos + 32));
        }
        match VoxelKey::read_from(buf, pos) {
            Ok(key) => Ok(
                Entry {
                    key,
                    offset: read_u64_at(buf, pos + 16),
                    byte_size: read_i32_at(buf, pos + 24),
                    point_count: read_i32_at(buf, pos + 28),
                },
            ),
            Err(e) => Err(e),
        }
    }

    /// Appends the stored form of the entry.
    pub fn write_to(&self, out: &mut Vec<u8>)
        ensures
            final(out)@ == old(out)@ + self.spec_bytes(),
    {
        self.key.write_to(out);
        append_u64(out, self.offset);
        append_i32(out, self.byte_size);
        append_i32(out, self.point_count);
        assert(out@ =~= old(out)@ + self.spec_bytes());
    }
}

/// A stored key takes sixteen bytes, and reading them gives the key back.
pub proof fn lemma_key_round_trip(k: VoxelKey)
    ensures
        k.spec_bytes().len() == 16,
        VoxelKey::spec_parse(k.spec_bytes()) == k,
{
    lemma_i32_round_trip(k.level as int);
    lemma_i32_round_trip(k.x as int);
    lemma_i32_round_trip(k.y as int);
    lemma_i32_round_trip(k.z as int);
    let s = k.spec_bytes();
    assert(s.subrange(0, 4) =~= i32_bytes(k.level as int));
    assert(s.subrange(4, 8) =~= i32_bytes(k.x as int));
    assert(s.subrange(8, 12) =~= i32_bytes(k.y as int));
    assert(s.subrange(12, 16) =~= i32_bytes(k.z as int));
}

/// A stored entry takes thirty-two bytes, and reading them gives the entry
/// back.
pub proof fn lemma_entry_round_trip(e: Entry)
    ensures
        e.spec_bytes().len() == 32,
        Entry::spec_parse(e.spec_bytes()) == e,
{
    lemma_key_round_trip(e.key);
    lemma_u64_round_trip(e.offset as int);
    lemma_i32_round_trip(e.byte_size as int);
    lemma_i32_round_trip(e.point_count as int);
    let s = e.spec_bytes();
    assert(s.subrange(0, 16) =~= e.key.spec_bytes());
    assert(s.subrange(16, 24) =~= u64_bytes(e.offset as int));
    assert(s.subrange(24, 28) =~= i32_bytes(e.byte_size as int));
    assert(s.subrange(28, 32) =~= i32_bytes(e.point_count as int));
}

/// One of the entries is that of the node.
pub open spec fn has_entry(entries: Seq<Entry>, k: VoxelKey) -> bool {
    exists|i: int| 0 <= i < entries.len() && (#[trigger] entries[i]).key == k
}

/// No two entries are those of one node.
pub open spec fn distinct_keys(entries: Seq<Entry>) -> bool {
    forall|i: int, j: int|
        0 <= i < j < entries.len() ==> (#[trigger] entries[i]).key != (#[trigger] entries[j]).key
}

/// The entries are entries of nodes: none of them stands for a page.
pub open spec fn plain(entries: Seq<Entry>) -> bool {
    forall|i: int| 0 <= i < entries.len() ==> (#[trigger] entries[i]).point_count >= 0
}

/// The number of points that the entries count together.
pub open spec fn sum_counts(entries: Seq<Entry>) -> int
    decreases entries.len(),
{
    if entries.len() == 0 {
        0
    } else {
        sum_counts(entries.drop_last()) + entries.last().point_count
    }
}

/// The stored form of a sequence of entries: one after the other.
pub open spec fn entries_bytes(entries: Seq<Entry>) -> Seq<u8>
    decreases entries.len(),
{
    if entries.len() == 0 {
        Seq::<u8>::empty()
    } else {
        entries_bytes(entries.drop_last()) + entries.last().spec_bytes()
    }
}

/// The `n` entries that the bytes hold, one after the other.
pub open spec fn entries_parse(s: Seq<u8>, n: nat) -> Seq<Entry> {
    Seq::new(n, |i: int| Entry::spec_parse(s.subrange(32 * i, 32 * i + 32)))
}

/// The stored form of `n` entries takes `32 n` bytes.
pub proof fn lemma_entries_bytes_len(entries: Seq<Entry>)
    ensures
        entries_bytes(entries).len() == 32 * entries.len(),
    decreases entries.len(),
{
    if entries.len() > 0 {
        lemma_entries_bytes_len(entries.drop_last());
        lemma_entry_round_trip(entries.last());
    }
}

/// Entry `i` stands at byte `32 i` of the stored form.
pub proof fn lemma_entries_bytes_at(entries: Seq<Entry>, i: int)
    requires
        0 <= i < entries.len(),
    ensures
        entries_bytes(entries).len() == 32 * entries.len(),
        entries_bytes(entries).subrange(32 * i, 32 * i + 32) == entries[i].spec_bytes(),
    decreases entries.len(),
{
    lemma_entries_bytes_len(entries);
    lemma_entries_bytes_len(entries.drop_last());
    lemma_entry_round_trip(entries.last());
    let all = entries_bytes(entries);
    let front = entries_bytes(entries.drop_last());
    if i == entries.len() - 1 {
        assert(all.subrange(32 * i, 32 * i + 32) =~= entries[i].spec_bytes());
    } else {
        lemma_entries_bytes_at(entries.drop_last(), i);
        assert(all.subrange(32 * i, 32 * i + 32) =~= front.subrange(32 * i, 32 * i + 32));
    }
}

/// Reading a stored page gives its entries back.
pub proof fn lemma_page_round_trip(entries: Seq<Entry>)
    ensures
        entries_bytes(entries).len() == 32 * entries.len(),
        entries_parse(entries_bytes(entries), entries.len()) == entries,
{
    lemma_entries_bytes_len(entries);
    assert forall|i: int| 0 <= i < entries.len() implies entries_parse(
        entries_bytes(entries),
        entries.len(),
    )[i] == entries[i] by {
        lemma_entries_bytes_at(entries, i);
        lemma_entry_round_trip(entries[i]);
    }
    assert(entries_parse(entries_bytes(entries), entries.len()) =~= entries);
}

/// A page of the hierarchy: entries, one after the other.
#[derive(Debug)]
pub struct HierarchyPage {
    pub entries: Vec<Entry>,
}

impl HierarchyPage {
    /// Reads the page of `page_size` bytes that starts at `pos`: as many
    /// entries as fit into `page_size` bytes. Fails where the bytes end
    /// before the page does.
    pub fn read_from(buf: &[u8], pos: usize, page_size: u64) -> (r: Result<HierarchyPage, Error>)
        ensures
            match r {
                Ok(page) => {
                    &&& pos + 32 * (page_size / 32) <= buf@.len()
                    &&& page.entries@ == entries_parse(
                        buf@.subrange(pos as int, pos + 32 * (page_size / 32)),
                        (page_size / 32) as nat,
                    )
                },
                Err(e) => e == Error::CorruptMetadata && pos + 32 * (page_size / 32) > buf@.len(),
            },
    {
        let count: u64 = page_size / 32;
        if pos > buf.len() || count > ((buf.len() - pos) / ENTRY_BYTES) as u64 {
            return Err(Error::CorruptMetadata);
        }
        let n: usize = count as usize;
        let ghost page = buf@.subrange(pos as int, pos + 32 * n);
        let mut entries: Vec<Entry> = Vec::with_capacity(n);
        let mut i: usize = 0;
        while i < n
            invariant
                i <= n,
                pos + 32 * n <= buf@.len() <= usize::MAX,
                page == buf@.subrange(pos as int, pos + 32 * n),
                entries@ == entries_parse(page, i as nat),
            decreases n - i,
        {
            assert(page.subrange(32 * i, 32 * i + 32) =~= buf@.subrange(
                pos + 32 * i,
                pos + 32 * i + 32,
            ));
            match Entry::read_from(buf, pos + 32 * i) {
                Ok(e) => {
                    entries.push(e);
                },
                Err(e) => {
                    return Err(e);
                },
            }
            assert(entries@ =~= entries_parse(page, (i + 1) as nat));
            i = i + 1;
        }
        Ok(HierarchyPage { entries })
    }

    /// The page as the hierarchy record: user id `copc`, record id 1000, and
    /// the stored entries as data.
    pub fn into_evlr(self) -> (vlr: Vlr)
        ensures
            vlr.user_id@ == padded("copc".spec_bytes(), 16),
            vlr.record_id == 1000,
            vlr.description@ == padded("EPT Hierarchy".spec_bytes(), 32),
            vlr.data@ == entries_bytes(self.entries@),
    {
        self.evlr()
    }

    /// The hierarchy record of the page.
    pub fn evlr(&self) -> (vlr: Vlr)
        ensures
            vlr.user_id@ == padded("copc".spec_bytes(), 16),
            vlr.record_id == 1000,
            vlr.description@ == padded("EPT Hierarchy".spec_bytes(), 32),
            vlr.data@ == entries_bytes(self.entries@),
    {
        let mut data: Vec<u8> = Vec::new();
        let mut i: usize = 0;
        while i < self.entries.len()
            invariant
                i <= self.entries@.len(),
                data@ == entries_bytes(self.entries@.subrange(0, i as int)),
            decreases self.entries@.len() - i,
        {
            self.entries[i].write_to(&mut data);
            proof {
                let next = self.entries@.subrange(0, i + 1);
                assert(next.drop_last() =~= self.entries@.subrange(0, i as int));
            }
            i = i + 1;
        }
        assert(self.entries@.subrange(0, i as int) =~= self.entries@);
        Vlr {
            user_id: text16("copc"),
            record_id: HIERARCHY_RECORD_ID,
            description: text32("EPT Hierarchy"),
            data,
        }
    }

    /// The number of bytes that the stored page takes.
    pub fn byte_size(&self) -> (n: u64)
        requires
            32 * self.entries@.len() <= u64::MAX,
        ensures
            n == 32 * self.entries@.len(),
    {
        (self.entries.len() as u64) * 32
    }
}

} // verus!
