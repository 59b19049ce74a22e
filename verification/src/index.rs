//! The hierarchy index: the entry of every node that the hierarchy names,
//! gathered from its pages.

use crate::error::Error;
use crate::hierarchy::{Entry, HierarchyPage};
use crate::key::{lemma_id_is_injective, VoxelKey};
use std::collections::HashMap;
use vstd::prelude::*;

verus! {

broadcast use vstd::std_specs::hash::group_hash_axioms;

/// Every entry stands under its own key.
pub open spec fn keyed(index: Map<VoxelKey, Entry>) -> bool {
    forall|k: VoxelKey| index.contains_key(k) ==> (#[trigger] index[k]).key == k
}

/// The entries of the hierarchy, found by their keys.
#[derive(Debug)]
pub struct HierarchyIndex {
    map: HashMap<u128, Entry>,
}

impl View for HierarchyIndex {
    type V = Map<VoxelKey, Entry>;

    /// The entry that the index holds for each key.
    closed spec fn view(&self) -> Map<VoxelKey, Entry> {
        Map::new(
            |k: VoxelKey|
                self.map@.contains_key(k.spec_id() as u128) && self.map@[k.spec_id() as u128].key
                    == k,
            |k: VoxelKey| self.map@[k.spec_id() as u128],
        )
    }
}

impl HierarchyIndex {
    /// An index without entries.
    pub fn new() -> (index: HierarchyIndex)
        ensures
            index@ == Map::<VoxelKey, Entry>::empty(),
    {
        let index = HierarchyIndex { map: HashMap::new() };
        assert(index@ =~= Map::<VoxelKey, Entry>::empty());
        index
    }

    /// Puts the entry under its key, in place of what was there.
    pub fn insert(&mut self, entry: Entry)
        ensures
            final(self)@ == old(self)@.insert(entry.key, entry),
    {
        let id = entry.key.id();
        self.map.insert(id, entry);
        proof {
            assert forall|k: VoxelKey| k != entry.key implies k.spec_id() as u128 != id by {
                if k.spec_id() == entry.key.spec_id() {
                    lemma_id_is_injective(k, entry.key);
                }
            }
            assert(self@ =~= old(self)@.insert(entry.key, entry));
        }
    }

    /// The entry under the key, if there is one.
    pub fn get(&self, key: &VoxelKey) -> (r: Option<Entry>)
        ensures
            r == (if self@.contains_key(*key) {
                Some(self@[*key])
            } else {
                None
            }),
            r is Some ==> r->0.key == *key,
    {
        let id = key.id();
        match self.map.get(&id) {
            Some(e) => {
                if e.key.level == key.level && e.key.x == key.x && e.key.y == key.y && e.key.z
                    == key.z {
                    Some(*e)
                } else {
                    None
                }
            },
            None => None,
        }
    }

    /// Every entry stands under its own key.
    pub proof fn lemma_keyed(&self)
        ensures
            keyed(self@),
    {
    }
}

/// What is to be done next to gather the hierarchy.
#[derive(Clone, Copy, Debug, PartialEq, Eq, Structural)]
pub enum LoadStep {
    /// Read the page of `byte_size` bytes at `offset` and supply it.
    Fetch { offset: u64, byte_size: u64 },
    /// Every page has been gathered.
    Done,
}

/// The index after the entries that stand behind the last page entry of
/// `pending` have been put into it, the last of them first.
pub open spec fn absorbed(index: Map<VoxelKey, Entry>, pending: Seq<Entry>) -> Map<
    VoxelKey,
    Entry,
>
    decreases pending.len(),
{
    if pending.len() == 0 || pending.last().is_page() {
        index
    } else {
        absorbed(index.insert(pending.last().key, pending.last()), pending.drop_last())
    }
}

/// The entries up to and including the last page entry of `pending`;
/// none where no entry is a page entry.
pub open spec fn unabsorbed(pending: Seq<Entry>) -> Seq<Entry>
    decreases pending.len(),
{
    if pending.len() == 0 || pending.last().is_page() {
        pending
    } else {
        unabsorbed(pending.drop_last())
    }
}

/// Gathers the entries of all pages of a hierarchy into one index. The
/// caller reads the pages; the loader says which.
#[derive(Debug)]
pub struct HierarchyLoader {
    /// The entries that have been read and not yet looked at.
    pub pending: Vec<Entry>,
    /// The entries of nodes that have been found so far.
    pub index: HierarchyIndex,
}

impl HierarchyLoader {
    /// A loader that starts from the entries of the root page.
    pub fn new(root: HierarchyPage) -> (loader: HierarchyLoader)
        ensures
            loader.pending@ == root.entries@,
            loader.index@ == Map::<VoxelKey, Entry>::empty(),
    {
        HierarchyLoader { pending: root.entries, index: HierarchyIndex::new() }
    }

    /// Looks at the pending entries from the last one backwards. An entry
    /// of a node goes into the index. At an entry of a page the loader stops
    /// and asks for that page; the entry is then done with. A page entry
    /// with a negative size fails the load. With no entry left the
    /// hierarchy is complete.
    pub fn step(&mut self) -> (r: Result<LoadStep, Error>)
        ensures
            final(self).index@ == absorbed(old(self).index@, old(self).pending@),
            unabsorbed(old(self).pending@).len() == 0 ==> r == Ok::<LoadStep, Error>(
                LoadStep::Done,
            ) && final(self).pending@.len() == 0,
            unabsorbed(old(self).pending@).len() > 0 ==> {
                let page = unabsorbed(old(self).pending@).last();
                &&& final(self).pending@ == unabsorbed(old(self).pending@).drop_last()
                &&& page.byte_size >= 0 ==> r == Ok::<LoadStep, Error>(
                    LoadStep::Fetch { offset: page.offset, byte_size: page.byte_size as u64 },
                )
                &&& page.byte_size < 0 ==> r == Err::<LoadStep, Error>(Error::CorruptMetadata)
            },
    {
        loop
            invariant
                absorbed(self.index@, self.pending@) == absorbed(
                    old(self).index@,
                    old(self).pending@,
                ),
                unabsorbed(self.pending@) == unabsorbed(old(self).pending@),
            decreases self.pending@.len(),
        {
            match self.pending.pop() {
                None => {
                    return Ok(LoadStep::Done);
                },
                Some(entry) => {
                    if entry.point_count == -1 {
                        if entry.byte_size < 0 {
                            return Err(Error::CorruptMetadata);
                        }
                        return Ok(
                            LoadStep::Fetch {
                                offset: entry.offset,
                                byte_size: entry.byte_size as u64,
                            },
                        );
                    }
                    self.index.insert(entry);
                },
            }
        }
    }

    /// Takes the entries of a page that was asked for.
    pub fn supply(&mut self, page: HierarchyPage)
        ensures
            final(self).pending@ == old(self).pending@ + page.entries@,
            final(self).index@ == old(self).index@,
    {
        let mut page = page;
        self.pending.append(&mut page.entries);
    }

    /// The index that was gathered.
    pub fn finish(self) -> (index: HierarchyIndex)
        ensures
            index@ == self.index@,
    {
        self.index
    }
}

} // verus!
