//! The mapping table: which page of the reference document belongs to which
//! name.
//!
//! A table maps keys to 0-based page indices and remembers the order in which
//! its keys first came in, so that a scan over the keys meets them in one
//! fixed order.

use vstd::prelude::*;

verus! {

/// One entry of a mapping table.
#[derive(Debug, PartialEq, Eq)]
pub struct MappingEntry {
    /// The name the page is recorded under.
    pub key: String,
    /// The 0-based index of the page in the reference document.
    pub page_index: u32,
}

/// A mapping from keys to page indices in which no key stands twice.
pub struct MappingTable {
    entries: Vec<MappingEntry>,
}

impl View for MappingTable {
    type V = Map<Seq<char>, u32>;

    /// The mapping that the table holds.
    closed spec fn view(&self) -> Map<Seq<char>, u32> {
        Map::new(
            |k: Seq<char>| self.keys().contains(k),
            |k: Seq<char>| self.entries[self.keys().index_of(k)].page_index,
        )
    }
}

impl MappingTable {
    /// The keys of the table, in the order in which they first came in.
    pub closed spec fn keys(&self) -> Seq<Seq<char>> {
        Seq::new(self.entries.len() as nat, |i: int| self.entries[i].key@)
    }

    #[verifier::type_invariant]
    spec fn distinct_keys(&self) -> bool {
        self.keys().no_duplicates()
    }

    /// A table without entries.
    pub fn new() -> (table: MappingTable)
        ensures
            table@ == Map::<Seq<char>, u32>::empty(),
            table.keys() == Seq::<Seq<char>>::empty(),
    {
        let table = MappingTable { entries: Vec::new() };
        assert(table.keys() =~= Seq::<Seq<char>>::empty());
        assert(table@ =~= Map::<Seq<char>, u32>::empty());
        table
    }

    /// The number of keys.
    pub fn len(&self) -> (n: usize)
        ensures
            n == self.keys().len(),
            n == self@.dom().len(),
            self@.dom().finite(),
            self.keys().no_duplicates(),
            self.keys().to_set() == self@.dom(),
    {
        proof {
            use_type_invariant(self);
            self.keys().unique_seq_to_set();
            assert(self.keys().to_set() =~= self@.dom());
        }
        self.entries.len()
    }

    /// The key at position `i` of [`Self::keys`].
    pub fn key_at(&self, i: usize) -> (key: &String)
        requires
            i < self.keys().len(),
        ensures
            key@ == self.keys()[i as int],
            self@.contains_key(key@),
    {
        assert(self.keys()[i as int] == self.entries[i as int].key@);
        assert(self.keys().contains(self.entries[i as int].key@));
        &self.entries[i].key
    }

    /// The page index recorded under the key at position `i` of
    /// [`Self::keys`].
    pub fn page_at(&self, i: usize) -> (page_index: u32)
        requires
            i < self.keys().len(),
        ensures
            self@.contains_key(self.keys()[i as int]),
            page_index == self@[self.keys()[i as int]],
    {
        proof {
            use_type_invariant(self);
            let k = self.keys()[i as int];
            assert(self.keys().contains(k));
            assert(self.keys().index_of(k) == i);
        }
        self.entries[i].page_index
    }

    /// The position of `key` among the keys, if it is one.
    fn position(&self, key: &String) -> (r: Option<usize>)
        ensures
            match r {
                Some(i) => i < self.keys().len() && self.keys()[i as int] == key@,
                None => !self.keys().contains(key@),
            },
    {
        let mut i: usize = 0;
        while i < self.entries.len()
            invariant
                i <= self.entries.len(),
                forall|j: int| 0 <= j < i ==> self.keys()[j] != key@,
            decreases self.entries.len() - i,
        {
            if self.entries[i].key == *key {
                return Some(i);
            }
            i += 1;
        }
        None
    }

    /// The page index recorded under `key`, if there is one.
    pub fn get(&self, key: &str) -> (r: Option<u32>)
        ensures
            r == if self@.contains_key(key@) {
                Some(self@[key@])
            } else {
                None
            },
    {
        let wanted = key.to_owned();
        match self.position(&wanted) {
            Some(i) => Some(self.page_at(i)),
            None => None,
        }
    }

    /// Records `page_index` under `key`. A page recorded under the same key
    /// before is overwritten, and the key keeps its place in the order.
    pub fn insert(&mut self, key: String, page_index: u32)
        ensures
            final(self)@ == old(self)@.insert(key@, page_index),
            final(self).keys() == if old(self)@.contains_key(key@) {
                old(self).keys()
            } else {
                old(self).keys().push(key@)
            },
    {
        proof {
            use_type_invariant(&*self);
        }
        let ghost before = *self;
        let found = self.position(&key);
        let mut entries: Vec<MappingEntry> = Vec::new();
        core::mem::swap(&mut self.entries, &mut entries);
        match found {
            Some(i) => {
                entries.set(i, MappingEntry { key, page_index });
            },
            None => {
                entries.push(MappingEntry { key, page_index });
            },
        }
        let ghost after_keys = if found is Some {
            before.keys()
        } else {
            before.keys().push(key@)
        };
        assert(Seq::new(entries.len() as nat, |i: int| entries[i].key@) =~= after_keys);
        core::mem::swap(&mut self.entries, &mut entries);
        proof {
            let at = if found is Some {
                found->0 as int
            } else {
                before.keys().len() as int
            };
            assert(self.keys() == after_keys);
            assert(self.keys()[at] == key@);
            assert forall|k: Seq<char>| #[trigger] self@.contains_key(k) implies before@.insert(
                key@,
                page_index,
            ).contains_key(k) && self@[k] == before@.insert(key@, page_index)[k] by {
                let j = self.keys().index_of(k);
                assert(self.keys()[j] == k);
                if k == key@ {
                    assert(j == at);
                } else {
                    assert(before.keys()[j] == k);
                    assert(before.keys().contains(k));
                    assert(before.keys().index_of(k) == j);
                }
            }
            assert forall|k: Seq<char>| #[trigger]
                before@.insert(key@, page_index).contains_key(k) implies self@.contains_key(k) by {
                if k != key@ {
                    let j = before.keys().index_of(k);
                    assert(self.keys()[j] == k);
                }
            }
            assert(self@ =~= before@.insert(key@, page_index));
        }
    }
}

} // verus!
