//! The key-value store that holds the chain: byte keys, byte values.
//!
//! The store keeps every write in the order it was made; the value of a key is
//! the one written last. Whoever keeps the store on disk can copy out what was
//! written since a given moment.

use crate::codec::bytes_eq;
use vstd::prelude::*;
use vstd::slice::*;

verus! {

/// One write: a key and the value put under it.
#[derive(Debug, Clone, PartialEq, Eq)]
pub struct StoreEntry {
    pub key: Vec<u8>,
    pub value: Vec<u8>,
}

/// A map from byte keys to byte values.
#[derive(Debug, Clone, PartialEq, Eq)]
pub struct Store {
    entries: Vec<StoreEntry>,
}

/// The map that a run of writes leaves: each write puts its value under its
/// key, a later write over an earlier one.
pub open spec fn written(entries: Seq<StoreEntry>) -> Map<Seq<u8>, Seq<u8>>
    decreases entries.len(),
{
    if entries.len() == 0 {
        Map::empty()
    } else {
        written(entries.drop_last()).insert(entries.last().key@, entries.last().value@)
    }
}

impl View for Store {
    type V = Map<Seq<u8>, Seq<u8>>;

    closed spec fn view(&self) -> Map<Seq<u8>, Seq<u8>> {
        written(self.entries@)
    }
}

impl Store {
    /// The writes made so far, oldest first.
    pub closed spec fn log(&self) -> Seq<StoreEntry> {
        self.entries@
    }

    /// The store holds what its writes leave.
    pub proof fn lemma_view_is_written(&self)
        ensures
            self@ == written(self.log()),
    {
    }

    /// An empty store.
    pub fn new() -> (store: Store)
        ensures
            store@ == Map::<Seq<u8>, Seq<u8>>::empty(),
            store.log().len() == 0,
    {
        Store { entries: Vec::new() }
    }

    /// The number of writes made so far.
    pub fn write_count(&self) -> (count: usize)
        ensures
            count == self.log().len(),
    {
        self.entries.len()
    }

    /// The write at position `index`, counting from the oldest.
    pub fn written_at(&self, index: usize) -> (entry: &StoreEntry)
        requires
            index < self.log().len(),
        ensures
            *entry == self.log()[index as int],
    {
        &self.entries[index]
    }

    /// Puts `value` under `key`, in place of whatever was there.
    pub fn put(&mut self, key: &[u8], value: &[u8])
        ensures
            final(self)@ == old(self)@.insert(key@, value@),
            final(self).log().len() == old(self).log().len() + 1,
            final(self).log().drop_last() == old(self).log(),
            final(self).log().last().key@ == key@,
            final(self).log().last().value@ == value@,
    {
        let entry = StoreEntry { key: slice_to_vec(key), value: slice_to_vec(value) };
        self.entries.push(entry);
        proof {
            assert(self.entries@.drop_last() =~= old(self).entries@);
        }
    }

    /// The value under `key`, if there is one.
    pub fn get(&self, key: &[u8]) -> (found: Option<Vec<u8>>)
        ensures
            found matches Some(value) ==> self@.contains_key(key@) && self@[key@] == value@,
            found is None ==> !self@.contains_key(key@),
    {
        let mut i: usize = self.entries.len();
        proof {
            assert(self.entries@.take(i as int) =~= self.entries@);
        }
        while i > 0
            invariant
                i <= self.entries.len(),
                written(self.entries@).contains_key(key@) == written(
                    self.entries@.take(i as int),
                ).contains_key(key@),
                written(self.entries@).contains_key(key@) ==> written(self.entries@)[key@]
                    == written(self.entries@.take(i as int))[key@],
            decreases i,
        {
            i -= 1;
            proof {
                let upto = self.entries@.take(i + 1);
                assert(upto.drop_last() =~= self.entries@.take(i as int));
                assert(upto.last() == self.entries@[i as int]);
            }
            if bytes_eq(self.entries[i].key.as_slice(), key) {
                return Some(slice_to_vec(self.entries[i].value.as_slice()));
            }
        }
        None
    }
}

} // verus!
