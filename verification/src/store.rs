//! The key-value store that every operation of the ledger works on.
//!
//! A [`Store`] stands for the store of the host: byte-string keys, byte-string
//! values, and a key that was never written reads as the empty value. It is
//! passed to each operation explicitly, so that one `Store` value is the unit
//! in which writes become visible together.

use crate::bytes::{bytes_eq, copy_bytes};
use vstd::prelude::*;

verus! {

/// The contents of a store: what each key holds. A key that is not in the
/// map holds the empty value.
pub type Contents = Map<Seq<u8>, Seq<u8>>;

/// What a store holds under `key`: the value written last, or the empty
/// value where nothing was written.
pub open spec fn value_at(m: Contents, key: Seq<u8>) -> Seq<u8> {
    if m.dom().contains(key) {
        m[key]
    } else {
        Seq::empty()
    }
}

/// The map that a list of writes leaves behind when they are applied in
/// order: a later write to a key replaces an earlier one.
pub open spec fn written(entries: Seq<(Seq<u8>, Seq<u8>)>) -> Contents
    decreases entries.len(),
{
    if entries.len() == 0 {
        Map::empty()
    } else {
        written(entries.drop_last()).insert(entries.last().0, entries.last().1)
    }
}

/// The entries of a list of byte-string pairs as plain sequences.
pub open spec fn pairs_of(entries: Seq<(Vec<u8>, Vec<u8>)>) -> Seq<(Seq<u8>, Seq<u8>)> {
    Seq::new(entries.len(), |i: int| (entries[i].0@, entries[i].1@))
}

/// Whether two stores hold the same under every key of `keys`.
pub open spec fn agree_on(m: Contents, other: Contents, keys: Set<Seq<u8>>) -> bool {
    forall|key: Seq<u8>| #[trigger] keys.contains(key) ==> value_at(m, key) == value_at(other, key)
}

/// Whether two stores hold the same under every key that is not in `keys`.
pub open spec fn agree_outside(m: Contents, other: Contents, keys: Set<Seq<u8>>) -> bool {
    forall|key: Seq<u8>| !#[trigger] keys.contains(key) ==> value_at(m, key) == value_at(other, key)
}

/// The keys that a list of keys names.
pub open spec fn key_set(keys: Seq<Vec<u8>>) -> Set<Seq<u8>> {
    Set::new(|key: Seq<u8>| exists|i: int| 0 <= i < keys.len() && (#[trigger] keys[i])@ == key)
}

proof fn lemma_written_absent(entries: Seq<(Seq<u8>, Seq<u8>)>, key: Seq<u8>)
    requires
        forall|j: int| 0 <= j < entries.len() ==> entries[j].0 != key,
    ensures
        !written(entries).dom().contains(key),
    decreases entries.len(),
{
    if entries.len() > 0 {
        lemma_written_absent(entries.drop_last(), key);
    }
}

proof fn lemma_written_last(entries: Seq<(Seq<u8>, Seq<u8>)>, i: int, key: Seq<u8>)
    requires
        0 <= i < entries.len(),
        entries[i].0 == key,
        forall|j: int| i < j < entries.len() ==> entries[j].0 != key,
    ensures
        written(entries).dom().contains(key),
        written(entries)[key] == entries[i].1,
    decreases entries.len(),
{
    if i < entries.len() - 1 {
        lemma_written_last(entries.drop_last(), i, key);
    }
}

proof fn lemma_written_update(
    entries: Seq<(Seq<u8>, Seq<u8>)>,
    i: int,
    key: Seq<u8>,
    value: Seq<u8>,
)
    requires
        0 <= i < entries.len(),
        entries[i].0 == key,
        forall|j: int| i < j < entries.len() ==> entries[j].0 != key,
    ensures
        written(entries.update(i, (key, value))) == written(entries).insert(key, value),
    decreases entries.len(),
{
    let updated = entries.update(i, (key, value));
    if i == entries.len() - 1 {
        assert(updated.drop_last() =~= entries.drop_last());
        assert(written(updated) =~= written(entries).insert(key, value));
    } else {
        lemma_written_update(entries.drop_last(), i, key, value);
        assert(updated.drop_last() =~= entries.drop_last().update(i, (key, value)));
        assert(written(updated) =~= written(entries).insert(key, value));
    }
}

proof fn lemma_written_is_finite(entries: Seq<(Seq<u8>, Seq<u8>)>)
    ensures
        written(entries).dom().finite(),
    decreases entries.len(),
{
    if entries.len() > 0 {
        lemma_written_is_finite(entries.drop_last());
    }
}

/// Whether no key occurs twice in a list of pairs.
pub open spec fn distinct_keys(entries: Seq<(Seq<u8>, Seq<u8>)>) -> bool {
    forall|i: int, j: int|
        0 <= i < j < entries.len() ==> (#[trigger] entries[i]).0 != (#[trigger] entries[j]).0
}

/// The index of the last entry of `entries` that names `key`, if any entry
/// does.
fn find_entry(entries: &Vec<(Vec<u8>, Vec<u8>)>, key: &Vec<u8>) -> (found: Option<usize>)
    ensures
        match found {
            Some(i) => i < entries@.len() && entries@[i as int].0@ == key@ && forall|j: int|
                i < j < entries@.len() ==> entries@[j].0@ != key@,
            None => forall|j: int| 0 <= j < entries@.len() ==> entries@[j].0@ != key@,
        },
{
    let mut i: usize = entries.len();
    while i > 0
        invariant
            i <= entries@.len(),
            forall|j: int| i <= j < entries@.len() ==> entries@[j].0@ != key@,
        decreases i,
    {
        i -= 1;
        if bytes_eq(&entries[i].0, key) {
            return Some(i);
        }
    }
    None
}

/// A copy of a list of pairs.
fn copy_entries(entries: &Vec<(Vec<u8>, Vec<u8>)>) -> (copy: Vec<(Vec<u8>, Vec<u8>)>)
    ensures
        pairs_of(copy@) == pairs_of(entries@),
{
    let mut copy: Vec<(Vec<u8>, Vec<u8>)> = Vec::new();
    let mut i: usize = 0;
    while i < entries.len()
        invariant
            i <= entries@.len(),
            copy@.len() == i,
            pairs_of(copy@) == pairs_of(entries@).take(i as int),
        decreases entries@.len() - i,
    {
        let ghost copied = pairs_of(copy@);
        copy.push((copy_bytes(&entries[i].0), copy_bytes(&entries[i].1)));
        assert forall|j: int| 0 <= j < i + 1 implies pairs_of(copy@)[j] == pairs_of(
            entries@,
        ).take(i + 1)[j] by {
            if j < i {
                assert(pairs_of(copy@)[j] == copied[j]);
            }
        }
        assert(pairs_of(copy@) =~= pairs_of(entries@).take(i + 1));
        i += 1;
    }
    assert(pairs_of(entries@).take(entries@.len() as int) =~= pairs_of(entries@));
    copy
}

/// A map of auxiliary values that a caller supplies, each under a key of
/// the caller's choice. It is kept as a list of pairs in which no key occurs
/// twice: an insertion under a key that the map holds replaces the value.
pub struct StorageMap {
    entries: Vec<(Vec<u8>, Vec<u8>)>,
}

impl View for StorageMap {
    type V = Contents;

    closed spec fn view(&self) -> Contents {
        written(pairs_of(self.entries@))
    }
}

impl StorageMap {
    #[verifier::type_invariant]
    spec fn no_key_twice(self) -> bool {
        distinct_keys(pairs_of(self.entries@))
    }

    /// A map that holds nothing.
    pub fn new() -> (map: StorageMap)
        ensures
            map@ == Map::<Seq<u8>, Seq<u8>>::empty(),
    {
        let map = StorageMap { entries: Vec::new() };
        assert(pairs_of(map.entries@) =~= Seq::empty());
        map
    }

    /// Puts `value` under `key`, in place of what the key held.
    pub fn insert(&mut self, key: Vec<u8>, value: Vec<u8>)
        ensures
            final(self)@ == old(self)@.insert(key@, value@),
    {
        proof {
            use_type_invariant(&*self);
        }
        let mut entries: Vec<(Vec<u8>, Vec<u8>)> = Vec::new();
        proof {
            assert(pairs_of(entries@) =~= Seq::empty());
        }
        std::mem::swap(&mut entries, &mut self.entries);
        let ghost before = pairs_of(entries@);
        match find_entry(&entries, &key) {
            Some(i) => {
                proof {
                    lemma_written_update(before, i as int, key@, value@);
                }
                entries.set(i, (key, value));
                assert(pairs_of(entries@) =~= before.update(i as int, (key@, value@)));
            },
            None => {
                entries.push((key, value));
                assert(pairs_of(entries@).drop_last() =~= before);
                assert(pairs_of(entries@) =~= before.push((key@, value@)));
            },
        }
        self.entries = entries;
    }

    /// The value under `key`, if the map holds one.
    pub fn get(&self, key: &Vec<u8>) -> (value: Option<Vec<u8>>)
        ensures
            match value {
                Some(value) => self@.dom().contains(key@) && value@ == self@[key@],
                None => !self@.dom().contains(key@),
            },
    {
        match find_entry(&self.entries, key) {
            Some(i) => {
                proof {
                    lemma_written_last(pairs_of(self.entries@), i as int, key@);
                }
                Some(copy_bytes(&self.entries[i].1))
            },
            None => {
                proof {
                    lemma_written_absent(pairs_of(self.entries@), key@);
                }
                None
            },
        }
    }

    /// The map that holds what `entries` leave behind when they are put in
    /// one after the other: of two entries with the same key the later
    /// counts.
    pub fn from_entries(entries: &Vec<(Vec<u8>, Vec<u8>)>) -> (map: StorageMap)
        ensures
            map@ == written(pairs_of(entries@)),
    {
        let mut map = StorageMap::new();
        let mut i: usize = 0;
        while i < entries.len()
            invariant
                i <= entries@.len(),
                map@ == written(pairs_of(entries@).take(i as int)),
            decreases entries@.len() - i,
        {
            map.insert(copy_bytes(&entries[i].0), copy_bytes(&entries[i].1));
            assert(pairs_of(entries@).take(i + 1).drop_last() =~= pairs_of(entries@).take(
                i as int,
            ));
            i += 1;
        }
        assert(pairs_of(entries@).take(entries@.len() as int) =~= pairs_of(entries@));
        map
    }

    /// The pairs of the map, each key once.
    pub fn to_entries(&self) -> (entries: Vec<(Vec<u8>, Vec<u8>)>)
        ensures
            written(pairs_of(entries@)) == self@,
            distinct_keys(pairs_of(entries@)),
    {
        proof {
            use_type_invariant(self);
        }
        copy_entries(&self.entries)
    }
}

/// A key-value store held in memory.
pub struct Store {
    entries: Vec<(Vec<u8>, Vec<u8>)>,
}

impl View for Store {
    type V = Contents;

    closed spec fn view(&self) -> Contents {
        written(pairs_of(self.entries@))
    }
}

impl Store {
    /// A store in which nothing was written.
    pub fn new() -> (store: Store)
        ensures
            store@ == Map::<Seq<u8>, Seq<u8>>::empty(),
    {
        let store = Store { entries: Vec::new() };
        assert(pairs_of(store.entries@) =~= Seq::empty());
        store
    }

    /// The index of the entry that decides what `key` holds, if any entry
    /// names the key.
    fn find(&self, key: &Vec<u8>) -> (found: Option<usize>)
        ensures
            match found {
                Some(i) => i < self.entries@.len() && self.entries@[i as int].0@ == key@
                    && forall|j: int|
                    i < j < self.entries@.len() ==> self.entries@[j].0@ != key@,
                None => forall|j: int|
                    0 <= j < self.entries@.len() ==> self.entries@[j].0@ != key@,
            },
    {
        find_entry(&self.entries, key)
    }

    /// The value under `key`; the empty value where nothing was written.
    pub fn get(&self, key: &Vec<u8>) -> (value: Vec<u8>)
        ensures
            value@ == value_at(self@, key@),
    {
        match self.find(key) {
            Some(i) => {
                proof {
                    lemma_written_last(pairs_of(self.entries@), i as int, key@);
                }
                copy_bytes(&self.entries[i].1)
            },
            None => {
                proof {
                    lemma_written_absent(pairs_of(self.entries@), key@);
                }
                Vec::new()
            },
        }
    }

    /// Writes `value` under `key`, in place of what the key held.
    pub fn set(&mut self, key: Vec<u8>, value: Vec<u8>)
        ensures
            final(self)@ == old(self)@.insert(key@, value@),
    {
        let ghost before = pairs_of(self.entries@);
        match self.find(&key) {
            Some(i) => {
                proof {
                    lemma_written_update(before, i as int, key@, value@);
                }
                self.entries.set(i, (key, value));
                assert(pairs_of(self.entries@) =~= before.update(i as int, (key@, value@)));
            },
            None => {
                self.entries.push((key, value));
                assert(pairs_of(self.entries@).drop_last() =~= before);
            },
        }
    }

    /// A store that holds what `entries` leave behind when they are written
    /// in order.
    pub fn from_entries(entries: &Vec<(Vec<u8>, Vec<u8>)>) -> (store: Store)
        ensures
            store@ == written(pairs_of(entries@)),
    {
        let mut store = Store::new();
        let mut i: usize = 0;
        while i < entries.len()
            invariant
                i <= entries@.len(),
                store@ == written(pairs_of(entries@).take(i as int)),
            decreases entries@.len() - i,
        {
            store.set(copy_bytes(&entries[i].0), copy_bytes(&entries[i].1));
            assert(pairs_of(entries@).take(i + 1).drop_last() =~= pairs_of(entries@).take(
                i as int,
            ));
            i += 1;
        }
        assert(pairs_of(entries@).take(entries@.len() as int) =~= pairs_of(entries@));
        store
    }

    /// The contents as a list of writes that rebuilds them.
    pub fn to_entries(&self) -> (entries: Vec<(Vec<u8>, Vec<u8>)>)
        ensures
            written(pairs_of(entries@)) == self@,
    {
        copy_entries(&self.entries)
    }

    /// A store holds finitely many keys.
    pub proof fn lemma_finite(&self)
        ensures
            self@.dom().finite(),
    {
        lemma_written_is_finite(pairs_of(self.entries@));
    }

    /// A second store with the same contents.
    pub fn snapshot(&self) -> (copy: Store)
        ensures
            copy@ == self@,
    {
        let entries = self.to_entries();
        Store { entries }
    }
}

} // verus!
