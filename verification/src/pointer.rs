//! Storage pointers: keys derived segment by segment, and typed access to
//! the values under them.

use crate::bytes::{
    copy_bytes,
    decode_u128,
    encode_u128,
    encode_u32,
    join_bytes,
    le128,
    le32,
    u128_of,
};
use crate::store::{Store, value_at};
use vstd::prelude::*;
use vstd::string::*;

verus! {

/// A key into the store, built from keyword and selector segments. The key
/// is the concatenation of the segments in the order of the calls that added
/// them; nothing separates them but what the keywords themselves hold.
pub struct StoragePointer {
    key: Vec<u8>,
}

impl View for StoragePointer {
    type V = Seq<u8>;

    closed spec fn view(&self) -> Seq<u8> {
        self.key@
    }
}

impl StoragePointer {
    /// The pointer whose key is `key`.
    pub fn wrap(key: &Vec<u8>) -> (pointer: StoragePointer)
        ensures
            pointer@ == key@,
    {
        StoragePointer { key: copy_bytes(key) }
    }

    /// The key of this pointer.
    pub fn unwrap(&self) -> (key: Vec<u8>)
        ensures
            key@ == self@,
    {
        copy_bytes(&self.key)
    }

    /// The pointer whose key is the bytes of `word`.
    pub fn from_keyword(word: &str) -> (pointer: StoragePointer)
        ensures
            pointer@ == word.spec_bytes(),
    {
        StoragePointer { key: word.as_bytes_vec() }
    }

    /// This pointer's key followed by the bytes of `word`.
    pub fn keyword(&self, word: &str) -> (pointer: StoragePointer)
        ensures
            pointer@ == self@ + word.spec_bytes(),
    {
        let tail = word.as_bytes_vec();
        StoragePointer { key: join_bytes(&self.key, &tail) }
    }

    /// This pointer's key followed by the bytes of `word`.
    pub fn select(&self, word: &Vec<u8>) -> (pointer: StoragePointer)
        ensures
            pointer@ == self@ + word@,
    {
        StoragePointer { key: join_bytes(&self.key, word) }
    }

    /// What the store holds under this key; the empty value where nothing
    /// was written.
    pub fn get(&self, store: &Store) -> (value: Vec<u8>)
        ensures
            value@ == value_at(store@, self@),
    {
        store.get(&self.key)
    }

    /// Writes `value` under this key.
    pub fn set(&self, store: &mut Store, value: Vec<u8>)
        ensures
            final(store)@ == old(store)@.insert(self@, value@),
    {
        store.set(copy_bytes(&self.key), value);
    }

    /// The 128-bit quantity under this key; zero where nothing was written.
    pub fn get_value_u128(&self, store: &Store) -> (v: u128)
        ensures
            v == u128_of(value_at(store@, self@)),
    {
        let value = store.get(&self.key);
        decode_u128(&value)
    }

    /// Writes `v` under this key as sixteen little-endian bytes.
    pub fn set_value_u128(&self, store: &mut Store, v: u128)
        ensures
            final(store)@ == old(store)@.insert(self@, le128(v)),
    {
        store.set(copy_bytes(&self.key), encode_u128(v));
    }

    /// Writes `v` under this key as four little-endian bytes.
    pub fn set_value_u32(&self, store: &mut Store, v: u32)
        ensures
            final(store)@ == old(store)@.insert(self@, le32(v)),
    {
        store.set(copy_bytes(&self.key), encode_u32(v));
    }
}

} // verus!
