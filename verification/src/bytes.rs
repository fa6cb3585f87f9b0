//! Byte strings, and the fixed-width little-endian numbers kept in them.

use vstd::bytes::*;
use vstd::prelude::*;

verus! {

/// The sixteen bytes of `v`, least significant first.
pub open spec fn le128(v: u128) -> Seq<u8> {
    spec_u128_to_le_bytes(v)
}

/// The four bytes of `v`, least significant first.
pub open spec fn le32(v: u32) -> Seq<u8> {
    spec_u32_to_le_bytes(v)
}

/// The quantity that a stored value stands for: sixteen bytes are read as a
/// little-endian number, and anything else, the empty value of a key that
/// was never written among them, counts as zero.
pub open spec fn u128_of(bytes: Seq<u8>) -> u128 {
    if bytes.len() == 16 {
        spec_u128_from_le_bytes(bytes)
    } else {
        0
    }
}

/// Writing a quantity and reading it back gives the quantity.
pub proof fn lemma_le128_round_trip(v: u128)
    ensures
        le128(v).len() == 16,
        u128_of(le128(v)) == v,
{
    lemma_auto_spec_u128_to_from_le_bytes();
}

/// Different quantities are written as different byte strings.
pub proof fn lemma_le128_injective(a: u128, b: u128)
    requires
        le128(a) == le128(b),
    ensures
        a == b,
{
    lemma_le128_round_trip(a);
    lemma_le128_round_trip(b);
}

/// The width of a written 32-bit marker.
pub proof fn lemma_le32_len(v: u32)
    ensures
        le32(v).len() == 4,
{
    lemma_auto_spec_u32_to_from_le_bytes();
}

/// Writes `v` as sixteen little-endian bytes.
pub fn encode_u128(v: u128) -> (bytes: Vec<u8>)
    ensures
        bytes@ == le128(v),
        bytes@.len() == 16,
{
    u128_to_le_bytes(v)
}

/// Writes `v` as four little-endian bytes.
pub fn encode_u32(v: u32) -> (bytes: Vec<u8>)
    ensures
        bytes@ == le32(v),
        bytes@.len() == 4,
{
    u32_to_le_bytes(v)
}

/// Reads a stored quantity.
pub fn decode_u128(bytes: &Vec<u8>) -> (v: u128)
    ensures
        v == u128_of(bytes@),
{
    if bytes.len() == 16 {
        u128_from_le_bytes(bytes.as_slice())
    } else {
        0
    }
}

/// Whether two byte strings are the same.
pub fn bytes_eq(a: &Vec<u8>, b: &Vec<u8>) -> (same: bool)
    ensures
        same == (a@ == b@),
{
    if a.len() != b.len() {
        return false;
    }
    let mut i: usize = 0;
    while i < a.len()
        invariant
            a@.len() == b@.len(),
            i <= a@.len(),
            forall|j: int| 0 <= j < i ==> a@[j] == b@[j],
        decreases a@.len() - i,
    {
        if a[i] != b[i] {
            return false;
        }
        i += 1;
    }
    assert(a@ =~= b@);
    true
}

/// A copy of `bytes`.
pub fn copy_bytes(bytes: &Vec<u8>) -> (copy: Vec<u8>)
    ensures
        copy@ == bytes@,
{
    let mut copy: Vec<u8> = Vec::new();
    let mut i: usize = 0;
    while i < bytes.len()
        invariant
            i <= bytes@.len(),
            copy@ == bytes@.subrange(0, i as int),
        decreases bytes@.len() - i,
    {
        copy.push(bytes[i]);
        assert(copy@ =~= bytes@.subrange(0, i + 1));
        i += 1;
    }
    assert(bytes@.subrange(0, bytes@.len() as int) =~= bytes@);
    copy
}

/// `head` followed by `tail`.
pub fn join_bytes(head: &Vec<u8>, tail: &Vec<u8>) -> (joined: Vec<u8>)
    ensures
        joined@ == head@ + tail@,
{
    let mut joined: Vec<u8> = copy_bytes(head);
    let mut i: usize = 0;
    while i < tail.len()
        invariant
            i <= tail@.len(),
            joined@ == head@ + tail@.subrange(0, i as int),
        decreases tail@.len() - i,
    {
        joined.push(tail[i]);
        assert(joined@ =~= head@ + tail@.subrange(0, i + 1));
        i += 1;
    }
    assert(tail@.subrange(0, tail@.len() as int) =~= tail@);
    joined
}

} // verus!
