//! Identities of holders and assets, and the transfers that name them.

use crate::bytes::{encode_u128, join_bytes, le128, lemma_le128_injective, lemma_le128_round_trip};
use vstd::prelude::*;

verus! {

/// The name of a holder account or of an asset: a coarse `block` component
/// and a `tx` component. One identity may play both roles: an asset is the
/// issuer of itself.
#[derive(Clone, Copy, Debug, PartialEq, Eq, Structural, Hash)]
pub struct AlkaneId {
    pub block: u128,
    pub tx: u128,
}

impl AlkaneId {
    /// The 32 bytes that stand for this identity in a storage key: `block`,
    /// then `tx`, each as sixteen little-endian bytes.
    pub open spec fn spec_bytes(self) -> Seq<u8> {
        le128(self.block) + le128(self.tx)
    }

    /// The identity made of `block` and `tx`.
    pub fn new(block: u128, tx: u128) -> (id: AlkaneId)
        ensures
            id == (AlkaneId { block, tx }),
    {
        AlkaneId { block, tx }
    }

    /// The storage-key form of this identity.
    pub fn to_bytes(&self) -> (bytes: Vec<u8>)
        ensures
            bytes@ == self.spec_bytes(),
            bytes@.len() == 32,
    {
        let head = encode_u128(self.block);
        let tail = encode_u128(self.tx);
        join_bytes(&head, &tail)
    }
}

/// An identity is always written as 32 bytes.
pub proof fn lemma_id_bytes_len(id: AlkaneId)
    ensures
        id.spec_bytes().len() == 32,
{
    lemma_le128_round_trip(id.block);
    lemma_le128_round_trip(id.tx);
}

/// Different identities are written as different byte strings.
pub proof fn lemma_id_bytes_injective(a: AlkaneId, b: AlkaneId)
    requires
        a.spec_bytes() == b.spec_bytes(),
    ensures
        a == b,
{
    lemma_le128_round_trip(a.block);
    lemma_le128_round_trip(a.tx);
    lemma_le128_round_trip(b.block);
    lemma_le128_round_trip(b.tx);
    assert(a.spec_bytes().subrange(0, 16) =~= le128(a.block));
    assert(b.spec_bytes().subrange(0, 16) =~= le128(b.block));
    assert(a.spec_bytes().subrange(16, 32) =~= le128(a.tx));
    assert(b.spec_bytes().subrange(16, 32) =~= le128(b.tx));
    lemma_le128_injective(a.block, b.block);
    lemma_le128_injective(a.tx, b.tx);
}

/// An amount of one asset on its way to or from a holder.
#[derive(Clone, Copy, Debug, PartialEq, Eq, Structural)]
pub struct AlkaneTransfer {
    pub id: AlkaneId,
    pub value: u128,
}

/// A list of transfers that one call handles together, in order.
#[derive(Clone, Debug)]
pub struct AlkaneTransferParcel(pub Vec<AlkaneTransfer>);

impl View for AlkaneTransferParcel {
    type V = Seq<AlkaneTransfer>;

    open spec fn view(&self) -> Seq<AlkaneTransfer> {
        self.0@
    }
}

/// A 128-bit number as the wire format carries it: two 64-bit halves.
#[derive(Clone, Copy, Debug, PartialEq, Eq, Structural)]
pub struct Uint128 {
    pub lo: u64,
    pub hi: u64,
}

impl Uint128 {
    /// The number that the two halves stand for.
    pub open spec fn spec_value(self) -> int {
        self.hi * 0x1_0000_0000_0000_0000 + self.lo
    }

    /// The number that the two halves stand for.
    pub fn value(&self) -> (v: u128)
        ensures
            v == self.spec_value(),
    {
        let hi: u128 = self.hi as u128;
        let lo: u128 = self.lo as u128;
        hi * 0x1_0000_0000_0000_0000u128 + lo
    }
}

/// An identity as the wire format carries it: either component may be
/// missing.
#[derive(Clone, Copy, Debug)]
pub struct ProtoAlkaneId {
    pub block: Option<Uint128>,
    pub tx: Option<Uint128>,
}

/// The identity that a complete wire-format identity stands for.
pub fn from_protobuf(v: ProtoAlkaneId) -> (id: AlkaneId)
    requires
        v.block is Some,
        v.tx is Some,
    ensures
        id.block == v.block->Some_0.spec_value(),
        id.tx == v.tx->Some_0.spec_value(),
{
    AlkaneId { block: v.block.unwrap().value(), tx: v.tx.unwrap().value() }
}

} // verus!
