//! Block headers and outpoints: the two places where the ledger reads
//! Bitcoin's consensus encoding.

use vstd::bytes::spec_u32_from_le_bytes;
use vstd::prelude::*;

verus! {

/// The header of the block that a call runs in, as plain values.
#[derive(Clone, Copy, Debug)]
pub struct BlockHeader {
    pub version: i32,
    pub prev_blockhash: [u8; 32],
    pub merkle_root: [u8; 32],
    pub time: u32,
    pub bits: u32,
    pub nonce: u32,
}

/// The hash of the block header with these fields: the double SHA-256 of
/// its 80-byte consensus encoding, in the byte order of the digest.
pub uninterp spec fn header_hash(
    version: i32,
    prev_blockhash: Seq<u8>,
    merkle_root: Seq<u8>,
    time: u32,
    bits: u32,
    nonce: u32,
) -> Seq<u8>;

impl BlockHeader {
    /// The hash of this header.
    pub open spec fn spec_hash(&self) -> Seq<u8> {
        header_hash(
            self.version,
            self.prev_blockhash@,
            self.merkle_root@,
            self.time,
            self.bits,
            self.nonce,
        )
    }
}

/// `bitcoin::block::Header::block_hash` on the header with the fields of
/// `header`. Trusted: the result depends on the six fields alone, and it is
/// the 32 bytes of the digest.
#[verifier::external_body]
pub(crate) fn block_hash(header: &BlockHeader) -> (hash: Vec<u8>)
    ensures
        hash@ == header_hash(
            header.version,
            header.prev_blockhash@,
            header.merkle_root@,
            header.time,
            header.bits,
            header.nonce,
        ),
        hash@.len() == 32,
{
    let header = bitcoin::block::Header {
        version: bitcoin::block::Version::from_consensus(header.version),
        prev_blockhash: bitcoin::hashes::Hash::from_byte_array(header.prev_blockhash),
        merkle_root: bitcoin::hashes::Hash::from_byte_array(header.merkle_root),
        time: header.time,
        bits: bitcoin::CompactTarget::from_consensus(header.bits),
        nonce: header.nonce,
    };
    bitcoin::hashes::Hash::to_byte_array(header.block_hash()).to_vec()
}

/// A reference to one output of a transaction.
#[derive(Clone, Copy, Debug)]
pub struct OutPoint {
    pub txid: [u8; 32],
    pub vout: u32,
}

/// `bitcoin::consensus::deserialize_partial` for an outpoint. Trusted: the
/// decoder reads 32 bytes of transaction id and four bytes of little-endian
/// output index from the front of `bytes`, fails only where `bytes` ends
/// before that, and ignores what follows.
#[verifier::external_body]
pub(crate) fn decode_outpoint(bytes: &Vec<u8>) -> (decoded: Option<OutPoint>)
    ensures
        decoded is Some <==> bytes@.len() >= 36,
        decoded matches Some(outpoint) ==> outpoint.txid@ == bytes@.subrange(0, 32)
            && outpoint.vout == spec_u32_from_le_bytes(bytes@.subrange(32, 36)),
{
    match bitcoin::consensus::deserialize_partial::<bitcoin::OutPoint>(bytes) {
        Ok((outpoint, _)) => Some(
            OutPoint {
                txid: bitcoin::hashes::Hash::to_byte_array(outpoint.txid),
                vout: outpoint.vout,
            },
        ),
        Err(_) => None,
    }
}

} // verus!
