//! The layout of the store: which key holds what.
//!
//! Every key is a concatenation of keyword text and raw bytes, in a fixed
//! order. The lemmas of this module say which keys can never coincide.

use crate::bytes::u128_of;
use crate::id::{lemma_id_bytes_injective, lemma_id_bytes_len, AlkaneId};
use crate::pointer::StoragePointer;
use crate::store::{Contents, value_at};
use vstd::prelude::*;
use vstd::string::*;

verus! {

/// The key of the balance that `who` holds of the asset `what`.
pub open spec fn balance_key(who: AlkaneId, what: AlkaneId) -> Seq<u8> {
    "/alkanes/".spec_bytes() + what.spec_bytes() + "/balances/".spec_bytes() + who.spec_bytes()
}

/// The key of the inventory of `who`: the list of the assets for which a
/// balance record of `who` was seen.
pub open spec fn inventory_key(who: AlkaneId) -> Seq<u8> {
    "/alkanes".spec_bytes() + who.spec_bytes() + "/inventory/".spec_bytes()
}

/// The key under which the creation outpoint of `id` is recorded.
pub open spec fn outpoint_key(id: AlkaneId) -> Seq<u8> {
    "/alkanes_id_to_outpoint/".spec_bytes() + id.spec_bytes()
}

/// The key of the marker that a mint was honoured for the block of hash
/// `hash`.
pub open spec fn seen_key(hash: Seq<u8>) -> Seq<u8> {
    "/seen/".spec_bytes() + hash
}

/// The key of the total supply counter.
pub open spec fn total_supply_key() -> Seq<u8> {
    "/totalsupply".spec_bytes()
}

/// The key of the marker that the contract instance was initialized.
pub open spec fn initialized_key() -> Seq<u8> {
    "/initialized".spec_bytes()
}

/// The key under which a contract keeps the auxiliary value that a caller
/// supplied under `key`, below the pointer `root`.
pub open spec fn storage_key(root: Seq<u8>, key: Seq<u8>) -> Seq<u8> {
    root + "/storage/".spec_bytes() + key
}

/// Whether the store holds the marker of the block of hash `hash`: any value
/// but the empty one counts.
pub open spec fn is_seen(m: Contents, hash: Seq<u8>) -> bool {
    value_at(m, seen_key(hash)).len() != 0
}

/// Whether the store holds the marker of initialization.
pub open spec fn is_initialized(m: Contents) -> bool {
    value_at(m, initialized_key()).len() != 0
}

/// The total supply counter of the store.
pub open spec fn supply_in(m: Contents) -> u128 {
    u128_of(value_at(m, total_supply_key()))
}

/// The keys of the state of a genesis contract instance that matter to a
/// call in the block of hash `hash`: the total supply counter, the marker of
/// initialization, and the marker of the block, where the block could be
/// read.
pub open spec fn genesis_keys(hash: Option<Seq<u8>>) -> Set<Seq<u8>> {
    match hash {
        Some(hash) => set![total_supply_key(), initialized_key(), seen_key(hash)],
        None => set![total_supply_key(), initialized_key()],
    }
}

/// The keys of the state of an orbital contract instance.
pub open spec fn orbital_keys() -> Set<Seq<u8>> {
    set![total_supply_key(), initialized_key()]
}

/// Whether `key` is the inventory key of one of `holders`.
pub open spec fn names_inventory(key: Seq<u8>, holders: Seq<AlkaneId>) -> bool {
    exists|h: int| 0 <= h < holders.len() && key == inventory_key(#[trigger] holders[h])
}

/// Whether `key` is the key of the balance that one of `holders` has of the
/// asset of one of `assets`.
pub open spec fn names_balance(
    key: Seq<u8>,
    holders: Seq<AlkaneId>,
    assets: Seq<AlkaneId>,
) -> bool {
    exists|h: int, i: int|
        0 <= h < holders.len() && 0 <= i < assets.len() && key == balance_key(
            #[trigger] holders[h],
            #[trigger] assets[i],
        )
}

/// The keys of the inventories of `holders`.
pub open spec fn inventory_key_set(holders: Seq<AlkaneId>) -> Set<Seq<u8>> {
    Set::new(|key: Seq<u8>| names_inventory(key, holders))
}

/// The keys of the balances that `holders` have of `assets`.
pub open spec fn balance_key_set(holders: Seq<AlkaneId>, assets: Seq<AlkaneId>) -> Set<Seq<u8>> {
    Set::new(|key: Seq<u8>| names_balance(key, holders, assets))
}

/// The keys of the ledger that matter to a call on the balances that
/// `holders` have of `assets`: those balances, and the inventories of the
/// holders.
pub open spec fn ledger_keys(holders: Seq<AlkaneId>, assets: Seq<AlkaneId>) -> Set<Seq<u8>> {
    inventory_key_set(holders).union(balance_key_set(holders, assets))
}

/// The pointer to the balance that `who` holds of `what`.
pub fn balance_location(who: &AlkaneId, what: &AlkaneId) -> (pointer: StoragePointer)
    ensures
        pointer@ == balance_key(*who, *what),
{
    let who_bytes = who.to_bytes();
    let what_bytes = what.to_bytes();
    StoragePointer::from_keyword("/alkanes/").select(&what_bytes).keyword("/balances/").select(
        &who_bytes,
    )
}

/// The pointer to the record of the creation outpoint of `id`.
pub fn outpoint_location(id: &AlkaneId) -> (pointer: StoragePointer)
    ensures
        pointer@ == outpoint_key(*id),
{
    let id_bytes = id.to_bytes();
    StoragePointer::from_keyword("/alkanes_id_to_outpoint/").select(&id_bytes)
}

/// The pointer to the marker that the contract instance was initialized.
pub fn initialized_pointer() -> (pointer: StoragePointer)
    ensures
        pointer@ == initialized_key(),
{
    StoragePointer::from_keyword("/initialized")
}

/// The bytes of the keywords that the ledger's keys are made of.
pub proof fn lemma_ledger_keywords()
    ensures
        "/alkanes/".spec_bytes() == seq![47u8, 97, 108, 107, 97, 110, 101, 115, 47],
        "/alkanes".spec_bytes() == seq![47u8, 97, 108, 107, 97, 110, 101, 115],
        "/balances/".spec_bytes() == seq![47u8, 98, 97, 108, 97, 110, 99, 101, 115, 47],
        "/inventory/".spec_bytes() == seq![47u8, 105, 110, 118, 101, 110, 116, 111, 114, 121, 47],
{
    reveal_strlit("/alkanes/");
    reveal_strlit("/alkanes");
    reveal_strlit("/balances/");
    reveal_strlit("/inventory/");
    is_ascii_spec_bytes("/alkanes/");
    is_ascii_spec_bytes("/alkanes");
    is_ascii_spec_bytes("/balances/");
    is_ascii_spec_bytes("/inventory/");
    assert("/alkanes/".spec_bytes() =~= seq![47u8, 97, 108, 107, 97, 110, 101, 115, 47]);
    assert("/alkanes".spec_bytes() =~= seq![47u8, 97, 108, 107, 97, 110, 101, 115]);
    assert("/balances/".spec_bytes() =~= seq![47u8, 98, 97, 108, 97, 110, 99, 101, 115, 47]);
    assert("/inventory/".spec_bytes() =~= seq![
        47u8,
        105,
        110,
        118,
        101,
        110,
        116,
        111,
        114,
        121,
        47,
    ]);
}

/// A balance key is 83 bytes long and an inventory key 51.
pub proof fn lemma_ledger_key_lengths(who: AlkaneId, what: AlkaneId)
    ensures
        balance_key(who, what).len() == 83,
        inventory_key(who).len() == 51,
{
    lemma_ledger_keywords();
    lemma_id_bytes_len(who);
    lemma_id_bytes_len(what);
}

/// No balance key is an inventory key: a write to a holder's inventory
/// changes no balance.
pub proof fn lemma_balance_key_is_no_inventory_key(who: AlkaneId, what: AlkaneId, other: AlkaneId)
    ensures
        balance_key(who, what) != inventory_key(other),
{
    lemma_ledger_key_lengths(who, what);
    lemma_ledger_key_lengths(other, what);
}

/// Two balance keys coincide only for the same holder and the same asset.
pub proof fn lemma_balance_key_injective(
    who: AlkaneId,
    what: AlkaneId,
    other_who: AlkaneId,
    other_what: AlkaneId,
)
    requires
        balance_key(who, what) == balance_key(other_who, other_what),
    ensures
        who == other_who,
        what == other_what,
{
    lemma_ledger_keywords();
    lemma_id_bytes_len(who);
    lemma_id_bytes_len(what);
    lemma_id_bytes_len(other_who);
    lemma_id_bytes_len(other_what);
    assert(balance_key(who, what).subrange(9, 41) =~= what.spec_bytes());
    assert(balance_key(other_who, other_what).subrange(9, 41) =~= other_what.spec_bytes());
    assert(balance_key(who, what).subrange(51, 83) =~= who.spec_bytes());
    assert(balance_key(other_who, other_what).subrange(51, 83) =~= other_who.spec_bytes());
    lemma_id_bytes_injective(who, other_who);
    lemma_id_bytes_injective(what, other_what);
}

/// Two inventory keys coincide only for the same holder.
pub proof fn lemma_inventory_key_injective(who: AlkaneId, other: AlkaneId)
    requires
        inventory_key(who) == inventory_key(other),
    ensures
        who == other,
{
    lemma_ledger_keywords();
    lemma_id_bytes_len(who);
    lemma_id_bytes_len(other);
    assert(inventory_key(who).subrange(8, 40) =~= who.spec_bytes());
    assert(inventory_key(other).subrange(8, 40) =~= other.spec_bytes());
    lemma_id_bytes_injective(who, other);
}

/// The keys of a contract instance's own state never coincide: the marker
/// of a block is neither the supply counter nor the initialization marker,
/// whatever the hash, and the markers of two blocks coincide only for the
/// same hash.
pub proof fn lemma_contract_keys_apart(hash: Seq<u8>, other: Seq<u8>)
    ensures
        seen_key(hash) != total_supply_key(),
        seen_key(hash) != initialized_key(),
        total_supply_key() != initialized_key(),
        seen_key(hash) == seen_key(other) ==> hash == other,
{
    reveal_strlit("/seen/");
    reveal_strlit("/totalsupply");
    reveal_strlit("/initialized");
    is_ascii_spec_bytes("/seen/");
    is_ascii_spec_bytes("/totalsupply");
    is_ascii_spec_bytes("/initialized");
    assert(seen_key(hash)[1] == 115u8);
    assert(total_supply_key()[1] == 116u8);
    assert(initialized_key()[1] == 105u8);
    if seen_key(hash) == seen_key(other) {
        assert(seen_key(hash).subrange(6, seen_key(hash).len() as int) =~= hash);
        assert(seen_key(other).subrange(6, seen_key(other).len() as int) =~= other);
    }
}

} // verus!
