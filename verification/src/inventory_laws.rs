//! What holds of the inventories: how they are filled, and that the ledger
//! keeps them in order.

use crate::bytes::{le128, lemma_le128_round_trip};
use crate::error::ErrorKind;
use crate::id::{lemma_id_bytes_len, AlkaneId, AlkaneTransfer};
use crate::layout::{
    balance_key,
    inventory_key,
    lemma_balance_key_is_no_inventory_key,
    lemma_inventory_key_injective,
};
use crate::ledger::{
    balance_in,
    credit_all,
    credit_one,
    debit_all,
    debit_one,
    each_in_order,
    inventory_holds,
    inventory_item,
    observed,
    registered,
    transfer_all,
    transfer_one,
};
use crate::ledger_laws::{left_after_debit, left_after_transfer};
use crate::store::{Contents, value_at};
use vstd::prelude::*;

verus! {

/// Whether an inventory list is made of whole items. Every list that the
/// ledger builds from the empty one is.
pub open spec fn is_inventory(list: Seq<u8>) -> bool {
    list.len() % 32 == 0
}

/// Entering an asset in an inventory of whole items leaves an inventory of
/// whole items that holds the asset, and entering it once more changes
/// nothing.
pub proof fn lemma_registered_holds(m: Contents, who: AlkaneId, what: AlkaneId)
    requires
        is_inventory(value_at(m, inventory_key(who))),
    ensures
        is_inventory(value_at(registered(m, who, what), inventory_key(who))),
        inventory_holds(value_at(registered(m, who, what), inventory_key(who)), what.spec_bytes()),
        registered(registered(m, who, what), who, what) == registered(m, who, what),
{
    let list = value_at(m, inventory_key(who));
    if !inventory_holds(list, what.spec_bytes()) {
        lemma_id_bytes_len(what);
        let extended = list + what.spec_bytes();
        let i = list.len() as int / 32;
        assert(inventory_item(extended, i) =~= what.spec_bytes());
    }
}

/// An inventory is filled by lookups, not by credits. The first credit of
/// an asset to a holder finds no record, so it leaves the holder's
/// inventory as it was; the record that it makes is found by the next
/// lookup of that balance, which enters the asset.
pub proof fn lemma_inventory_is_filled_on_lookup(
    m: Contents,
    to: AlkaneId,
    entry: AlkaneTransfer,
)
    requires
        is_inventory(value_at(m, inventory_key(to))),
        value_at(m, balance_key(to, entry.id)).len() == 0,
        credit_one(m, to, entry) is Ok,
    ensures
        value_at(credit_one(m, to, entry)->Ok_0, inventory_key(to)) == value_at(
            m,
            inventory_key(to),
        ),
        observed(credit_one(m, to, entry)->Ok_0, to, entry.id) == registered(
            credit_one(m, to, entry)->Ok_0,
            to,
            entry.id,
        ),
        inventory_holds(
            value_at(observed(credit_one(m, to, entry)->Ok_0, to, entry.id), inventory_key(to)),
            entry.id.spec_bytes(),
        ),
{
    let credited = credit_one(m, to, entry)->Ok_0;
    lemma_balance_key_is_no_inventory_key(to, entry.id, to);
    lemma_le128_round_trip((balance_in(m, to, entry.id) + entry.value) as u128);
    lemma_registered_holds(credited, to, entry.id);
}

/// A lookup of a holder's balance changes no other holder's inventory.
pub proof fn lemma_lookup_keeps_other_inventories(
    m: Contents,
    who: AlkaneId,
    what: AlkaneId,
    other: AlkaneId,
)
    requires
        other != who,
    ensures
        value_at(observed(m, who, what), inventory_key(other)) == value_at(
            m,
            inventory_key(other),
        ),
{
    if inventory_key(other) == inventory_key(who) {
        lemma_inventory_key_injective(other, who);
    }
}

/// Whether every inventory of the store is made of whole items.
pub open spec fn inventories_whole(m: Contents) -> bool {
    forall|who: AlkaneId| is_inventory(value_at(m, #[trigger] inventory_key(who)))
}

/// A lookup leaves every inventory made of whole items.
pub proof fn lemma_lookup_keeps_inventories_whole(m: Contents, who: AlkaneId, what: AlkaneId)
    requires
        inventories_whole(m),
    ensures
        inventories_whole(observed(m, who, what)),
{
    assert forall|other: AlkaneId|
        is_inventory(
            value_at(observed(m, who, what), #[trigger] inventory_key(other)),
        ) by {
        assert(is_inventory(value_at(m, inventory_key(other))));
        if inventory_key(other) == inventory_key(who) {
            assert(is_inventory(value_at(m, inventory_key(who))));
            lemma_registered_holds(m, who, what);
        }
    }
}

proof fn lemma_balance_write_keeps_inventories_whole(
    m: Contents,
    who: AlkaneId,
    what: AlkaneId,
    value: Seq<u8>,
)
    requires
        inventories_whole(m),
    ensures
        inventories_whole(m.insert(balance_key(who, what), value)),
{
    assert forall|other: AlkaneId|
        is_inventory(
            value_at(m.insert(balance_key(who, what), value), #[trigger] inventory_key(other)),
        ) by {
        assert(is_inventory(value_at(m, inventory_key(other))));
        lemma_balance_key_is_no_inventory_key(who, what, other);
    }
}

/// Whether `step` leaves every inventory of `m` made of whole items, where
/// it succeeds on an `m` whose inventories are.
pub open spec fn step_keeps_inventories_whole(
    step: spec_fn(Contents, AlkaneTransfer) -> Result<Contents, ErrorKind>,
    m: Contents,
    entry: AlkaneTransfer,
) -> bool {
    inventories_whole(m) && step(m, entry) is Ok ==> inventories_whole(step(m, entry)->Ok_0)
}

proof fn lemma_each_in_order_keeps_inventories_whole(
    m: Contents,
    entries: Seq<AlkaneTransfer>,
    step: spec_fn(Contents, AlkaneTransfer) -> Result<Contents, ErrorKind>,
)
    requires
        inventories_whole(m),
        each_in_order(m, entries, step) is Ok,
        forall|before: Contents, entry: AlkaneTransfer| #[trigger]
            step_keeps_inventories_whole(step, before, entry),
    ensures
        inventories_whole(each_in_order(m, entries, step)->Ok_0),
    decreases entries.len(),
{
    if entries.len() > 0 {
        lemma_each_in_order_keeps_inventories_whole(m, entries.drop_last(), step);
        let before = each_in_order(m, entries.drop_last(), step)->Ok_0;
        assert(step_keeps_inventories_whole(step, before, entries.last()));
    }
}

/// The ledger keeps its inventories in order: after a credit, a debit or a
/// transfer on a store whose inventories are made of whole items, they
/// still are. So every inventory that the ledger has built from nothing is
/// a list of whole items.
pub proof fn lemma_ledger_keeps_inventories_whole(
    m: Contents,
    from: AlkaneId,
    to: AlkaneId,
    entries: Seq<AlkaneTransfer>,
)
    requires
        inventories_whole(m),
    ensures
        credit_all(m, to, entries) is Ok ==> inventories_whole(credit_all(m, to, entries)->Ok_0),
        debit_all(m, to, entries) is Ok ==> inventories_whole(debit_all(m, to, entries)->Ok_0),
        transfer_all(m, from, to, entries) is Ok ==> inventories_whole(
            transfer_all(m, from, to, entries)->Ok_0,
        ),
{
    let credit = |before: Contents, entry: AlkaneTransfer| credit_one(before, to, entry);
    let debit = |before: Contents, entry: AlkaneTransfer| debit_one(before, to, entry);
    let transfer = |before: Contents, entry: AlkaneTransfer| transfer_one(before, from, to, entry);
    assert forall|before: Contents, entry: AlkaneTransfer| #[trigger]
        step_keeps_inventories_whole(credit, before, entry) by {
        if inventories_whole(before) && credit_one(before, to, entry) is Ok {
            lemma_lookup_keeps_inventories_whole(before, to, entry.id);
            let seen = observed(before, to, entry.id);
            let sum = (balance_in(seen, to, entry.id) + entry.value) as u128;
            lemma_balance_write_keeps_inventories_whole(seen, to, entry.id, le128(sum));
        }
    }
    assert forall|before: Contents, entry: AlkaneTransfer| #[trigger]
        step_keeps_inventories_whole(debit, before, entry) by {
        if inventories_whole(before) && debit_one(before, to, entry) is Ok {
            lemma_lookup_keeps_inventories_whole(before, to, entry.id);
            let seen = observed(before, to, entry.id);
            let left = left_after_debit(balance_in(seen, to, entry.id), entry.value);
            lemma_balance_write_keeps_inventories_whole(seen, to, entry.id, le128(left));
        }
    }
    assert forall|before: Contents, entry: AlkaneTransfer| #[trigger]
        step_keeps_inventories_whole(transfer, before, entry) by {
        if inventories_whole(before) && transfer_one(before, from, to, entry) is Ok {
            lemma_lookup_keeps_inventories_whole(before, from, entry.id);
            let seen = observed(before, from, entry.id);
            let left = left_after_transfer(balance_in(seen, from, entry.id), entry.value);
            lemma_balance_write_keeps_inventories_whole(seen, from, entry.id, le128(left));
            let less = seen.insert(balance_key(from, entry.id), le128(left));
            lemma_lookup_keeps_inventories_whole(less, to, entry.id);
            let taken = observed(less, to, entry.id);
            let sum = (balance_in(taken, to, entry.id) + entry.value) as u128;
            lemma_balance_write_keeps_inventories_whole(taken, to, entry.id, le128(sum));
        }
    }
    if credit_all(m, to, entries) is Ok {
        lemma_each_in_order_keeps_inventories_whole(m, entries, credit);
    }
    if debit_all(m, to, entries) is Ok {
        lemma_each_in_order_keeps_inventories_whole(m, entries, debit);
    }
    if transfer_all(m, from, to, entries) is Ok {
        lemma_each_in_order_keeps_inventories_whole(m, entries, transfer);
    }
}

} // verus!
