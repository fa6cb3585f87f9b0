//! The amount of an asset in circulation: the sum of what all holders have
//! of it, and how each operation of the ledger changes that sum.

use crate::bytes::{le128, lemma_le128_round_trip, u128_of};
use crate::error::ErrorKind;
use crate::id::{AlkaneId, AlkaneTransfer};
use crate::layout::{
    balance_key,
    balance_key_set,
    inventory_key,
    lemma_balance_key_injective,
    lemma_balance_key_is_no_inventory_key,
    names_balance,
};
use crate::ledger::{
    balance_in,
    credit_one,
    debit_one,
    observed,
    transfer_all,
    transfer_one,
};
use crate::ledger_laws::{left_after_debit, lemma_lookup_keeps_balances, names_no_asset_of};
use crate::store::{Contents, value_at};
use vstd::prelude::*;

verus! {

/// Whether `key` is the key of some holder's balance of `what`.
pub open spec fn is_balance_key_of(key: Seq<u8>, what: AlkaneId) -> bool {
    exists|who: AlkaneId| key == #[trigger] balance_key(who, what)
}

/// What the value under `key` counts towards the circulation of `what`: the
/// quantity it stands for where the key is a balance key of that asset, and
/// nothing otherwise.
pub open spec fn counted(m: Contents, what: AlkaneId, key: Seq<u8>) -> nat {
    if is_balance_key_of(key, what) {
        u128_of(value_at(m, key)) as nat
    } else {
        0
    }
}

/// The sum of what the keys in `keys` count towards the circulation of
/// `what`.
pub open spec fn counted_over(keys: Set<Seq<u8>>, m: Contents, what: AlkaneId) -> nat
    decreases keys.len(),
    when keys.finite()
{
    if keys.len() == 0 {
        0
    } else {
        let key = keys.choose();
        counted(m, what, key) + counted_over(keys.remove(key), m, what)
    }
}

/// How much of `what` is in circulation: the sum of the balances that all
/// holders have of it. A holder without a record holds nothing, so the sum
/// runs over the records that the store holds.
pub open spec fn circulating(m: Contents, what: AlkaneId) -> nat {
    counted_over(m.dom(), m, what)
}

proof fn lemma_counted_over_split(
    keys: Set<Seq<u8>>,
    m: Contents,
    what: AlkaneId,
    key: Seq<u8>,
)
    requires
        keys.finite(),
        keys.contains(key),
    ensures
        counted_over(keys, m, what) == counted(m, what, key) + counted_over(
            keys.remove(key),
            m,
            what,
        ),
    decreases keys.len(),
{
    let chosen = keys.choose();
    if chosen != key {
        lemma_counted_over_split(keys.remove(chosen), m, what, key);
        lemma_counted_over_split(keys.remove(key), m, what, chosen);
        assert(keys.remove(chosen).remove(key) =~= keys.remove(key).remove(chosen));
    }
}

proof fn lemma_counted_over_agrees(
    keys: Set<Seq<u8>>,
    m: Contents,
    other: Contents,
    what: AlkaneId,
)
    requires
        keys.finite(),
        forall|key: Seq<u8>|
            keys.contains(key) ==> counted(m, what, key) == counted(other, what, key),
    ensures
        counted_over(keys, m, what) == counted_over(keys, other, what),
    decreases keys.len(),
{
    if keys.len() != 0 {
        lemma_counted_over_agrees(keys.remove(keys.choose()), m, other, what);
    }
}

/// A write changes the circulation by the difference between what the key
/// counted before and what it counts after.
pub proof fn lemma_write_changes_circulation(
    m: Contents,
    what: AlkaneId,
    key: Seq<u8>,
    value: Seq<u8>,
)
    requires
        m.dom().finite(),
    ensures
        m.insert(key, value).dom().finite(),
        circulating(m.insert(key, value), what) == circulating(m, what) - counted(m, what, key)
            + counted(m.insert(key, value), what, key),
{
    let after = m.insert(key, value);
    let rest = m.dom().remove(key);
    assert(after.dom() =~= m.dom().insert(key));
    assert(after.dom().remove(key) =~= rest);
    lemma_counted_over_split(after.dom(), after, what, key);
    assert forall|other: Seq<u8>| rest.contains(other) implies counted(m, what, other) == counted(
        after,
        what,
        other,
    ) by {}
    lemma_counted_over_agrees(rest, m, after, what);
    if m.dom().contains(key) {
        lemma_counted_over_split(m.dom(), m, what, key);
    } else {
        assert(rest =~= m.dom());
    }
}

/// A balance key counts towards the asset it names and towards no other; an
/// inventory key counts towards none.
pub proof fn lemma_counted_keys(
    m: Contents,
    who: AlkaneId,
    asset: AlkaneId,
    what: AlkaneId,
)
    ensures
        counted(m, what, balance_key(who, asset)) == if asset == what {
            balance_in(m, who, asset) as nat
        } else {
            0
        },
        counted(m, what, inventory_key(who)) == 0,
{
    if is_balance_key_of(balance_key(who, asset), what) {
        let holder = choose|holder: AlkaneId| balance_key(who, asset) == balance_key(holder, what);
        lemma_balance_key_injective(who, asset, holder, what);
    }
    if is_balance_key_of(inventory_key(who), what) {
        let holder = choose|holder: AlkaneId| inventory_key(who) == balance_key(holder, what);
        lemma_balance_key_is_no_inventory_key(holder, what, who);
    }
}

/// The sum of the balances that the holders of a list have of `what`.
pub open spec fn held_by(m: Contents, holders: Seq<AlkaneId>, what: AlkaneId) -> nat
    decreases holders.len(),
{
    if holders.len() == 0 {
        0
    } else {
        held_by(m, holders.drop_last(), what) + balance_in(m, holders.last(), what) as nat
    }
}

/// Whether a list names every holder that has a record of its balance of
/// `what` in the store.
pub open spec fn names_every_holder(m: Contents, holders: Seq<AlkaneId>, what: AlkaneId) -> bool {
    forall|who: AlkaneId|
        m.dom().contains(#[trigger] balance_key(who, what)) ==> holders.contains(who)
}

proof fn lemma_counted_over_nothing(keys: Set<Seq<u8>>, m: Contents, what: AlkaneId)
    requires
        keys.finite(),
        forall|key: Seq<u8>| keys.contains(key) ==> counted(m, what, key) == 0,
    ensures
        counted_over(keys, m, what) == 0,
    decreases keys.len(),
{
    if keys.len() != 0 {
        lemma_counted_over_nothing(keys.remove(keys.choose()), m, what);
    }
}

proof fn lemma_counted_over_holders(
    keys: Set<Seq<u8>>,
    m: Contents,
    holders: Seq<AlkaneId>,
    what: AlkaneId,
)
    requires
        keys.finite(),
        holders.no_duplicates(),
        forall|key: Seq<u8>| !keys.contains(key) ==> counted(m, what, key) == 0,
    ensures
        counted_over(keys, m, what) == held_by(m, holders, what) + counted_over(
            keys.difference(balance_key_set(holders, seq![what])),
            m,
            what,
        ),
    decreases holders.len(),
{
    let assets = seq![what];
    if holders.len() == 0 {
        assert(keys.difference(balance_key_set(holders, assets)) =~= keys);
    } else {
        let front = holders.drop_last();
        let last = holders.last();
        let key = balance_key(last, what);
        let rest = keys.difference(balance_key_set(front, assets));
        lemma_counted_over_holders(keys, m, front, what);
        lemma_counted_keys(m, last, what, what);
        assert(!balance_key_set(front, assets).contains(key)) by {
            if names_balance(key, front, assets) {
                let (h, i) = choose|h: int, i: int|
                    0 <= h < front.len() && 0 <= i < assets.len() && key == balance_key(
                        #[trigger] front[h],
                        #[trigger] assets[i],
                    );
                lemma_balance_key_injective(last, what, front[h], assets[i]);
                assert(holders[h] == holders[holders.len() - 1]);
            }
        }
        assert(keys.difference(balance_key_set(holders, assets)) =~= rest.remove(key)) by {
            assert forall|other: Seq<u8>|
                names_balance(other, holders, assets) <==> (names_balance(other, front, assets)
                    || other == key) by {
                if names_balance(other, holders, assets) {
                    let (h, i) = choose|h: int, i: int|
                        0 <= h < holders.len() && 0 <= i < assets.len() && other == balance_key(
                            #[trigger] holders[h],
                            #[trigger] assets[i],
                        );
                    if h < front.len() {
                        assert(other == balance_key(front[h], assets[i]));
                    }
                }
                if names_balance(other, front, assets) {
                    let (h, i) = choose|h: int, i: int|
                        0 <= h < front.len() && 0 <= i < assets.len() && other == balance_key(
                            #[trigger] front[h],
                            #[trigger] assets[i],
                        );
                    assert(other == balance_key(holders[h], assets[i]));
                }
                if other == key {
                    assert(other == balance_key(holders[holders.len() - 1], assets[0]));
                }
            }
        }
        if rest.contains(key) {
            lemma_counted_over_split(rest, m, what, key);
        } else {
            assert(rest.remove(key) =~= rest);
        }
    }
}

/// The circulation of an asset is the sum of the balances of its holders:
/// no list of different holders holds more than is in circulation, and a
/// list that names every holder with a record holds all of it.
pub proof fn lemma_circulation_is_the_sum_of_balances(
    m: Contents,
    holders: Seq<AlkaneId>,
    what: AlkaneId,
)
    requires
        m.dom().finite(),
        holders.no_duplicates(),
    ensures
        held_by(m, holders, what) <= circulating(m, what),
        names_every_holder(m, holders, what) ==> circulating(m, what) == held_by(
            m,
            holders,
            what,
        ),
{
    let assets = seq![what];
    let rest = m.dom().difference(balance_key_set(holders, assets));
    lemma_counted_over_holders(m.dom(), m, holders, what);
    if names_every_holder(m, holders, what) {
        assert forall|key: Seq<u8>| rest.contains(key) implies counted(m, what, key) == 0 by {
            if is_balance_key_of(key, what) {
                let who = choose|who: AlkaneId| key == balance_key(who, what);
                let h = choose|h: int| 0 <= h < holders.len() && holders[h] == who;
                assert(key == balance_key(holders[h], assets[0]));
                assert(names_balance(key, holders, assets));
            }
        }
        lemma_counted_over_nothing(rest, m, what);
    }
}

/// Looking a balance up changes no circulation.
pub proof fn lemma_lookup_keeps_circulation(
    m: Contents,
    who: AlkaneId,
    asset: AlkaneId,
    what: AlkaneId,
)
    requires
        m.dom().finite(),
    ensures
        observed(m, who, asset).dom().finite(),
        circulating(observed(m, who, asset), what) == circulating(m, what),
{
    let after = observed(m, who, asset);
    if after != m {
        let list = value_at(m, inventory_key(who)) + asset.spec_bytes();
        lemma_write_changes_circulation(m, what, inventory_key(who), list);
        lemma_counted_keys(m, who, asset, what);
        lemma_counted_keys(after, who, asset, what);
    }
}

/// A credit adds its amount to the circulation of its asset, and nothing to
/// that of any other.
pub proof fn lemma_credit_adds_to_circulation(
    m: Contents,
    to: AlkaneId,
    entry: AlkaneTransfer,
    what: AlkaneId,
)
    requires
        m.dom().finite(),
        credit_one(m, to, entry) is Ok,
    ensures
        credit_one(m, to, entry)->Ok_0.dom().finite(),
        circulating(credit_one(m, to, entry)->Ok_0, what) == circulating(m, what) + if what
            == entry.id {
            entry.value as nat
        } else {
            0
        },
{
    let seen = observed(m, to, entry.id);
    let balance = balance_in(seen, to, entry.id);
    let sum = (balance + entry.value) as u128;
    lemma_lookup_keeps_circulation(m, to, entry.id, what);
    lemma_write_changes_circulation(seen, what, balance_key(to, entry.id), le128(sum));
    lemma_counted_keys(seen, to, entry.id, what);
    lemma_counted_keys(seen.insert(balance_key(to, entry.id), le128(sum)), to, entry.id, what);
    lemma_le128_round_trip(sum);
}

/// A debit takes from the circulation of its asset what it takes from the
/// holder: the amount, or nothing where an issuer's debit for more than its
/// balance was let through.
pub proof fn lemma_debit_takes_from_circulation(
    m: Contents,
    who: AlkaneId,
    entry: AlkaneTransfer,
    what: AlkaneId,
)
    requires
        m.dom().finite(),
        debit_one(m, who, entry) is Ok,
    ensures
        debit_one(m, who, entry)->Ok_0.dom().finite(),
        circulating(debit_one(m, who, entry)->Ok_0, what) == circulating(m, what) - if what
            == entry.id && balance_in(m, who, entry.id) >= entry.value {
            entry.value as nat
        } else {
            0
        },
{
    let seen = observed(m, who, entry.id);
    let balance = balance_in(seen, who, entry.id);
    let left = left_after_debit(balance, entry.value);
    lemma_lookup_keeps_circulation(m, who, entry.id, what);
    lemma_lookup_keeps_balances(m, who, entry.id, who, entry.id);
    lemma_write_changes_circulation(seen, what, balance_key(who, entry.id), le128(left));
    lemma_counted_keys(seen, who, entry.id, what);
    lemma_counted_keys(seen.insert(balance_key(who, entry.id), le128(left)), who, entry.id, what);
    lemma_le128_round_trip(left);
}

/// What a transfer adds to the circulation of `what`: nothing, unless it is
/// a transfer of `what` out of its own issuer for more than the issuer
/// holds. The issuer then creates what it lacks.
pub open spec fn created_by_transfer(
    m: Contents,
    from: AlkaneId,
    entry: AlkaneTransfer,
    what: AlkaneId,
) -> nat {
    if what == entry.id && balance_in(m, from, entry.id) < entry.value {
        (entry.value - balance_in(m, from, entry.id)) as nat
    } else {
        0
    }
}

/// A transfer changes the circulation of an asset by what it creates.
pub proof fn lemma_transfer_changes_circulation(
    m: Contents,
    from: AlkaneId,
    to: AlkaneId,
    entry: AlkaneTransfer,
    what: AlkaneId,
)
    requires
        m.dom().finite(),
        transfer_one(m, from, to, entry) is Ok,
    ensures
        transfer_one(m, from, to, entry)->Ok_0.dom().finite(),
        circulating(transfer_one(m, from, to, entry)->Ok_0, what) == circulating(m, what)
            + created_by_transfer(m, from, entry, what),
{
    let seen = observed(m, from, entry.id);
    let balance = balance_in(seen, from, entry.id);
    let left: u128 = if balance < entry.value {
        0
    } else {
        (balance - entry.value) as u128
    };
    let less = seen.insert(balance_key(from, entry.id), le128(left));
    let taken = observed(less, to, entry.id);
    let held = balance_in(taken, to, entry.id);
    let sum = (held + entry.value) as u128;
    let after = taken.insert(balance_key(to, entry.id), le128(sum));
    assert(transfer_one(m, from, to, entry) == Ok::<Contents, ErrorKind>(after));
    lemma_lookup_keeps_circulation(m, from, entry.id, what);
    lemma_lookup_keeps_balances(m, from, entry.id, from, entry.id);
    lemma_write_changes_circulation(seen, what, balance_key(from, entry.id), le128(left));
    lemma_counted_keys(seen, from, entry.id, what);
    lemma_counted_keys(less, from, entry.id, what);
    lemma_le128_round_trip(left);
    lemma_lookup_keeps_circulation(less, to, entry.id, what);
    lemma_write_changes_circulation(taken, what, balance_key(to, entry.id), le128(sum));
    lemma_counted_keys(taken, to, entry.id, what);
    lemma_counted_keys(after, to, entry.id, what);
    lemma_le128_round_trip(sum);
}

/// A call that transfers a list of entries, none of them out of the asset's
/// own issuer, leaves the circulation of every asset as it was.
pub proof fn lemma_transfer_call_conserves(
    m: Contents,
    from: AlkaneId,
    to: AlkaneId,
    entries: Seq<AlkaneTransfer>,
    what: AlkaneId,
)
    requires
        m.dom().finite(),
        names_no_asset_of(from, entries),
        transfer_all(m, from, to, entries) is Ok,
    ensures
        transfer_all(m, from, to, entries)->Ok_0.dom().finite(),
        circulating(transfer_all(m, from, to, entries)->Ok_0, what) == circulating(m, what),
    decreases entries.len(),
{
    if entries.len() > 0 {
        let before = transfer_all(m, from, to, entries.drop_last());
        assert(before is Ok);
        assert(transfer_all(m, from, to, entries) == transfer_one(
            before->Ok_0,
            from,
            to,
            entries.last(),
        ));
        assert(names_no_asset_of(from, entries.drop_last())) by {
            assert forall|i: int| 0 <= i < entries.drop_last().len() implies (
            #[trigger] entries.drop_last()[i]).id != from by {
                assert(entries.drop_last()[i] == entries[i]);
            }
        }
        lemma_transfer_call_conserves(m, from, to, entries.drop_last(), what);
        lemma_transfer_changes_circulation(before->Ok_0, from, to, entries.last(), what);
        lemma_lookup_keeps_balances(before->Ok_0, from, entries.last().id, from, entries.last().id);
        assert(entries.last() == entries[entries.len() - 1]);
    }
}

/// The store after a sequence of transfer calls, each given by its source,
/// its receiver and its entries. A call that fails leaves the store as it
/// found it.
pub open spec fn after_transfers(
    m: Contents,
    calls: Seq<(AlkaneId, AlkaneId, Seq<AlkaneTransfer>)>,
) -> Contents
    decreases calls.len(),
{
    if calls.len() == 0 {
        m
    } else {
        let before = after_transfers(m, calls.drop_last());
        match transfer_all(before, calls.last().0, calls.last().1, calls.last().2) {
            Ok(after) => after,
            Err(_) => before,
        }
    }
}

/// Conservation: over any sequence of transfer calls of which none takes an
/// asset out of its own issuer, the sum of the balances that all holders
/// have of an asset stays what it was.
pub proof fn lemma_transfers_conserve(
    m: Contents,
    calls: Seq<(AlkaneId, AlkaneId, Seq<AlkaneTransfer>)>,
    what: AlkaneId,
)
    requires
        m.dom().finite(),
        forall|i: int|
            0 <= i < calls.len() ==> names_no_asset_of((#[trigger] calls[i]).0, calls[i].2),
    ensures
        after_transfers(m, calls).dom().finite(),
        circulating(after_transfers(m, calls), what) == circulating(m, what),
    decreases calls.len(),
{
    if calls.len() > 0 {
        assert forall|i: int| 0 <= i < calls.drop_last().len() implies names_no_asset_of(
            (#[trigger] calls.drop_last()[i]).0,
            calls.drop_last()[i].2,
        ) by {
            assert(calls.drop_last()[i] == calls[i]);
        }
        lemma_transfers_conserve(m, calls.drop_last(), what);
        let before = after_transfers(m, calls.drop_last());
        let call = calls.last();
        assert(call == calls[calls.len() - 1]);
        if transfer_all(before, call.0, call.1, call.2) is Ok {
            lemma_transfer_call_conserves(before, call.0, call.1, call.2, what);
        }
    }
}

} // verus!
