//! What a call reads and writes.
//!
//! A call decides by what the store holds under a few keys, and writes
//! under no others. So a caller who keeps the whole store elsewhere may hand
//! over a store that holds those keys alone, and write back what it finds
//! under them afterwards: the call goes as it would on the whole store.

use crate::bytes::{le128, le32};
use crate::chain::ChainConfiguration;
use crate::error::ErrorKind;
use crate::genesis::supply_increased;
use crate::id::{AlkaneId, AlkaneTransfer};
use crate::issuance_laws::{GenesisCall, OrbitalCall};
use crate::layout::{
    balance_key,
    genesis_keys,
    initialized_key,
    inventory_key,
    is_initialized,
    is_seen,
    ledger_keys,
    lemma_contract_keys_apart,
    names_balance,
    names_inventory,
    orbital_keys,
    seen_key,
    supply_in,
    total_supply_key,
};
use crate::ledger::{
    assets_of,
    balance_in,
    credit_all,
    credit_one,
    debit_all,
    debit_one,
    each_in_order,
    observed,
    transfer_all,
    transfer_one,
};
use crate::response::Outcome;
use crate::store::{agree_on, agree_outside, Contents};
use vstd::prelude::*;

verus! {

/// Whether a call on the whole store `m` and the same call on the part
/// `part` go alike: both fail in the same way, or both succeed, leave the
/// same under the keys of `keys`, and leave every other key as it was.
pub open spec fn stores_alike(
    whole: Result<Contents, ErrorKind>,
    partial: Result<Contents, ErrorKind>,
    m: Contents,
    part: Contents,
    keys: Set<Seq<u8>>,
) -> bool {
    match (whole, partial) {
        (Ok(whole), Ok(partial)) => agree_on(whole, partial, keys) && agree_outside(whole, m, keys)
            && agree_outside(partial, part, keys),
        (Err(kind), Err(other)) => kind == other,
        _ => false,
    }
}

/// As `stores_alike`, for calls that answer: the two answers are the same
/// as well.
pub open spec fn outcomes_alike(
    whole: Result<Outcome, ErrorKind>,
    partial: Result<Outcome, ErrorKind>,
    m: Contents,
    part: Contents,
    keys: Set<Seq<u8>>,
) -> bool {
    match (whole, partial) {
        (Ok(whole), Ok(partial)) => whole.alkanes == partial.alkanes && whole.data == partial.data
            && agree_on(whole.store, partial.store, keys) && agree_outside(whole.store, m, keys)
            && agree_outside(partial.store, part, keys),
        (Err(kind), Err(other)) => kind == other,
        _ => false,
    }
}

/// A call of the genesis contract goes by the keys of its instance's state
/// alone.
pub proof fn lemma_genesis_call_is_local(
    chain: ChainConfiguration,
    m: Contents,
    part: Contents,
    call: GenesisCall,
)
    requires
        agree_on(m, part, genesis_keys(call.hash)),
    ensures
        outcomes_alike(
            call.result(chain, m),
            call.result(chain, part),
            m,
            part,
            genesis_keys(call.hash),
        ),
{
    let keys = genesis_keys(call.hash);
    assert(keys.contains(total_supply_key()) && keys.contains(initialized_key()));
    assert(supply_in(m) == supply_in(part) && is_initialized(m) == is_initialized(part));
    if call.hash is Some && (call.initializes() || call.mints()) {
        let hash = call.hash->Some_0;
        lemma_contract_keys_apart(hash, hash);
        assert(keys.contains(seen_key(hash)));
        assert(is_seen(m, hash) == is_seen(part, hash));
        if !is_seen(m, hash) {
            let marked = m.insert(seen_key(hash), le32(1));
            let partly = part.insert(seen_key(hash), le32(1));
            lemma_write_is_local(m, part, seen_key(hash), le32(1), keys);
            if call.mints() {
                let reward = chain.spec_block_reward(call.height) as u128;
                lemma_supply_increase_is_local(chain, marked, partly, reward, keys);
                lemma_agree_outside_twice(
                    supply_increased(chain, marked, reward),
                    marked,
                    m,
                    keys,
                );
                lemma_agree_outside_twice(
                    supply_increased(chain, partly, reward),
                    partly,
                    part,
                    keys,
                );
            } else if !is_initialized(m) && chain.spec_premine(call.height) is Some {
                let premine = chain.spec_premine(call.height)->Some_0;
                let flagged = marked.insert(initialized_key(), le32(1));
                let partly_flagged = partly.insert(initialized_key(), le32(1));
                lemma_write_is_local(marked, partly, initialized_key(), le32(1), keys);
                lemma_supply_increase_is_local(chain, flagged, partly_flagged, premine, keys);
                assert(agree_outside(flagged, m, keys));
                assert(agree_outside(partly_flagged, part, keys));
                lemma_agree_outside_twice(
                    supply_increased(chain, flagged, premine),
                    flagged,
                    m,
                    keys,
                );
                lemma_agree_outside_twice(
                    supply_increased(chain, partly_flagged, premine),
                    partly_flagged,
                    part,
                    keys,
                );
            }
        }
    }
}

/// The same write to two stores that agree on `keys`, under one of those
/// keys, leaves two stores that agree on `keys` and differ from what they
/// were under no other key.
proof fn lemma_write_is_local(
    a: Contents,
    b: Contents,
    key: Seq<u8>,
    value: Seq<u8>,
    keys: Set<Seq<u8>>,
)
    requires
        agree_on(a, b, keys),
        keys.contains(key),
    ensures
        agree_on(a.insert(key, value), b.insert(key, value), keys),
        agree_outside(a.insert(key, value), a, keys),
        agree_outside(b.insert(key, value), b, keys),
{
}

proof fn lemma_agree_outside_twice(
    later: Result<Contents, ErrorKind>,
    middle: Contents,
    first: Contents,
    keys: Set<Seq<u8>>,
)
    requires
        later is Ok ==> agree_outside(later->Ok_0, middle, keys),
        agree_outside(middle, first, keys),
    ensures
        later is Ok ==> agree_outside(later->Ok_0, first, keys),
{
}

proof fn lemma_supply_increase_is_local(
    chain: ChainConfiguration,
    a: Contents,
    b: Contents,
    v: u128,
    keys: Set<Seq<u8>>,
)
    requires
        agree_on(a, b, keys),
        keys.contains(total_supply_key()),
    ensures
        stores_alike(supply_increased(chain, a, v), supply_increased(chain, b, v), a, b, keys),
{
    assert(supply_in(a) == supply_in(b));
    if supply_increased(chain, a, v) is Ok {
        lemma_write_is_local(a, b, total_supply_key(), le128((supply_in(a) + v) as u128), keys);
    }
}

/// A call of the orbital contract goes by the keys of its instance's state
/// alone.
pub proof fn lemma_orbital_call_is_local(
    m: Contents,
    part: Contents,
    call: OrbitalCall,
)
    requires
        agree_on(m, part, orbital_keys()),
    ensures
        outcomes_alike(call.result(m), call.result(part), m, part, orbital_keys()),
{
    let keys = orbital_keys();
    assert(keys.contains(total_supply_key()) && keys.contains(initialized_key()));
    assert(supply_in(m) == supply_in(part) && is_initialized(m) == is_initialized(part));
    if call.initializes() && !is_initialized(m) {
        let flagged = m.insert(initialized_key(), le32(1));
        let partly = part.insert(initialized_key(), le32(1));
        lemma_write_is_local(m, part, initialized_key(), le32(1), keys);
        lemma_write_is_local(flagged, partly, total_supply_key(), le128(1), keys);
    }
}

/// Whether `step` goes alike on `a` and `b` for `entry`.
pub open spec fn step_is_local(
    step: spec_fn(Contents, AlkaneTransfer) -> Result<Contents, ErrorKind>,
    a: Contents,
    b: Contents,
    entry: AlkaneTransfer,
    keys: Set<Seq<u8>>,
) -> bool {
    stores_alike(step(a, entry), step(b, entry), a, b, keys)
}

proof fn lemma_each_in_order_is_local(
    m: Contents,
    part: Contents,
    entries: Seq<AlkaneTransfer>,
    step: spec_fn(Contents, AlkaneTransfer) -> Result<Contents, ErrorKind>,
    keys: Set<Seq<u8>>,
)
    requires
        agree_on(m, part, keys),
        forall|a: Contents, b: Contents, i: int|
            0 <= i < entries.len() && agree_on(a, b, keys) ==> #[trigger] step_is_local(
                step,
                a,
                b,
                entries[i],
                keys,
            ),
    ensures
        stores_alike(
            each_in_order(m, entries, step),
            each_in_order(part, entries, step),
            m,
            part,
            keys,
        ),
    decreases entries.len(),
{
    if entries.len() > 0 {
        let front = entries.drop_last();
        assert forall|a: Contents, b: Contents, i: int|
            0 <= i < front.len() && agree_on(a, b, keys) implies #[trigger] step_is_local(
            step,
            a,
            b,
            front[i],
            keys,
        ) by {
            assert(front[i] == entries[i]);
            assert(step_is_local(step, a, b, entries[i], keys));
        }
        lemma_each_in_order_is_local(m, part, front, step, keys);
        if each_in_order(m, front, step) is Ok {
            let a = each_in_order(m, front, step)->Ok_0;
            let b = each_in_order(part, front, step)->Ok_0;
            assert(entries.last() == entries[entries.len() - 1]);
            assert(step_is_local(step, a, b, entries[entries.len() - 1], keys));
        }
    }
}

proof fn lemma_keys_of_entry(holders: Seq<AlkaneId>, entries: Seq<AlkaneTransfer>, h: int, i: int)
    requires
        0 <= h < holders.len(),
        0 <= i < entries.len(),
    ensures
        ledger_keys(holders, assets_of(entries)).contains(inventory_key(holders[h])),
        ledger_keys(holders, assets_of(entries)).contains(balance_key(holders[h], entries[i].id)),
{
    let assets = assets_of(entries);
    assert(assets[i] == entries[i].id);
    assert(names_inventory(inventory_key(holders[h]), holders));
    assert(names_balance(balance_key(holders[h], assets[i]), holders, assets));
}

/// A credit goes by the balances that the receiver has of the assets of its
/// entries, and by the receiver's inventory, alone.
pub proof fn lemma_credit_is_local(
    m: Contents,
    part: Contents,
    to: AlkaneId,
    entries: Seq<AlkaneTransfer>,
)
    requires
        agree_on(m, part, ledger_keys(seq![to], assets_of(entries))),
    ensures
        stores_alike(
            credit_all(m, to, entries),
            credit_all(part, to, entries),
            m,
            part,
            ledger_keys(seq![to], assets_of(entries)),
        ),
{
    let keys = ledger_keys(seq![to], assets_of(entries));
    let step = |before: Contents, entry: AlkaneTransfer| credit_one(before, to, entry);
    assert forall|a: Contents, b: Contents, i: int|
        0 <= i < entries.len() && agree_on(a, b, keys) implies #[trigger] step_is_local(
        step,
        a,
        b,
        entries[i],
        keys,
    ) by {
        lemma_keys_of_entry(seq![to], entries, 0, i);
    }
    lemma_each_in_order_is_local(m, part, entries, step, keys);
}

/// A debit goes by the balances that the holder has of the assets of its
/// entries, and by the holder's inventory, alone.
pub proof fn lemma_debit_is_local(
    m: Contents,
    part: Contents,
    who: AlkaneId,
    entries: Seq<AlkaneTransfer>,
)
    requires
        agree_on(m, part, ledger_keys(seq![who], assets_of(entries))),
    ensures
        stores_alike(
            debit_all(m, who, entries),
            debit_all(part, who, entries),
            m,
            part,
            ledger_keys(seq![who], assets_of(entries)),
        ),
{
    let keys = ledger_keys(seq![who], assets_of(entries));
    let step = |before: Contents, entry: AlkaneTransfer| debit_one(before, who, entry);
    assert forall|a: Contents, b: Contents, i: int|
        0 <= i < entries.len() && agree_on(a, b, keys) implies #[trigger] step_is_local(
        step,
        a,
        b,
        entries[i],
        keys,
    ) by {
        lemma_keys_of_entry(seq![who], entries, 0, i);
    }
    lemma_each_in_order_is_local(m, part, entries, step, keys);
}

/// A transfer goes by the balances that the source and the receiver have of
/// the assets of its entries, and by their inventories, alone.
pub proof fn lemma_transfer_is_local(
    m: Contents,
    part: Contents,
    from: AlkaneId,
    to: AlkaneId,
    entries: Seq<AlkaneTransfer>,
)
    requires
        agree_on(m, part, ledger_keys(seq![from, to], assets_of(entries))),
    ensures
        stores_alike(
            transfer_all(m, from, to, entries),
            transfer_all(part, from, to, entries),
            m,
            part,
            ledger_keys(seq![from, to], assets_of(entries)),
        ),
{
    let keys = ledger_keys(seq![from, to], assets_of(entries));
    let step = |before: Contents, entry: AlkaneTransfer|
        transfer_one(before, from, to, entry);
    assert forall|a: Contents, b: Contents, i: int|
        0 <= i < entries.len() && agree_on(a, b, keys) implies #[trigger] step_is_local(
        step,
        a,
        b,
        entries[i],
        keys,
    ) by {
        lemma_keys_of_entry(seq![from, to], entries, 0, i);
        lemma_keys_of_entry(seq![from, to], entries, 1, i);
        lemma_transfer_one_is_local(a, b, from, to, entries[i], keys);
    }
    lemma_each_in_order_is_local(m, part, entries, step, keys);
}

proof fn lemma_lookup_is_local(
    a: Contents,
    b: Contents,
    who: AlkaneId,
    what: AlkaneId,
    keys: Set<Seq<u8>>,
)
    requires
        agree_on(a, b, keys),
        keys.contains(balance_key(who, what)),
        keys.contains(inventory_key(who)),
    ensures
        agree_on(observed(a, who, what), observed(b, who, what), keys),
        agree_outside(observed(a, who, what), a, keys),
        agree_outside(observed(b, who, what), b, keys),
{
}

proof fn lemma_transfer_one_is_local(
    a: Contents,
    b: Contents,
    from: AlkaneId,
    to: AlkaneId,
    entry: AlkaneTransfer,
    keys: Set<Seq<u8>>,
)
    requires
        agree_on(a, b, keys),
        keys.contains(balance_key(from, entry.id)),
        keys.contains(inventory_key(from)),
        keys.contains(balance_key(to, entry.id)),
        keys.contains(inventory_key(to)),
    ensures
        stores_alike(
            transfer_one(a, from, to, entry),
            transfer_one(b, from, to, entry),
            a,
            b,
            keys,
        ),
{
    lemma_lookup_is_local(a, b, from, entry.id, keys);
    let seen_a = observed(a, from, entry.id);
    let seen_b = observed(b, from, entry.id);
    let balance = balance_in(seen_a, from, entry.id);
    assert(balance == balance_in(seen_b, from, entry.id));
    if !(balance < entry.value && entry.id != from) {
        let left: u128 = if balance < entry.value {
            0
        } else {
            (balance - entry.value) as u128
        };
        let less_a = seen_a.insert(balance_key(from, entry.id), le128(left));
        let less_b = seen_b.insert(balance_key(from, entry.id), le128(left));
        lemma_write_is_local(seen_a, seen_b, balance_key(from, entry.id), le128(left), keys);
        lemma_lookup_is_local(less_a, less_b, to, entry.id, keys);
        let taken_a = observed(less_a, to, entry.id);
        let taken_b = observed(less_b, to, entry.id);
        let held = balance_in(taken_a, to, entry.id);
        assert(held == balance_in(taken_b, to, entry.id));
        assert(agree_outside(taken_a, a, keys));
        assert(agree_outside(taken_b, b, keys));
        if held + entry.value <= u128::MAX {
            let sum = (held + entry.value) as u128;
            lemma_write_is_local(taken_a, taken_b, balance_key(to, entry.id), le128(sum), keys);
        }
    }
}

} // verus!
