//! What holds of the balance ledger entry by entry: the effect of each
//! operation on every balance, and the issuer's allowance.

use crate::bytes::{le128, lemma_le128_round_trip};
use crate::error::ErrorKind;
use crate::id::{AlkaneId, AlkaneTransfer};
use crate::layout::{
    balance_key,
    lemma_balance_key_injective,
    lemma_balance_key_is_no_inventory_key,
    storage_key,
};
use crate::ledger::{
    balance_in,
    credit_one,
    debit_all,
    debit_one,
    each_in_order,
    failure,
    lemma_storage_key_parts,
    names_value_of,
    observed,
    overlaid,
    transfer_all,
    transfer_one,
};
use crate::store::{Contents, value_at};
use vstd::prelude::*;

verus! {

/// Whether no entry of a list names `who` as its asset.
pub open spec fn names_no_asset_of(who: AlkaneId, entries: Seq<AlkaneTransfer>) -> bool {
    forall|i: int| 0 <= i < entries.len() ==> (#[trigger] entries[i]).id != who
}

/// A list of one entry is handled as that entry is.
pub proof fn lemma_single_entry(
    m: Contents,
    entry: AlkaneTransfer,
    step: spec_fn(Contents, AlkaneTransfer) -> Result<Contents, ErrorKind>,
)
    ensures
        each_in_order(m, seq![entry], step) == step(m, entry),
{
    assert(seq![entry].drop_last() =~= Seq::<AlkaneTransfer>::empty());
    assert(each_in_order(m, seq![entry].drop_last(), step) == Ok::<Contents, ErrorKind>(m));
}

/// Looking a balance up changes no balance: what it may write goes to an
/// inventory.
pub proof fn lemma_lookup_keeps_balances(
    m: Contents,
    who: AlkaneId,
    what: AlkaneId,
    holder: AlkaneId,
    asset: AlkaneId,
)
    ensures
        value_at(observed(m, who, what), balance_key(holder, asset)) == value_at(
            m,
            balance_key(holder, asset),
        ),
        balance_in(observed(m, who, what), holder, asset) == balance_in(m, holder, asset),
{
    lemma_balance_key_is_no_inventory_key(holder, asset, who);
}

/// What `holder` has of `asset` after a write of `v` to the balance of `who`
/// in `what`.
proof fn lemma_balance_after_write(
    m: Contents,
    who: AlkaneId,
    what: AlkaneId,
    v: u128,
    holder: AlkaneId,
    asset: AlkaneId,
)
    ensures
        balance_in(m.insert(balance_key(who, what), le128(v)), holder, asset) == if holder == who
            && asset == what {
            v
        } else {
            balance_in(m, holder, asset)
        },
{
    lemma_le128_round_trip(v);
    if balance_key(holder, asset) == balance_key(who, what) {
        lemma_balance_key_injective(holder, asset, who, what);
    }
}

/// A credit succeeds exactly where the new balance fits in 128 bits. It adds
/// the amount to the one balance it names and changes no other.
pub proof fn lemma_credit_effect(
    m: Contents,
    to: AlkaneId,
    entry: AlkaneTransfer,
    holder: AlkaneId,
    asset: AlkaneId,
)
    ensures
        credit_one(m, to, entry) is Ok <==> balance_in(m, to, entry.id) + entry.value <= u128::MAX,
        credit_one(m, to, entry) is Err ==> credit_one(m, to, entry) == failure(
            ErrorKind::Overflow,
        ),
        credit_one(m, to, entry) matches Ok(after) ==> balance_in(after, holder, asset) == if holder
            == to && asset == entry.id {
            balance_in(m, to, entry.id) + entry.value
        } else {
            balance_in(m, holder, asset) as int
        },
{
    let seen = observed(m, to, entry.id);
    lemma_lookup_keeps_balances(m, to, entry.id, to, entry.id);
    lemma_lookup_keeps_balances(m, to, entry.id, holder, asset);
    let balance = balance_in(seen, to, entry.id);
    if balance + entry.value <= u128::MAX {
        lemma_balance_after_write(
            seen,
            to,
            entry.id,
            (balance + entry.value) as u128,
            holder,
            asset,
        );
    }
}

/// What a debit leaves of a balance: the difference, or, where the debit
/// asks for more than there is, the balance as it was.
pub open spec fn left_after_debit(balance: u128, value: u128) -> u128 {
    if balance >= value {
        (balance - value) as u128
    } else {
        balance
    }
}

/// A debit fails exactly where a holder other than the asset itself has
/// less than the amount. Where it succeeds it changes only the balance it
/// names.
pub proof fn lemma_debit_effect(
    m: Contents,
    who: AlkaneId,
    entry: AlkaneTransfer,
    holder: AlkaneId,
    asset: AlkaneId,
)
    ensures
        debit_one(m, who, entry) is Err <==> balance_in(m, who, entry.id) < entry.value && who
            != entry.id,
        debit_one(m, who, entry) is Err ==> debit_one(m, who, entry) == failure(
            ErrorKind::InsufficientBalance,
        ),
        debit_one(m, who, entry) matches Ok(after) ==> balance_in(after, holder, asset) == if holder
            == who && asset == entry.id {
            left_after_debit(balance_in(m, who, entry.id), entry.value)
        } else {
            balance_in(m, holder, asset)
        },
{
    let seen = observed(m, who, entry.id);
    lemma_lookup_keeps_balances(m, who, entry.id, who, entry.id);
    lemma_lookup_keeps_balances(m, who, entry.id, holder, asset);
    let balance = balance_in(seen, who, entry.id);
    lemma_balance_after_write(
        seen,
        who,
        entry.id,
        left_after_debit(balance, entry.value),
        holder,
        asset,
    );
}

/// What a transfer leaves with its source: the difference, or nothing where
/// the source is an issuer that gave more than it had.
pub open spec fn left_after_transfer(balance: u128, value: u128) -> u128 {
    if balance >= value {
        (balance - value) as u128
    } else {
        0
    }
}

/// What `to` has of the asset once the source's part of a transfer is done.
pub open spec fn held_before_receipt(
    m: Contents,
    from: AlkaneId,
    to: AlkaneId,
    entry: AlkaneTransfer,
) -> u128 {
    if to == from {
        left_after_transfer(balance_in(m, from, entry.id), entry.value)
    } else {
        balance_in(m, to, entry.id)
    }
}

/// A transfer fails for want of balance exactly where a source other than
/// the asset itself has less than the amount, and otherwise for overflow
/// exactly where the receiver's balance would leave the 128-bit range. Where
/// it succeeds, the source is left with the difference (an issuer that gave
/// more than it had, with nothing), the receiver has the amount more, and
/// no other balance has changed.
pub proof fn lemma_transfer_effect(
    m: Contents,
    from: AlkaneId,
    to: AlkaneId,
    entry: AlkaneTransfer,
    holder: AlkaneId,
    asset: AlkaneId,
)
    ensures
        transfer_one(m, from, to, entry) == failure(ErrorKind::InsufficientBalance) <==> balance_in(
            m,
            from,
            entry.id,
        ) < entry.value && entry.id != from,
        transfer_one(m, from, to, entry) == failure(ErrorKind::Overflow) <==> !(balance_in(
            m,
            from,
            entry.id,
        ) < entry.value && entry.id != from)
            && held_before_receipt(m, from, to, entry) + entry.value > u128::MAX,
        transfer_one(m, from, to, entry) is Err ==> transfer_one(m, from, to, entry) == failure(
            ErrorKind::InsufficientBalance,
        ) || transfer_one(m, from, to, entry) == failure(ErrorKind::Overflow),
        transfer_one(m, from, to, entry) matches Ok(after) ==> balance_in(after, holder, asset)
            == if asset == entry.id && holder == to {
            held_before_receipt(m, from, to, entry) + entry.value
        } else if asset == entry.id && holder == from {
            left_after_transfer(balance_in(m, from, entry.id), entry.value) as int
        } else {
            balance_in(m, holder, asset) as int
        },
{
    let seen = observed(m, from, entry.id);
    lemma_lookup_keeps_balances(m, from, entry.id, from, entry.id);
    lemma_lookup_keeps_balances(m, from, entry.id, to, entry.id);
    lemma_lookup_keeps_balances(m, from, entry.id, holder, asset);
    let balance = balance_in(seen, from, entry.id);
    if !(balance < entry.value && entry.id != from) {
        let left = left_after_transfer(balance, entry.value);
        let less = seen.insert(balance_key(from, entry.id), le128(left));
        lemma_balance_after_write(seen, from, entry.id, left, to, entry.id);
        lemma_balance_after_write(seen, from, entry.id, left, holder, asset);
        let taken = observed(less, to, entry.id);
        lemma_lookup_keeps_balances(less, to, entry.id, to, entry.id);
        lemma_lookup_keeps_balances(less, to, entry.id, holder, asset);
        let held = balance_in(taken, to, entry.id);
        assert(held == held_before_receipt(m, from, to, entry));
        if held + entry.value <= u128::MAX {
            lemma_balance_after_write(
                taken,
                to,
                entry.id,
                (held + entry.value) as u128,
                holder,
                asset,
            );
        }
    }
}

/// The issuer's allowance on a debit: a debit for more than the holder has
/// is let through where the holder is the asset itself, and then takes
/// nothing; for any other holder it fails for want of balance.
pub proof fn lemma_issuer_debit_allowance(
    m: Contents,
    who: AlkaneId,
    entry: AlkaneTransfer,
)
    requires
        balance_in(m, who, entry.id) < entry.value,
    ensures
        who == entry.id ==> debit_all(m, who, seq![entry]) is Ok && balance_in(
            debit_all(m, who, seq![entry])->Ok_0,
            who,
            entry.id,
        ) == balance_in(m, who, entry.id),
        who != entry.id ==> debit_all(m, who, seq![entry]) == failure(
            ErrorKind::InsufficientBalance,
        ),
{
    lemma_single_entry(
        m,
        entry,
        |before: Contents, entry: AlkaneTransfer| debit_one(before, who, entry),
    );
    lemma_debit_effect(m, who, entry, who, entry.id);
}

/// The issuer's allowance on a transfer: a transfer of more than the source
/// has goes through where the source is the asset itself, as if the source
/// had exactly the amount, so that the source is left with nothing and the
/// receiver gets the whole amount; for any other source it fails for want
/// of balance.
pub proof fn lemma_issuer_transfer_allowance(
    m: Contents,
    from: AlkaneId,
    to: AlkaneId,
    entry: AlkaneTransfer,
)
    requires
        balance_in(m, from, entry.id) < entry.value,
    ensures
        from != entry.id ==> transfer_all(m, from, to, seq![entry]) == failure(
            ErrorKind::InsufficientBalance,
        ),
        from == entry.id && to == from ==> transfer_all(m, from, to, seq![entry]) is Ok
            && balance_in(transfer_all(m, from, to, seq![entry])->Ok_0, from, entry.id)
            == entry.value,
        from == entry.id && to != from && balance_in(m, to, entry.id) + entry.value <= u128::MAX
            ==> transfer_all(m, from, to, seq![entry]) is Ok && balance_in(
            transfer_all(m, from, to, seq![entry])->Ok_0,
            from,
            entry.id,
        ) == 0 && balance_in(transfer_all(m, from, to, seq![entry])->Ok_0, to, entry.id)
            == balance_in(m, to, entry.id) + entry.value,
{
    lemma_single_entry(
        m,
        entry,
        |before: Contents, entry: AlkaneTransfer|
            transfer_one(before, from, to, entry),
    );
    lemma_transfer_effect(m, from, to, entry, from, entry.id);
    lemma_transfer_effect(m, from, to, entry, to, entry.id);
}

/// What was piped into a store is read back from it: every value of the map
/// is found under its key below the root, and a key that stands for none of
/// them holds what it held.
pub proof fn lemma_piped_is_read_back(m: Contents, root: Seq<u8>, values: Contents, key: Seq<u8>)
    ensures
        values.dom().contains(key) ==> value_at(
            overlaid(m, root, values),
            storage_key(root, key),
        ) == values[key],
        !names_value_of(root, key, values) ==> value_at(overlaid(m, root, values), key)
            == value_at(m, key),
{
    lemma_storage_key_parts(root, key);
}

} // verus!
