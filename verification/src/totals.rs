//! The ledger's operations on whole lists, in closed form: when a call
//! succeeds, and what it has then done to every balance.

use crate::error::ErrorKind;
use crate::id::{AlkaneId, AlkaneTransfer};
use crate::ledger::{
    balance_in,
    credit_all,
    credit_one,
    debit_all,
    debit_one,
    failure,
    transfer_all,
    transfer_one,
};
use crate::ledger_laws::{
    lemma_credit_effect,
    lemma_debit_effect,
    lemma_transfer_effect,
    names_no_asset_of,
};
use crate::store::Contents;
use vstd::prelude::*;

verus! {

/// How much of `asset` the entries of a list name in all.
pub open spec fn total_of(entries: Seq<AlkaneTransfer>, asset: AlkaneId) -> nat
    decreases entries.len(),
{
    if entries.len() == 0 {
        0
    } else {
        total_of(entries.drop_last(), asset) + if entries.last().id == asset {
            entries.last().value as nat
        } else {
            0
        }
    }
}

/// Whether every balance of `who` can take what the entries name of its
/// asset without leaving the 128-bit range.
pub open spec fn has_room_for(m: Contents, who: AlkaneId, entries: Seq<AlkaneTransfer>) -> bool {
    forall|asset: AlkaneId|
        balance_in(m, who, asset) + #[trigger] total_of(entries, asset) <= u128::MAX
}

/// Whether `who` has of every asset at least what the entries name of it.
pub open spec fn can_cover(m: Contents, who: AlkaneId, entries: Seq<AlkaneTransfer>) -> bool {
    forall|asset: AlkaneId| #[trigger] total_of(entries, asset) <= balance_in(m, who, asset)
}

proof fn lemma_front_names_no_asset_of(who: AlkaneId, entries: Seq<AlkaneTransfer>)
    requires
        entries.len() > 0,
        names_no_asset_of(who, entries),
    ensures
        names_no_asset_of(who, entries.drop_last()),
        entries.last().id != who,
{
    assert forall|i: int| 0 <= i < entries.drop_last().len() implies (
    #[trigger] entries.drop_last()[i]).id != who by {
        assert(entries.drop_last()[i] == entries[i]);
    }
    assert(entries.last() == entries[entries.len() - 1]);
}

/// A credit of a whole list, in closed form: it succeeds exactly where
/// every balance of the receiver has room for the total that the list names
/// of its asset; it then adds those totals to the receiver's balances and
/// changes no other balance.
pub proof fn lemma_credit_all_effect(m: Contents, to: AlkaneId, entries: Seq<AlkaneTransfer>)
    ensures
        credit_all(m, to, entries) is Ok <==> has_room_for(m, to, entries),
        credit_all(m, to, entries) is Err ==> credit_all(m, to, entries) == failure(
            ErrorKind::Overflow,
        ),
        credit_all(m, to, entries) is Ok ==> forall|holder: AlkaneId, asset: AlkaneId| #[trigger]
            balance_in(credit_all(m, to, entries)->Ok_0, holder, asset) == balance_in(
                m,
                holder,
                asset,
            ) + if holder == to {
                total_of(entries, asset)
            } else {
                0
            },
    decreases entries.len(),
{
    if entries.len() > 0 {
        let front = entries.drop_last();
        let last = entries.last();
        lemma_credit_all_effect(m, to, front);
        if credit_all(m, to, front) is Ok {
            let before = credit_all(m, to, front)->Ok_0;
            assert(credit_all(m, to, entries) == credit_one(before, to, last));
            assert(balance_in(before, to, last.id) == balance_in(m, to, last.id) + total_of(
                front,
                last.id,
            ));
            lemma_credit_effect(before, to, last, to, last.id);
            if credit_one(before, to, last) is Ok {
                let after = credit_one(before, to, last)->Ok_0;
                assert forall|holder: AlkaneId, asset: AlkaneId| #[trigger]
                    balance_in(after, holder, asset) == balance_in(m, holder, asset) + if holder
                        == to {
                        total_of(entries, asset)
                    } else {
                        0
                    } by {
                    lemma_credit_effect(before, to, last, holder, asset);
                    assert(balance_in(before, holder, asset) == balance_in(m, holder, asset)
                        + if holder == to {
                        total_of(front, asset)
                    } else {
                        0
                    });
                }
                assert forall|asset: AlkaneId|
                    balance_in(m, to, asset) + #[trigger] total_of(entries, asset)
                        <= u128::MAX by {
                    assert(balance_in(after, to, asset) == balance_in(m, to, asset) + total_of(
                        entries,
                        asset,
                    ));
                }
            } else {
                assert(balance_in(m, to, last.id) + total_of(entries, last.id) > u128::MAX);
            }
        } else {
            let asset = choose|asset: AlkaneId|
                balance_in(m, to, asset) + #[trigger] total_of(front, asset) > u128::MAX;
            assert(balance_in(m, to, asset) + total_of(entries, asset) > u128::MAX);
        }
    }
}

/// A debit of a whole list that names no asset of which the holder is the
/// issuer, in closed form: it succeeds exactly where the holder has of
/// every asset at least the total that the list names of it; it then takes
/// those totals from the holder's balances and changes no other balance.
pub proof fn lemma_debit_all_effect(m: Contents, who: AlkaneId, entries: Seq<AlkaneTransfer>)
    requires
        names_no_asset_of(who, entries),
    ensures
        debit_all(m, who, entries) is Ok <==> can_cover(m, who, entries),
        debit_all(m, who, entries) is Err ==> debit_all(m, who, entries) == failure(
            ErrorKind::InsufficientBalance,
        ),
        debit_all(m, who, entries) is Ok ==> forall|holder: AlkaneId, asset: AlkaneId| #[trigger]
            balance_in(debit_all(m, who, entries)->Ok_0, holder, asset) == balance_in(
                m,
                holder,
                asset,
            ) - if holder == who {
                total_of(entries, asset)
            } else {
                0
            },
    decreases entries.len(),
{
    if entries.len() > 0 {
        let front = entries.drop_last();
        let last = entries.last();
        lemma_front_names_no_asset_of(who, entries);
        lemma_debit_all_effect(m, who, front);
        if debit_all(m, who, front) is Ok {
            let before = debit_all(m, who, front)->Ok_0;
            assert(debit_all(m, who, entries) == debit_one(before, who, last));
            assert(balance_in(before, who, last.id) == balance_in(m, who, last.id) - total_of(
                front,
                last.id,
            ));
            lemma_debit_effect(before, who, last, who, last.id);
            if debit_one(before, who, last) is Ok {
                let after = debit_one(before, who, last)->Ok_0;
                assert forall|holder: AlkaneId, asset: AlkaneId| #[trigger]
                    balance_in(after, holder, asset) == balance_in(m, holder, asset) - if holder
                        == who {
                        total_of(entries, asset)
                    } else {
                        0
                    } by {
                    lemma_debit_effect(before, who, last, holder, asset);
                    assert(balance_in(before, holder, asset) == balance_in(m, holder, asset)
                        - if holder == who {
                        total_of(front, asset)
                    } else {
                        0
                    });
                }
                assert forall|asset: AlkaneId| #[trigger]
                    total_of(entries, asset) <= balance_in(m, who, asset) by {
                    assert(balance_in(after, who, asset) == balance_in(m, who, asset) - total_of(
                        entries,
                        asset,
                    ));
                }
            } else {
                assert(total_of(entries, last.id) > balance_in(m, who, last.id));
            }
        } else {
            let asset = choose|asset: AlkaneId| #[trigger]
                total_of(front, asset) > balance_in(m, who, asset);
            assert(total_of(entries, asset) > balance_in(m, who, asset));
        }
    }
}

/// A transfer of a whole list between two different holders that takes no
/// asset out of its own issuer, in closed form: it succeeds exactly where
/// the source has of every asset at least the total that the list names of
/// it and the receiver has room for that total; it then moves those totals
/// from the source's balances to the receiver's and changes no other
/// balance.
pub proof fn lemma_transfer_all_effect(
    m: Contents,
    from: AlkaneId,
    to: AlkaneId,
    entries: Seq<AlkaneTransfer>,
)
    requires
        from != to,
        names_no_asset_of(from, entries),
    ensures
        transfer_all(m, from, to, entries) is Ok <==> can_cover(m, from, entries) && has_room_for(
            m,
            to,
            entries,
        ),
        transfer_all(m, from, to, entries) is Ok ==> forall|holder: AlkaneId, asset: AlkaneId|
            #[trigger] balance_in(transfer_all(m, from, to, entries)->Ok_0, holder, asset)
                == balance_in(
                m,
                holder,
                asset,
            ) + if holder == to {
                total_of(entries, asset) as int
            } else if holder == from {
                -(total_of(entries, asset) as int)
            } else {
                0
            },
    decreases entries.len(),
{
    if entries.len() > 0 {
        let front = entries.drop_last();
        let last = entries.last();
        lemma_front_names_no_asset_of(from, entries);
        lemma_transfer_all_effect(m, from, to, front);
        if transfer_all(m, from, to, front) is Ok {
            let before = transfer_all(m, from, to, front)->Ok_0;
            assert(transfer_all(m, from, to, entries) == transfer_one(before, from, to, last));
            assert(balance_in(before, from, last.id) == balance_in(m, from, last.id) - total_of(
                front,
                last.id,
            ));
            assert(balance_in(before, to, last.id) == balance_in(m, to, last.id) + total_of(
                front,
                last.id,
            ));
            lemma_transfer_effect(before, from, to, last, from, last.id);
            if transfer_one(before, from, to, last) is Ok {
                let after = transfer_one(before, from, to, last)->Ok_0;
                assert forall|holder: AlkaneId, asset: AlkaneId| #[trigger]
                    balance_in(after, holder, asset) == balance_in(m, holder, asset) + if holder
                        == to {
                        total_of(entries, asset) as int
                    } else if holder == from {
                        -(total_of(entries, asset) as int)
                    } else {
                        0
                    } by {
                    lemma_transfer_effect(before, from, to, last, holder, asset);
                    assert(balance_in(before, holder, asset) == balance_in(m, holder, asset)
                        + if holder == to {
                        total_of(front, asset) as int
                    } else if holder == from {
                        -(total_of(front, asset) as int)
                    } else {
                        0
                    });
                }
                assert forall|asset: AlkaneId| #[trigger]
                    total_of(entries, asset) <= balance_in(m, from, asset) by {
                    assert(balance_in(after, from, asset) == balance_in(m, from, asset)
                        - total_of(entries, asset));
                }
                assert forall|asset: AlkaneId|
                    balance_in(m, to, asset) + #[trigger] total_of(entries, asset)
                        <= u128::MAX by {
                    assert(balance_in(after, to, asset) == balance_in(m, to, asset) + total_of(
                        entries,
                        asset,
                    ));
                }
            } else {
                assert(total_of(entries, last.id) > balance_in(m, from, last.id) || balance_in(
                    m,
                    to,
                    last.id,
                ) + total_of(entries, last.id) > u128::MAX);
            }
        } else {
            if !can_cover(m, from, front) {
                let asset = choose|asset: AlkaneId| #[trigger]
                    total_of(front, asset) > balance_in(m, from, asset);
                assert(total_of(entries, asset) > balance_in(m, from, asset));
            } else {
                let asset = choose|asset: AlkaneId|
                    balance_in(m, to, asset) + #[trigger] total_of(front, asset) > u128::MAX;
                assert(balance_in(m, to, asset) + total_of(entries, asset) > u128::MAX);
            }
        }
    }
}

} // verus!
