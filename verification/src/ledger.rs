//! The balance ledger: who holds how much of which asset.
//!
//! A balance is the 128-bit quantity under the key of a holder and an asset.
//! It comes into being with the first credit and is never removed; a holder
//! without a record holds nothing. Credits, debits and transfers take a list
//! of entries and handle them in order, and a call that fails on one entry
//! leaves the store untouched by the entries before it.
//!
//! An asset is the issuer of itself, and the ledger lets an issuer go
//! beyond its balance of its own asset. A debit of the issuer for more than
//! it holds is clamped to zero: it takes nothing and leaves the balance as
//! it was, not at zero. A transfer out of the issuer for more than it holds
//! goes through as if the issuer held exactly the amount: the issuer is left
//! with nothing and the receiver gets the whole amount.

use crate::block::{decode_outpoint, OutPoint};
use crate::bytes::{copy_bytes, join_bytes, le128, u128_of};
use crate::error::{ContractError, ErrorKind};
use crate::id::{AlkaneId, AlkaneTransfer, AlkaneTransferParcel};
use crate::layout::{
    balance_key,
    balance_key_set,
    balance_location,
    inventory_key,
    inventory_key_set,
    names_balance,
    names_inventory,
    outpoint_key,
    outpoint_location,
    storage_key,
};
use crate::pointer::StoragePointer;
use crate::store::{Contents, key_set, pairs_of, StorageMap, Store, value_at, written};
use vstd::string::*;
use vstd::bytes::spec_u32_from_le_bytes;
use vstd::prelude::*;

verus! {

/// How much `who` holds of `what` in the store `m`.
pub open spec fn balance_in(m: Contents, who: AlkaneId, what: AlkaneId) -> u128 {
    u128_of(value_at(m, balance_key(who, what)))
}

/// The `i`-th item of an inventory list. The list is the concatenation of
/// its items, each the 32 bytes of an asset's identity.
pub open spec fn inventory_item(list: Seq<u8>, i: int) -> Seq<u8> {
    list.subrange(32 * i, 32 * i + 32)
}

/// Whether `item` is one of the items of an inventory list.
pub open spec fn inventory_holds(list: Seq<u8>, item: Seq<u8>) -> bool {
    exists|i: int| 0 <= i && 32 * i + 32 <= list.len() && #[trigger] inventory_item(list, i) == item
}

/// The store after `what` is entered in the inventory of `who`: the asset is
/// appended to the list unless the list holds it already.
pub open spec fn registered(m: Contents, who: AlkaneId, what: AlkaneId) -> Contents {
    let list = value_at(m, inventory_key(who));
    if inventory_holds(list, what.spec_bytes()) {
        m
    } else {
        m.insert(inventory_key(who), list + what.spec_bytes())
    }
}

/// The store after the balance of `who` in `what` is looked up. A lookup that
/// finds a record, which is any value but the empty one, enters the asset in
/// the holder's inventory; a lookup that finds none changes nothing. So an
/// asset is entered by the first lookup after the credit that made the
/// record, not by the credit itself.
pub open spec fn observed(m: Contents, who: AlkaneId, what: AlkaneId) -> Contents {
    if value_at(m, balance_key(who, what)).len() != 0 {
        registered(m, who, what)
    } else {
        m
    }
}

/// The failure of `kind` of a call that would have changed the store.
pub open spec fn failure(kind: ErrorKind) -> Result<Contents, ErrorKind> {
    Err(kind)
}

/// The store after a list of entries is handled in order by `step`, or the
/// failure of the first entry that fails.
pub open spec fn each_in_order(
    m: Contents,
    entries: Seq<AlkaneTransfer>,
    step: spec_fn(Contents, AlkaneTransfer) -> Result<Contents, ErrorKind>,
) -> Result<Contents, ErrorKind>
    decreases entries.len(),
{
    if entries.len() == 0 {
        Ok(m)
    } else {
        match each_in_order(m, entries.drop_last(), step) {
            Ok(before) => step(before, entries.last()),
            Err(kind) => Err(kind),
        }
    }
}

/// A failure among the first `n` entries is the failure of the whole list.
pub proof fn lemma_each_in_order_fails(
    m: Contents,
    entries: Seq<AlkaneTransfer>,
    step: spec_fn(Contents, AlkaneTransfer) -> Result<Contents, ErrorKind>,
    n: int,
)
    requires
        0 <= n <= entries.len(),
        each_in_order(m, entries.take(n), step) is Err,
    ensures
        each_in_order(m, entries, step) == each_in_order(m, entries.take(n), step),
    decreases entries.len() - n,
{
    if n == entries.len() {
        assert(entries.take(n) =~= entries);
    } else {
        assert(entries.take(n + 1).drop_last() =~= entries.take(n));
        lemma_each_in_order_fails(m, entries, step, n + 1);
    }
}

/// One credit: `to` receives `entry.value` of `entry.id`. It fails where the
/// new balance would leave the 128-bit range.
pub open spec fn credit_one(m: Contents, to: AlkaneId, entry: AlkaneTransfer) -> Result<
    Contents,
    ErrorKind,
> {
    let seen = observed(m, to, entry.id);
    let balance = balance_in(seen, to, entry.id);
    if balance + entry.value > u128::MAX {
        Err(ErrorKind::Overflow)
    } else {
        Ok(seen.insert(balance_key(to, entry.id), le128((balance + entry.value) as u128)))
    }
}

/// The credits of a whole list, in order.
pub open spec fn credit_all(m: Contents, to: AlkaneId, entries: Seq<AlkaneTransfer>) -> Result<
    Contents,
    ErrorKind,
> {
    each_in_order(
        m,
        entries,
        |before: Contents, entry: AlkaneTransfer| credit_one(before, to, entry),
    )
}

/// One debit: `entry.value` of `entry.id` is taken from `who`. Where `who`
/// holds less, the debit fails, unless `who` is the asset itself: an issuer
/// may hand out more of its own asset than the ledger tracks, and the debit
/// then takes nothing and leaves the balance as it is.
pub open spec fn debit_one(m: Contents, who: AlkaneId, entry: AlkaneTransfer) -> Result<
    Contents,
    ErrorKind,
> {
    let seen = observed(m, who, entry.id);
    let balance = balance_in(seen, who, entry.id);
    if balance >= entry.value {
        Ok(seen.insert(balance_key(who, entry.id), le128((balance - entry.value) as u128)))
    } else if who == entry.id {
        Ok(seen.insert(balance_key(who, entry.id), le128(balance)))
    } else {
        Err(ErrorKind::InsufficientBalance)
    }
}

/// The debits of a whole list, in order.
pub open spec fn debit_all(m: Contents, who: AlkaneId, entries: Seq<AlkaneTransfer>) -> Result<
    Contents,
    ErrorKind,
> {
    each_in_order(
        m,
        entries,
        |before: Contents, entry: AlkaneTransfer| debit_one(before, who, entry),
    )
}

/// One transfer: `entry.value` of `entry.id` moves from `from` to `to`.
/// Where `from` holds less, the transfer fails, unless `from` is the asset
/// itself: the issuer is then taken to hold exactly the amount asked for, so
/// its balance ends at zero and `to` receives the full amount. The transfer
/// also fails where the balance of `to` would leave the 128-bit range.
pub open spec fn transfer_one(
    m: Contents,
    from: AlkaneId,
    to: AlkaneId,
    entry: AlkaneTransfer,
) -> Result<Contents, ErrorKind> {
    let seen = observed(m, from, entry.id);
    let balance = balance_in(seen, from, entry.id);
    if balance < entry.value && entry.id != from {
        Err(ErrorKind::InsufficientBalance)
    } else {
        let left = if balance < entry.value {
            0
        } else {
            balance - entry.value
        };
        let taken = observed(
            seen.insert(balance_key(from, entry.id), le128(left as u128)),
            to,
            entry.id,
        );
        let held = balance_in(taken, to, entry.id);
        if held + entry.value > u128::MAX {
            Err(ErrorKind::Overflow)
        } else {
            Ok(taken.insert(balance_key(to, entry.id), le128((held + entry.value) as u128)))
        }
    }
}

/// The transfers of a whole list, in order.
pub open spec fn transfer_all(
    m: Contents,
    from: AlkaneId,
    to: AlkaneId,
    entries: Seq<AlkaneTransfer>,
) -> Result<Contents, ErrorKind> {
    each_in_order(
        m,
        entries,
        |before: Contents, entry: AlkaneTransfer| transfer_one(before, from, to, entry),
    )
}

/// The message of a credit that fails: a credit names the operation in
/// which the balance overflowed.
pub open spec fn credit_failure_text(kind: ErrorKind) -> Seq<char> {
    if kind == ErrorKind::Overflow {
        "balance overflow during credit_balances"@
    } else {
        kind.spec_text()
    }
}

/// The message of a transfer that fails: a transfer for more than the source
/// holds names the operation in which the balance ran short, and one that
/// overflows the receiver has the fixed text of its kind.
pub open spec fn transfer_failure_text(kind: ErrorKind) -> Seq<char> {
    if kind == ErrorKind::InsufficientBalance {
        "balance underflow during transfer_from"@
    } else {
        kind.spec_text()
    }
}

/// The pointer to the inventory of `who`.
pub fn alkane_inventory_pointer(who: &AlkaneId) -> (pointer: StoragePointer)
    ensures
        pointer@ == inventory_key(*who),
{
    let who_bytes = who.to_bytes();
    StoragePointer::from_keyword("/alkanes").select(&who_bytes).keyword("/inventory/")
}

/// Whether the 32 bytes of `list` from `start` on are `item`.
fn item_at(list: &Vec<u8>, start: usize, item: &Vec<u8>) -> (same: bool)
    requires
        item@.len() == 32,
        start + 32 <= list@.len(),
    ensures
        same == (list@.subrange(start as int, start + 32) == item@),
{
    let len: usize = list.len();
    let mut k: usize = 0;
    while k < 32
        invariant
            k <= 32,
            item@.len() == 32,
            len == list@.len(),
            start + 32 <= len,
            forall|p: int| 0 <= p < k ==> list@[start + p] == item@[p],
        decreases 32 - k,
    {
        if list[start + k] != item[k] {
            assert(list@.subrange(start as int, start + 32)[k as int] != item@[k as int]);
            return false;
        }
        k += 1;
    }
    assert(list@.subrange(start as int, start + 32) =~= item@);
    true
}

/// Whether `item` is one of the items of an inventory list.
fn list_holds(list: &Vec<u8>, item: &Vec<u8>) -> (held: bool)
    requires
        item@.len() == 32,
    ensures
        held == inventory_holds(list@, item@),
{
    let len: usize = list.len();
    let count: usize = len / 32;
    let mut i: usize = 0;
    while i < count
        invariant
            i <= count,
            len == list@.len(),
            count == len / 32,
            item@.len() == 32,
            forall|j: int| 0 <= j < i ==> inventory_item(list@, j) != item@,
        decreases count - i,
    {
        if item_at(list, 32 * i, item) {
            assert(inventory_item(list@, i as int) == item@);
            return true;
        }
        i += 1;
    }
    false
}

/// The pointer to the balance that `who` holds of `what`. Looking the
/// balance up has an effect of its own: where a record is found, the asset
/// is entered in the inventory of `who`.
pub fn balance_pointer(store: &mut Store, who: &AlkaneId, what: &AlkaneId) -> (pointer:
    StoragePointer)
    ensures
        pointer@ == balance_key(*who, *what),
        final(store)@ == observed(old(store)@, *who, *what),
{
    let pointer = balance_location(who, what);
    if pointer.get(store).len() != 0 {
        let what_bytes = what.to_bytes();
        let inventory = alkane_inventory_pointer(who);
        let list = inventory.get(store);
        if !list_holds(&list, &what_bytes) {
            inventory.set(store, join_bytes(&list, &what_bytes));
        }
    }
    pointer
}

/// Credits `to` with every entry of `runes`, in order. Either all entries
/// are credited, or the first entry whose credit would overflow fails the
/// call and nothing is written.
pub fn credit_balances(store: &mut Store, to: &AlkaneId, runes: &Vec<AlkaneTransfer>) -> (result:
    Result<(), ContractError>)
    ensures
        match credit_all(old(store)@, *to, runes@) {
            Ok(m) => result is Ok && final(store)@ == m,
            Err(kind) => result is Err && result->Err_0.states_as(
                kind,
                credit_failure_text(kind),
            ) && final(store)@ == old(store)@,
        },
{
    let ghost start = store@;
    let ghost step = |before: Contents, entry: AlkaneTransfer|
        credit_one(before, *to, entry);
    let mut work = store.snapshot();
    let mut i: usize = 0;
    while i < runes.len()
        invariant
            i <= runes@.len(),
            store@ == start,
            step == |before: Contents, entry: AlkaneTransfer|
                credit_one(before, *to, entry),
            each_in_order(start, runes@.take(i as int), step) == Ok::<Contents, ErrorKind>(work@),
        decreases runes@.len() - i,
    {
        let entry = runes[i];
        let pointer = balance_pointer(&mut work, to, &entry.id);
        let balance = pointer.get_value_u128(&work);
        proof {
            assert(runes@.take(i + 1).drop_last() =~= runes@.take(i as int));
        }
        match balance.checked_add(entry.value) {
            Some(sum) => {
                pointer.set_value_u128(&mut work, sum);
            },
            None => {
                proof {
                    lemma_each_in_order_fails(start, runes@, step, i + 1);
                }
                return Err(
                    ContractError::with_text(
                        ErrorKind::Overflow,
                        "balance overflow during credit_balances",
                    ),
                );
            },
        }
        i += 1;
    }
    proof {
        assert(runes@.take(runes@.len() as int) =~= runes@);
    }
    *store = work;
    Ok(())
}

/// Debits `to` by every entry of `runes`, in order. An entry for more than
/// `to` holds fails the call, and nothing is written, unless `to` is the
/// asset of that entry: the issuer's debit is let through and takes nothing.
pub fn debit_balances(store: &mut Store, to: &AlkaneId, runes: &AlkaneTransferParcel) -> (result:
    Result<(), ContractError>)
    ensures
        match debit_all(old(store)@, *to, runes@) {
            Ok(m) => result is Ok && final(store)@ == m,
            Err(kind) => result is Err && result->Err_0.states(kind) && final(store)@ == old(
                store,
            )@,
        },
{
    let ghost start = store@;
    let ghost step = |before: Contents, entry: AlkaneTransfer|
        debit_one(before, *to, entry);
    let mut work = store.snapshot();
    let mut i: usize = 0;
    while i < runes.0.len()
        invariant
            i <= runes@.len(),
            store@ == start,
            step == |before: Contents, entry: AlkaneTransfer|
                debit_one(before, *to, entry),
            each_in_order(start, runes@.take(i as int), step) == Ok::<Contents, ErrorKind>(work@),
        decreases runes@.len() - i,
    {
        let entry = runes.0[i];
        let pointer = balance_pointer(&mut work, to, &entry.id);
        let balance = pointer.get_value_u128(&work);
        proof {
            assert(runes@.take(i + 1).drop_last() =~= runes@.take(i as int));
        }
        if balance >= entry.value {
            pointer.set_value_u128(&mut work, balance - entry.value);
        } else if *to == entry.id {
            pointer.set_value_u128(&mut work, balance);
        } else {
            proof {
                lemma_each_in_order_fails(start, runes@, step, i + 1);
            }
            return Err(ContractError::new(ErrorKind::InsufficientBalance));
        }
        i += 1;
    }
    proof {
        assert(runes@.take(runes@.len() as int) =~= runes@);
    }
    *store = work;
    Ok(())
}

/// Moves every entry of `parcel` from `from` to `to`, in order. An entry for
/// more than `from` holds fails the call unless `from` is the asset of that
/// entry; an entry that would carry the balance of `to` out of the 128-bit
/// range fails it too. A call that fails writes nothing.
pub fn transfer_from(
    parcel: &AlkaneTransferParcel,
    store: &mut Store,
    from: &AlkaneId,
    to: &AlkaneId,
) -> (result: Result<(), ContractError>)
    ensures
        match transfer_all(old(store)@, *from, *to, parcel@) {
            Ok(m) => result is Ok && final(store)@ == m,
            Err(kind) => result is Err && result->Err_0.states_as(
                kind,
                transfer_failure_text(kind),
            ) && final(store)@ == old(store)@,
        },
{
    let ghost start = store@;
    let ghost step = |before: Contents, entry: AlkaneTransfer|
        transfer_one(before, *from, *to, entry);
    let mut work = store.snapshot();
    let mut i: usize = 0;
    while i < parcel.0.len()
        invariant
            i <= parcel@.len(),
            store@ == start,
            step == |before: Contents, entry: AlkaneTransfer|
                transfer_one(before, *from, *to, entry),
            each_in_order(start, parcel@.take(i as int), step) == Ok::<Contents, ErrorKind>(work@),
        decreases parcel@.len() - i,
    {
        let entry = parcel.0[i];
        proof {
            assert(parcel@.take(i + 1).drop_last() =~= parcel@.take(i as int));
        }
        let from_pointer = balance_pointer(&mut work, from, &entry.id);
        let mut balance = from_pointer.get_value_u128(&work);
        if balance < entry.value {
            if entry.id == *from {
                balance = entry.value;
            } else {
                proof {
                    lemma_each_in_order_fails(start, parcel@, step, i + 1);
                }
                return Err(
                    ContractError::with_text(
                        ErrorKind::InsufficientBalance,
                        "balance underflow during transfer_from",
                    ),
                );
            }
        }
        from_pointer.set_value_u128(&mut work, balance - entry.value);
        let to_pointer = balance_pointer(&mut work, to, &entry.id);
        match to_pointer.get_value_u128(&work).checked_add(entry.value) {
            Some(sum) => {
                to_pointer.set_value_u128(&mut work, sum);
            },
            None => {
                proof {
                    lemma_each_in_order_fails(start, parcel@, step, i + 1);
                }
                return Err(ContractError::new(ErrorKind::Overflow));
            },
        }
        i += 1;
    }
    proof {
        assert(parcel@.take(parcel@.len() as int) =~= parcel@);
    }
    *store = work;
    Ok(())
}

/// The creation outpoint that the store records for `alkane_id`. The record
/// is 32 bytes of transaction id and the output index as four little-endian
/// bytes; what follows them is ignored. An identity without a record has no
/// outpoint, and a record of fewer than 36 bytes cannot be read.
pub fn alkane_id_to_outpoint(store: &Store, alkane_id: &AlkaneId) -> (result: Result<
    OutPoint,
    ContractError,
>)
    ensures
        ({
            let record = value_at(store@, outpoint_key(*alkane_id));
            if record.len() == 0 {
                result is Err && result->Err_0.states(ErrorKind::MissingOutpoint)
            } else if record.len() < 36 {
                result is Err && result->Err_0.states(ErrorKind::MalformedOutpoint)
            } else {
                result is Ok && result->Ok_0.txid@ == record.subrange(0, 32) && result->Ok_0.vout
                    == spec_u32_from_le_bytes(record.subrange(32, 36))
            }
        }),
{
    let outpoint_bytes = outpoint_location(alkane_id).get(store);
    if outpoint_bytes.len() == 0 {
        return Err(ContractError::new(ErrorKind::MissingOutpoint));
    }
    match decode_outpoint(&outpoint_bytes) {
        Some(outpoint) => Ok(outpoint),
        None => Err(ContractError::new(ErrorKind::MalformedOutpoint)),
    }
}

/// What every key of an auxiliary value below `root` begins with.
pub open spec fn storage_prefix(root: Seq<u8>) -> Seq<u8> {
    root + "/storage/".spec_bytes()
}

/// The caller's key that `key` stands for below `root`: what follows the
/// prefix.
pub open spec fn storage_suffix(root: Seq<u8>, key: Seq<u8>) -> Seq<u8> {
    key.subrange(storage_prefix(root).len() as int, key.len() as int)
}

/// Whether `key` is the key below `root` of one of the values of `values`.
pub open spec fn names_value_of(root: Seq<u8>, key: Seq<u8>, values: Contents) -> bool {
    key.len() >= storage_prefix(root).len() && key.subrange(
        0,
        storage_prefix(root).len() as int,
    ) == storage_prefix(root) && values.dom().contains(storage_suffix(root, key))
}

/// The store after a map of auxiliary values is piped into it below `root`:
/// every value of the map stands under its key below the root, and every
/// other key holds what it held.
pub open spec fn overlaid(m: Contents, root: Seq<u8>, values: Contents) -> Contents {
    Map::new(
        |key: Seq<u8>| m.dom().contains(key) || names_value_of(root, key, values),
        |key: Seq<u8>|
            if names_value_of(root, key, values) {
                values[storage_suffix(root, key)]
            } else {
                m[key]
            },
    )
}

/// The store after the pairs of `entries` are written below `root`, in
/// order.
spec fn piped(m: Contents, root: Seq<u8>, entries: Seq<(Seq<u8>, Seq<u8>)>) -> Contents
    decreases entries.len(),
{
    if entries.len() == 0 {
        m
    } else {
        piped(m, root, entries.drop_last()).insert(
            storage_key(root, entries.last().0),
            entries.last().1,
        )
    }
}

/// A key below `root` is the prefix followed by the caller's key, and
/// nothing else with that prefix stands for the caller's key.
pub proof fn lemma_storage_key_parts(root: Seq<u8>, key: Seq<u8>)
    ensures
        storage_key(root, key) == storage_prefix(root) + key,
        storage_key(root, key).subrange(0, storage_prefix(root).len() as int) == storage_prefix(
            root,
        ),
        storage_suffix(root, storage_key(root, key)) == key,
        forall|other: Seq<u8>|
            other.len() >= storage_prefix(root).len() && other.subrange(
                0,
                storage_prefix(root).len() as int,
            ) == storage_prefix(root) && #[trigger] storage_suffix(root, other) == key ==> other
                == storage_key(root, key),
{
    let prefix = storage_prefix(root);
    let full = storage_key(root, key);
    assert(full.subrange(0, prefix.len() as int) =~= prefix);
    assert(storage_suffix(root, full) =~= key);
    assert forall|other: Seq<u8>|
        other.len() >= prefix.len() && other.subrange(0, prefix.len() as int) == prefix
            && #[trigger] storage_suffix(root, other) == key implies other == full by {
        assert(other =~= other.subrange(0, prefix.len() as int) + other.subrange(
            prefix.len() as int,
            other.len() as int,
        ));
    }
}

proof fn lemma_piped_is_overlaid(m: Contents, root: Seq<u8>, entries: Seq<(Seq<u8>, Seq<u8>)>)
    ensures
        piped(m, root, entries) == overlaid(m, root, written(entries)),
    decreases entries.len(),
{
    if entries.len() == 0 {
        assert(overlaid(m, root, written(entries)) =~= m);
    } else {
        let front = entries.drop_last();
        let key = entries.last().0;
        let value = entries.last().1;
        lemma_piped_is_overlaid(m, root, front);
        lemma_storage_key_parts(root, key);
        let before = overlaid(m, root, written(front));
        let after = overlaid(m, root, written(front).insert(key, value));
        assert forall|other: Seq<u8>| #[trigger]
            names_value_of(root, other, written(front).insert(key, value)) <==> (other
                == storage_key(root, key) || names_value_of(root, other, written(front))) by {}
        assert(before.insert(storage_key(root, key), value) =~= after);
    }
}

/// Writes every value of `map` into the store, each under its key below
/// `pointer`.
pub fn pipe_storagemap_to(map: &StorageMap, store: &mut Store, pointer: &StoragePointer)
    ensures
        final(store)@ == overlaid(old(store)@, pointer@, map@),
{
    let ghost start = store@;
    let entries = map.to_entries();
    let ghost pairs = pairs_of(entries@);
    let mut i: usize = 0;
    while i < entries.len()
        invariant
            i <= entries@.len(),
            pairs == pairs_of(entries@),
            store@ == piped(start, pointer@, pairs.take(i as int)),
        decreases entries@.len() - i,
    {
        let target = pointer.keyword("/storage/").select(&entries[i].0);
        target.set(store, copy_bytes(&entries[i].1));
        proof {
            assert(pairs.take(i + 1).drop_last() =~= pairs.take(i as int));
        }
        i += 1;
    }
    proof {
        assert(pairs.take(entries@.len() as int) =~= pairs);
        lemma_piped_is_overlaid(start, pointer@, pairs);
    }
}

/// The assets that a list of entries names.
pub open spec fn assets_of(entries: Seq<AlkaneTransfer>) -> Seq<AlkaneId> {
    Seq::new(entries.len(), |i: int| entries[i].id)
}

/// The keys of the inventories of `holders`.
pub fn inventory_keys(holders: &Vec<AlkaneId>) -> (keys: Vec<Vec<u8>>)
    ensures
        key_set(keys@) == inventory_key_set(holders@),
{
    let mut keys: Vec<Vec<u8>> = Vec::new();
    let mut h: usize = 0;
    while h < holders.len()
        invariant
            h <= holders@.len(),
            keys@.len() == h,
            forall|j: int| 0 <= j < h ==> (#[trigger] keys@[j])@ == inventory_key(holders@[j]),
        decreases holders@.len() - h,
    {
        keys.push(alkane_inventory_pointer(&holders[h]).unwrap());
        h += 1;
    }
    proof {
        assert forall|key: Seq<u8>| key_set(keys@).contains(key) <==> names_inventory(
            key,
            holders@,
        ) by {
            if key_set(keys@).contains(key) {
                let j = choose|j: int| 0 <= j < keys@.len() && (#[trigger] keys@[j])@ == key;
                assert(key == inventory_key(holders@[j]));
            }
            if names_inventory(key, holders@) {
                let j = choose|j: int|
                    0 <= j < holders@.len() && key == inventory_key(#[trigger] holders@[j]);
                assert(keys@[j]@ == key);
            }
        }
        assert(key_set(keys@) =~= inventory_key_set(holders@));
    }
    keys
}

/// The keys of the balances that `holders` have of the assets of `entries`.
pub fn balance_keys(holders: &Vec<AlkaneId>, entries: &Vec<AlkaneTransfer>) -> (keys: Vec<Vec<u8>>)
    ensures
        key_set(keys@) == balance_key_set(holders@, assets_of(entries@)),
{
    let ghost assets = assets_of(entries@);
    let mut keys: Vec<Vec<u8>> = Vec::new();
    let mut h: usize = 0;
    proof {
        assert(key_set(keys@) =~= balance_key_set(holders@.take(0), assets));
    }
    while h < holders.len()
        invariant
            h <= holders@.len(),
            assets == assets_of(entries@),
            key_set(keys@) == balance_key_set(holders@.take(h as int), assets),
        decreases holders@.len() - h,
    {
        let ghost before = keys@;
        let ghost holder = holders@[h as int];
        let mut i: usize = 0;
        proof {
            assert(key_set(keys@) =~= key_set(before).union(
                balance_key_set(seq![holder], assets.take(0)),
            ));
        }
        while i < entries.len()
            invariant
                h < holders@.len(),
                i <= entries@.len(),
                assets == assets_of(entries@),
                holder == holders@[h as int],
                key_set(keys@) == key_set(before).union(
                    balance_key_set(seq![holder], assets.take(i as int)),
                ),
            decreases entries@.len() - i,
        {
            let ghost listed = keys@;
            let location = balance_location(&holders[h], &entries[i].id).unwrap();
            let ghost pushed = location;
            keys.push(location);
            proof {
                assert(assets[i as int] == entries@[i as int].id);
                lemma_key_set_push(listed, pushed);
                lemma_one_more_asset(holder, assets, i as int);
                assert(key_set(keys@) =~= key_set(before).union(
                    balance_key_set(seq![holder], assets.take(i + 1)),
                ));
            }
            i += 1;
        }
        proof {
            assert(assets.take(entries@.len() as int) =~= assets);
            lemma_one_more_holder(holders@, assets, h as int);
        }
        h += 1;
    }
    proof {
        assert(holders@.take(holders@.len() as int) =~= holders@);
    }
    keys
}

proof fn lemma_key_set_push(keys: Seq<Vec<u8>>, last: Vec<u8>)
    ensures
        key_set(keys.push(last)) == key_set(keys).insert(last@),
{
    let longer = keys.push(last);
    assert forall|key: Seq<u8>| key_set(longer).contains(key) <==> key_set(keys).insert(
        last@,
    ).contains(key) by {
        if key_set(longer).contains(key) {
            let j = choose|j: int| 0 <= j < longer.len() && (#[trigger] longer[j])@ == key;
            if j < keys.len() {
                assert(keys[j]@ == key);
            }
        }
        if key_set(keys).contains(key) {
            let j = choose|j: int| 0 <= j < keys.len() && (#[trigger] keys[j])@ == key;
            assert(longer[j]@ == key);
        }
        if key == last@ {
            assert(longer[keys.len() as int]@ == key);
        }
    }
    assert(key_set(longer) =~= key_set(keys).insert(last@));
}

proof fn lemma_one_more_asset(holder: AlkaneId, assets: Seq<AlkaneId>, i: int)
    requires
        0 <= i < assets.len(),
    ensures
        balance_key_set(seq![holder], assets.take(i + 1)) == balance_key_set(
            seq![holder],
            assets.take(i),
        ).insert(balance_key(holder, assets[i])),
{
    let one = seq![holder];
    let more = assets.take(i + 1);
    let fewer = assets.take(i);
    assert forall|key: Seq<u8>| names_balance(key, one, more) <==> (names_balance(key, one, fewer)
        || key == balance_key(holder, assets[i])) by {
        if names_balance(key, one, more) {
            let (h, j) = choose|h: int, j: int|
                0 <= h < one.len() && 0 <= j < more.len() && key == balance_key(
                    #[trigger] one[h],
                    #[trigger] more[j],
                );
            if j < i {
                assert(key == balance_key(one[h], fewer[j]));
            }
        }
        if names_balance(key, one, fewer) {
            let (h, j) = choose|h: int, j: int|
                0 <= h < one.len() && 0 <= j < fewer.len() && key == balance_key(
                    #[trigger] one[h],
                    #[trigger] fewer[j],
                );
            assert(key == balance_key(one[h], more[j]));
        }
        if key == balance_key(holder, assets[i]) {
            assert(key == balance_key(one[0], more[i]));
        }
    }
    assert(balance_key_set(one, more) =~= balance_key_set(one, fewer).insert(
        balance_key(holder, assets[i]),
    ));
}

proof fn lemma_one_more_holder(holders: Seq<AlkaneId>, assets: Seq<AlkaneId>, h: int)
    requires
        0 <= h < holders.len(),
    ensures
        balance_key_set(holders.take(h + 1), assets) == balance_key_set(
            holders.take(h),
            assets,
        ).union(balance_key_set(seq![holders[h]], assets)),
{
    let more = holders.take(h + 1);
    let fewer = holders.take(h);
    let one = seq![holders[h]];
    assert forall|key: Seq<u8>| names_balance(key, more, assets) <==> (names_balance(
        key,
        fewer,
        assets,
    ) || names_balance(key, one, assets)) by {
        if names_balance(key, more, assets) {
            let (g, j) = choose|g: int, j: int|
                0 <= g < more.len() && 0 <= j < assets.len() && key == balance_key(
                    #[trigger] more[g],
                    #[trigger] assets[j],
                );
            if g < h {
                assert(key == balance_key(fewer[g], assets[j]));
            } else {
                assert(key == balance_key(one[0], assets[j]));
            }
        }
        if names_balance(key, fewer, assets) {
            let (g, j) = choose|g: int, j: int|
                0 <= g < fewer.len() && 0 <= j < assets.len() && key == balance_key(
                    #[trigger] fewer[g],
                    #[trigger] assets[j],
                );
            assert(key == balance_key(more[g], assets[j]));
        }
        if names_balance(key, one, assets) {
            let (g, j) = choose|g: int, j: int|
                0 <= g < one.len() && 0 <= j < assets.len() && key == balance_key(
                    #[trigger] one[g],
                    #[trigger] assets[j],
                );
            assert(key == balance_key(more[h], assets[j]));
        }
    }
    assert(balance_key_set(more, assets) =~= balance_key_set(fewer, assets).union(
        balance_key_set(one, assets),
    ));
}

} // verus!
