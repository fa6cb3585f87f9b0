use alkanes_ledger::block::OutPoint;
use alkanes_ledger::error::{ContractError, ErrorKind};
use alkanes_ledger::id::{from_protobuf, AlkaneId, AlkaneTransfer, AlkaneTransferParcel, ProtoAlkaneId, Uint128};
use alkanes_ledger::ledger::{
    alkane_id_to_outpoint, alkane_inventory_pointer, balance_pointer, credit_balances,
    debit_balances, pipe_storagemap_to, transfer_from,
};
use alkanes_ledger::pointer::StoragePointer;
use alkanes_ledger::store::{StorageMap, Store};

fn id(block: u128, tx: u128) -> AlkaneId {
    AlkaneId { block, tx }
}

fn entry(asset: AlkaneId, value: u128) -> AlkaneTransfer {
    AlkaneTransfer { id: asset, value }
}

fn balance(store: &Store, who: &AlkaneId, what: &AlkaneId) -> u128 {
    let mut key = b"/alkanes/".to_vec();
    key.extend(what.to_bytes());
    key.extend(b"/balances/");
    key.extend(who.to_bytes());
    let value = store.get(&key);
    if value.is_empty() {
        0
    } else {
        u128::from_le_bytes(value.try_into().unwrap())
    }
}

fn inventory(store: &Store, who: &AlkaneId) -> Vec<u8> {
    let mut key = b"/alkanes".to_vec();
    key.extend(who.to_bytes());
    key.extend(b"/inventory/");
    store.get(&key)
}

fn kind_of(result: Result<(), ContractError>) -> ErrorKind {
    result.unwrap_err().kind
}

#[test]
fn identity_is_written_as_two_little_endian_numbers() {
    let bytes = id(2, 0x0102).to_bytes();
    assert_eq!(bytes.len(), 32);
    assert_eq!(bytes[0], 2);
    assert_eq!(&bytes[1..16], &[0u8; 15]);
    assert_eq!(bytes[16], 0x02);
    assert_eq!(bytes[17], 0x01);
    assert_eq!(&bytes[18..32], &[0u8; 14]);
    assert_eq!(AlkaneId::new(2, 0x0102), id(2, 0x0102));
}

#[test]
fn pointer_key_is_the_concatenation_of_its_segments() {
    let pointer = StoragePointer::from_keyword("/a").select(&vec![1, 2]).keyword("/b/").select(&vec![]);
    assert_eq!(pointer.unwrap(), vec![b'/', b'a', 1, 2, b'/', b'b', b'/']);
    assert_eq!(StoragePointer::wrap(&vec![9, 8]).unwrap(), vec![9, 8]);
}

#[test]
fn pointer_reads_zero_where_nothing_was_written() {
    let mut store = Store::new();
    let pointer = StoragePointer::from_keyword("/count");
    assert_eq!(pointer.get(&store), Vec::<u8>::new());
    assert_eq!(pointer.get_value_u128(&store), 0);
    pointer.set_value_u128(&mut store, 0x0102);
    let mut expected = vec![0u8; 16];
    expected[0] = 0x02;
    expected[1] = 0x01;
    assert_eq!(pointer.get(&store), expected);
    assert_eq!(pointer.get_value_u128(&store), 0x0102);
    pointer.set_value_u32(&mut store, 1);
    assert_eq!(pointer.get(&store), vec![1, 0, 0, 0]);
    assert_eq!(pointer.get_value_u128(&store), 0);
    pointer.set(&mut store, vec![7]);
    assert_eq!(pointer.get(&store), vec![7]);
}

#[test]
fn balance_key_layout_is_byte_exact() {
    let mut store = Store::new();
    let who = id(2, 7);
    let what = id(2, 1);
    let pointer = balance_pointer(&mut store, &who, &what);
    let mut expected = b"/alkanes/".to_vec();
    expected.extend(what.to_bytes());
    expected.extend(b"/balances/");
    expected.extend(who.to_bytes());
    assert_eq!(pointer.unwrap(), expected);
    assert_eq!(expected.len(), 83);
    let inventory_pointer = alkane_inventory_pointer(&who);
    let mut expected = b"/alkanes".to_vec();
    expected.extend(who.to_bytes());
    expected.extend(b"/inventory/");
    assert_eq!(inventory_pointer.unwrap(), expected);
    assert_eq!(store.to_entries().len(), 0);
}

#[test]
fn credit_adds_to_the_balance() {
    let mut store = Store::new();
    let who = id(2, 7);
    let what = id(2, 1);
    credit_balances(&mut store, &who, &vec![entry(what, 5)]).unwrap();
    assert_eq!(balance(&store, &who, &what), 5);
    credit_balances(&mut store, &who, &vec![entry(what, 6), entry(id(2, 2), 1), entry(what, 1)]).unwrap();
    assert_eq!(balance(&store, &who, &what), 12);
    assert_eq!(balance(&store, &who, &id(2, 2)), 1);
    assert_eq!(balance(&store, &id(2, 8), &what), 0);
}

#[test]
fn credit_of_an_empty_list_changes_nothing() {
    let mut store = Store::new();
    credit_balances(&mut store, &id(2, 7), &vec![]).unwrap();
    assert_eq!(store.to_entries().len(), 0);
}

#[test]
fn credit_overflow_fails_and_writes_nothing() {
    let mut store = Store::new();
    let who = id(2, 7);
    let what = id(2, 1);
    credit_balances(&mut store, &who, &vec![entry(what, u128::MAX - 1)]).unwrap();
    let error = credit_balances(&mut store, &who, &vec![entry(id(2, 2), 3), entry(what, 2)]).unwrap_err();
    assert_eq!(error.kind, ErrorKind::Overflow);
    assert_eq!(error.message, "balance overflow during credit_balances");
    assert_eq!(balance(&store, &who, &what), u128::MAX - 1);
    assert_eq!(balance(&store, &who, &id(2, 2)), 0);
    credit_balances(&mut store, &who, &vec![entry(what, 1)]).unwrap();
    assert_eq!(balance(&store, &who, &what), u128::MAX);
}

#[test]
fn debit_takes_from_the_balance() {
    let mut store = Store::new();
    let who = id(2, 7);
    let what = id(2, 1);
    credit_balances(&mut store, &who, &vec![entry(what, 10)]).unwrap();
    debit_balances(&mut store, &who, &AlkaneTransferParcel(vec![entry(what, 4)])).unwrap();
    assert_eq!(balance(&store, &who, &what), 6);
    debit_balances(&mut store, &who, &AlkaneTransferParcel(vec![entry(what, 6)])).unwrap();
    assert_eq!(balance(&store, &who, &what), 0);
    debit_balances(&mut store, &who, &AlkaneTransferParcel(vec![])).unwrap();
    assert_eq!(balance(&store, &who, &what), 0);
}

#[test]
fn debit_for_more_than_the_balance_fails_for_a_holder() {
    let mut store = Store::new();
    let who = id(2, 7);
    let what = id(2, 1);
    credit_balances(&mut store, &who, &vec![entry(what, 10), entry(id(2, 2), 10)]).unwrap();
    let error = debit_balances(
        &mut store,
        &who,
        &AlkaneTransferParcel(vec![entry(id(2, 2), 3), entry(what, 11)]),
    )
    .unwrap_err();
    assert_eq!(error.kind, ErrorKind::InsufficientBalance);
    assert_eq!(error.message, "insufficient balance");
    assert_eq!(balance(&store, &who, &what), 10);
    assert_eq!(balance(&store, &who, &id(2, 2)), 10);
}

#[test]
fn debit_for_more_than_the_balance_is_let_through_for_the_issuer() {
    let mut store = Store::new();
    let issuer = id(2, 1);
    credit_balances(&mut store, &issuer, &vec![entry(issuer, 10)]).unwrap();
    debit_balances(&mut store, &issuer, &AlkaneTransferParcel(vec![entry(issuer, 11)])).unwrap();
    assert_eq!(balance(&store, &issuer, &issuer), 10);
    debit_balances(&mut store, &issuer, &AlkaneTransferParcel(vec![entry(issuer, 4)])).unwrap();
    assert_eq!(balance(&store, &issuer, &issuer), 6);
    let mut fresh = Store::new();
    debit_balances(&mut fresh, &issuer, &AlkaneTransferParcel(vec![entry(issuer, 1)])).unwrap();
    assert_eq!(balance(&fresh, &issuer, &issuer), 0);
    assert_eq!(
        kind_of(debit_balances(&mut fresh, &issuer, &AlkaneTransferParcel(vec![entry(id(2, 9), 1)]))),
        ErrorKind::InsufficientBalance
    );
}

#[test]
fn transfer_moves_the_amount() {
    let mut store = Store::new();
    let from = id(2, 7);
    let to = id(2, 8);
    let what = id(2, 1);
    credit_balances(&mut store, &from, &vec![entry(what, 10)]).unwrap();
    transfer_from(&AlkaneTransferParcel(vec![entry(what, 4)]), &mut store, &from, &to).unwrap();
    assert_eq!(balance(&store, &from, &what), 6);
    assert_eq!(balance(&store, &to, &what), 4);
    transfer_from(&AlkaneTransferParcel(vec![entry(what, 6), entry(what, 0)]), &mut store, &from, &to).unwrap();
    assert_eq!(balance(&store, &from, &what), 0);
    assert_eq!(balance(&store, &to, &what), 10);
}

#[test]
fn transfer_of_more_than_the_balance_fails_and_writes_nothing() {
    let mut store = Store::new();
    let from = id(2, 7);
    let to = id(2, 8);
    let what = id(2, 1);
    let other = id(2, 2);
    credit_balances(&mut store, &from, &vec![entry(what, 10), entry(other, 10)]).unwrap();
    let error = transfer_from(
        &AlkaneTransferParcel(vec![entry(other, 10), entry(what, 11)]),
        &mut store,
        &from,
        &to,
    )
    .unwrap_err();
    assert_eq!(error.kind, ErrorKind::InsufficientBalance);
    assert_eq!(error.message, "balance underflow during transfer_from");
    assert_eq!(balance(&store, &from, &what), 10);
    assert_eq!(balance(&store, &from, &other), 10);
    assert_eq!(balance(&store, &to, &what), 0);
    assert_eq!(balance(&store, &to, &other), 0);
}

#[test]
fn transfer_out_of_the_issuer_creates_what_is_missing() {
    let mut store = Store::new();
    let issuer = id(2, 1);
    let to = id(2, 8);
    credit_balances(&mut store, &issuer, &vec![entry(issuer, 3)]).unwrap();
    transfer_from(&AlkaneTransferParcel(vec![entry(issuer, 10)]), &mut store, &issuer, &to).unwrap();
    assert_eq!(balance(&store, &issuer, &issuer), 0);
    assert_eq!(balance(&store, &to, &issuer), 10);
    transfer_from(&AlkaneTransferParcel(vec![entry(issuer, 5)]), &mut store, &issuer, &issuer).unwrap();
    assert_eq!(balance(&store, &issuer, &issuer), 5);
    assert_eq!(
        kind_of(transfer_from(&AlkaneTransferParcel(vec![entry(id(2, 2), 1)]), &mut store, &issuer, &to)),
        ErrorKind::InsufficientBalance
    );
}

#[test]
fn transfer_that_overflows_the_receiver_fails() {
    let mut store = Store::new();
    let from = id(2, 7);
    let to = id(2, 8);
    let what = id(2, 1);
    credit_balances(&mut store, &from, &vec![entry(what, 10)]).unwrap();
    credit_balances(&mut store, &to, &vec![entry(what, u128::MAX - 5)]).unwrap();
    let error = transfer_from(&AlkaneTransferParcel(vec![entry(what, 6)]), &mut store, &from, &to).unwrap_err();
    assert_eq!(error.kind, ErrorKind::Overflow);
    assert_eq!(error.message, "overflow error");
    assert_eq!(balance(&store, &from, &what), 10);
    assert_eq!(balance(&store, &to, &what), u128::MAX - 5);
    transfer_from(&AlkaneTransferParcel(vec![entry(what, 5)]), &mut store, &from, &to).unwrap();
    assert_eq!(balance(&store, &to, &what), u128::MAX);
}

#[test]
fn transfer_to_oneself_keeps_the_balance() {
    let mut store = Store::new();
    let who = id(2, 7);
    let what = id(2, 1);
    credit_balances(&mut store, &who, &vec![entry(what, 10)]).unwrap();
    transfer_from(&AlkaneTransferParcel(vec![entry(what, 4)]), &mut store, &who, &who).unwrap();
    assert_eq!(balance(&store, &who, &what), 10);
}

#[test]
fn transfers_conserve_the_sum_of_balances() {
    let mut store = Store::new();
    let holders = [id(2, 7), id(2, 8), id(2, 9)];
    let what = id(2, 1);
    credit_balances(&mut store, &holders[0], &vec![entry(what, 70)]).unwrap();
    credit_balances(&mut store, &holders[1], &vec![entry(what, 30)]).unwrap();
    let sum = |store: &Store| -> u128 { holders.iter().map(|holder| balance(store, holder, &what)).sum() };
    assert_eq!(sum(&store), 100);
    transfer_from(&AlkaneTransferParcel(vec![entry(what, 25)]), &mut store, &holders[0], &holders[2]).unwrap();
    transfer_from(&AlkaneTransferParcel(vec![entry(what, 30)]), &mut store, &holders[1], &holders[0]).unwrap();
    assert!(transfer_from(&AlkaneTransferParcel(vec![entry(what, 1)]), &mut store, &holders[1], &holders[0]).is_err());
    transfer_from(&AlkaneTransferParcel(vec![entry(what, 5), entry(what, 5)]), &mut store, &holders[2], &holders[1]).unwrap();
    assert_eq!(balance(&store, &holders[0], &what), 75);
    assert_eq!(balance(&store, &holders[1], &what), 10);
    assert_eq!(balance(&store, &holders[2], &what), 15);
    assert_eq!(sum(&store), 100);
}

#[test]
fn inventory_is_filled_by_the_lookup_after_the_first_credit() {
    let mut store = Store::new();
    let who = id(2, 7);
    let what = id(2, 1);
    let other = id(2, 2);
    credit_balances(&mut store, &who, &vec![entry(what, 5)]).unwrap();
    assert_eq!(inventory(&store, &who), Vec::<u8>::new());
    balance_pointer(&mut store, &who, &what);
    assert_eq!(inventory(&store, &who), what.to_bytes());
    balance_pointer(&mut store, &who, &what);
    credit_balances(&mut store, &who, &vec![entry(what, 5)]).unwrap();
    assert_eq!(inventory(&store, &who), what.to_bytes());
    credit_balances(&mut store, &who, &vec![entry(other, 1), entry(other, 1)]).unwrap();
    let mut both = what.to_bytes();
    both.extend(other.to_bytes());
    assert_eq!(inventory(&store, &who), both);
    debit_balances(&mut store, &who, &AlkaneTransferParcel(vec![entry(what, 10)])).unwrap();
    balance_pointer(&mut store, &who, &what);
    assert_eq!(inventory(&store, &who), both);
    assert_eq!(inventory(&store, &id(2, 8)), Vec::<u8>::new());
}

#[test]
fn a_failed_call_leaves_the_inventory_alone() {
    let mut store = Store::new();
    let who = id(2, 7);
    let what = id(2, 1);
    credit_balances(&mut store, &who, &vec![entry(what, 5)]).unwrap();
    assert!(debit_balances(&mut store, &who, &AlkaneTransferParcel(vec![entry(what, 6)])).is_err());
    assert_eq!(inventory(&store, &who), Vec::<u8>::new());
}

#[test]
fn storage_map_is_written_below_the_pointer() {
    let mut store = Store::new();
    let mut map = StorageMap::new();
    map.insert(vec![2], vec![20]);
    map.insert(vec![1], vec![10]);
    map.insert(vec![1], vec![11]);
    assert_eq!(map.get(&vec![1]), Some(vec![11]));
    assert_eq!(map.get(&vec![3]), None);
    assert_eq!(map.to_entries(), vec![(vec![2], vec![20]), (vec![1], vec![11])]);
    store.set(vec![9], vec![9]);
    pipe_storagemap_to(&map, &mut store, &StoragePointer::from_keyword("/x"));
    assert_eq!(store.get(&vec![9]), vec![9]);
    let mut first = b"/x/storage/".to_vec();
    first.push(1);
    let mut second = b"/x/storage/".to_vec();
    second.push(2);
    assert_eq!(store.get(&first), vec![11]);
    assert_eq!(store.get(&second), vec![20]);
    assert_eq!(store.to_entries().len(), 3);
    pipe_storagemap_to(&StorageMap::new(), &mut store, &StoragePointer::wrap(&vec![]));
    assert_eq!(store.to_entries().len(), 3);
    let listed = StorageMap::from_entries(&vec![(vec![1], vec![1]), (vec![2], vec![2]), (vec![1], vec![3])]);
    assert_eq!(listed.to_entries(), vec![(vec![1], vec![3]), (vec![2], vec![2])]);
    pipe_storagemap_to(&listed, &mut store, &StoragePointer::wrap(&vec![]));
    assert_eq!(store.get(&vec![b'/', b's', b't', b'o', b'r', b'a', b'g', b'e', b'/', 1]), vec![3]);
}

#[test]
fn outpoint_is_read_from_its_record() {
    let mut store = Store::new();
    let what = id(2, 1);
    assert_eq!(alkane_id_to_outpoint(&store, &what).unwrap_err().kind, ErrorKind::MissingOutpoint);
    let mut key = b"/alkanes_id_to_outpoint/".to_vec();
    key.extend(what.to_bytes());
    store.set(key.clone(), vec![1; 35]);
    let error = alkane_id_to_outpoint(&store, &what).unwrap_err();
    assert_eq!(error.kind, ErrorKind::MalformedOutpoint);
    assert_eq!(error.message, "malformed creation outpoint");
    let mut record: Vec<u8> = (0u8..32).collect();
    record.extend([0x04, 0x03, 0x02, 0x01]);
    store.set(key.clone(), record.clone());
    let OutPoint { txid, vout } = alkane_id_to_outpoint(&store, &what).unwrap();
    assert_eq!(txid.to_vec(), (0u8..32).collect::<Vec<u8>>());
    assert_eq!(vout, 0x01020304);
    record.push(0xff);
    store.set(key, record);
    let OutPoint { txid, vout } = alkane_id_to_outpoint(&store, &what).unwrap();
    assert_eq!(txid[31], 31);
    assert_eq!(vout, 0x01020304);
    assert_eq!(alkane_id_to_outpoint(&store, &id(2, 2)).unwrap_err().message, "No creation outpoint for alkane id");
}

#[test]
fn wire_identity_joins_its_halves() {
    let wire = ProtoAlkaneId {
        block: Some(Uint128 { lo: 2, hi: 0 }),
        tx: Some(Uint128 { lo: 5, hi: 1 }),
    };
    assert_eq!(from_protobuf(wire), id(2, (1u128 << 64) + 5));
    let wire = ProtoAlkaneId {
        block: Some(Uint128 { lo: u64::MAX, hi: u64::MAX }),
        tx: Some(Uint128 { lo: 0, hi: 0 }),
    };
    assert_eq!(from_protobuf(wire), id(u128::MAX, 0));
}

#[test]
fn store_is_rebuilt_from_its_entries() {
    let mut store = Store::new();
    credit_balances(&mut store, &id(2, 7), &vec![entry(id(2, 1), 5)]).unwrap();
    let copy = Store::from_entries(&store.to_entries());
    assert_eq!(balance(&copy, &id(2, 7), &id(2, 1)), 5);
    let snapshot = store.snapshot();
    credit_balances(&mut store, &id(2, 7), &vec![entry(id(2, 1), 5)]).unwrap();
    assert_eq!(balance(&snapshot, &id(2, 7), &id(2, 1)), 5);
    assert_eq!(balance(&store, &id(2, 7), &id(2, 1)), 10);
    let later = Store::from_entries(&vec![(vec![1], vec![2]), (vec![1], vec![3])]);
    assert_eq!(later.get(&vec![1]), vec![3]);
}
