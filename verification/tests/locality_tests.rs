use alkanes_ledger::chain::ChainConfiguration;
use alkanes_ledger::genesis::GenesisAlkane;
use alkanes_ledger::id::{AlkaneId, AlkaneTransfer, AlkaneTransferParcel};
use alkanes_ledger::layout::{balance_location, initialized_pointer};
use alkanes_ledger::ledger::{
    alkane_inventory_pointer, balance_keys, credit_balances, inventory_keys, transfer_from,
};
use alkanes_ledger::orbital::Orbital;
use alkanes_ledger::response::Context;
use alkanes_ledger::store::Store;

fn id(tx: u128) -> AlkaneId {
    AlkaneId { block: 2, tx }
}

fn entry(asset: AlkaneId, value: u128) -> AlkaneTransfer {
    AlkaneTransfer { id: asset, value }
}

fn part_of(store: &Store, keys: &Vec<Vec<u8>>) -> Store {
    let loaded: Vec<(Vec<u8>, Vec<u8>)> = keys.iter().map(|key| (key.clone(), store.get(key))).collect();
    Store::from_entries(&loaded)
}

fn write_back(store: &mut Store, part: &Store) {
    for (key, value) in part.to_entries() {
        store.set(key, value);
    }
}

fn sorted(store: &Store) -> Vec<(Vec<u8>, Vec<u8>)> {
    let mut entries: Vec<(Vec<u8>, Vec<u8>)> =
        store.to_entries().into_iter().filter(|(_, value)| !value.is_empty()).collect();
    entries.sort();
    entries
}

#[test]
fn ledger_keys_are_listed() {
    let holders = vec![id(7), id(8)];
    let entries = vec![entry(id(1), 5), entry(id(2), 5)];
    assert_eq!(
        inventory_keys(&holders),
        vec![alkane_inventory_pointer(&id(7)).unwrap(), alkane_inventory_pointer(&id(8)).unwrap()]
    );
    assert_eq!(
        balance_keys(&holders, &entries),
        vec![
            balance_location(&id(7), &id(1)).unwrap(),
            balance_location(&id(7), &id(2)).unwrap(),
            balance_location(&id(8), &id(1)).unwrap(),
            balance_location(&id(8), &id(2)).unwrap(),
        ]
    );
    assert!(balance_keys(&vec![], &entries).is_empty());
    assert!(balance_keys(&holders, &vec![]).is_empty());
    assert!(inventory_keys(&vec![]).is_empty());
    assert_eq!(initialized_pointer().unwrap(), b"/initialized".to_vec());
}

#[test]
fn contract_keys_are_listed() {
    let genesis = GenesisAlkane::default();
    assert_eq!(genesis.storage_keys(None), vec![b"/totalsupply".to_vec(), b"/initialized".to_vec()]);
    assert_eq!(
        genesis.storage_keys(Some(&vec![1, 2])),
        vec![b"/totalsupply".to_vec(), b"/initialized".to_vec(), vec![b'/', b's', b'e', b'e', b'n', b'/', 1, 2]]
    );
    assert_eq!(Orbital::default().storage_keys(), vec![b"/totalsupply".to_vec(), b"/initialized".to_vec()]);
}

#[test]
fn a_transfer_on_its_part_of_the_store_goes_as_on_the_whole() {
    let mut whole = Store::new();
    for holder in [id(7), id(8), id(9)] {
        credit_balances(&mut whole, &holder, &vec![entry(id(1), 50), entry(id(2), 50), entry(id(1), 1)]).unwrap();
    }
    whole.set(vec![1, 2, 3], vec![4]);
    let parcel = AlkaneTransferParcel(vec![entry(id(1), 20), entry(id(2), 30)]);
    let holders = vec![id(7), id(8)];
    let mut keys = inventory_keys(&holders);
    keys.extend(balance_keys(&holders, &parcel.0));
    let mut part = part_of(&whole, &keys);
    let mut other = whole.snapshot();
    transfer_from(&parcel, &mut part, &id(7), &id(8)).unwrap();
    transfer_from(&parcel, &mut whole, &id(7), &id(8)).unwrap();
    write_back(&mut other, &part);
    assert_eq!(sorted(&other), sorted(&whole));

    let too_much = AlkaneTransferParcel(vec![entry(id(1), 20), entry(id(2), 30)]);
    let before = sorted(&whole);
    let mut part = part_of(&whole, &keys);
    assert!(transfer_from(&too_much, &mut part, &id(7), &id(8)).is_err());
    assert!(transfer_from(&too_much, &mut whole, &id(7), &id(8)).is_err());
    assert_eq!(sorted(&whole), before);
}

#[test]
fn a_mint_on_its_part_of_the_store_goes_as_on_the_whole() {
    let chain = ChainConfiguration {
        genesis_block: 0,
        halving_interval: 0,
        base_reward: 10,
        average_payout_from_genesis: 40,
        total_supply: 100,
    };
    let genesis = GenesisAlkane::new(chain);
    let context = Context {
        myself: id(0),
        caller: id(0),
        vout: 0,
        incoming_alkanes: AlkaneTransferParcel(vec![]),
        inputs: vec![77],
    };
    let mut whole = Store::new();
    genesis.execute_hashed(&mut whole, &context, 1, Some(&vec![1; 32])).unwrap();
    let hash = vec![2; 32];
    let mut part = part_of(&whole, &genesis.storage_keys(Some(&hash)));
    let mut other = whole.snapshot();
    let answer = genesis.execute_hashed(&mut part, &context, 1, Some(&hash)).unwrap();
    let expected = genesis.execute_hashed(&mut whole, &context, 1, Some(&hash)).unwrap();
    assert_eq!(answer.alkanes.0, expected.alkanes.0);
    write_back(&mut other, &part);
    assert_eq!(sorted(&other), sorted(&whole));
    assert_eq!(genesis.total_supply(&whole), 20);
    let mut part = part_of(&whole, &genesis.storage_keys(Some(&hash)));
    assert!(genesis.execute_hashed(&mut part, &context, 1, Some(&hash)).is_err());
}
