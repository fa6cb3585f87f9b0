use alkanes_ledger::error::ErrorKind;
use alkanes_ledger::id::{AlkaneId, AlkaneTransfer, AlkaneTransferParcel};
use alkanes_ledger::orbital::Orbital;
use alkanes_ledger::response::Context;
use alkanes_ledger::store::Store;

fn myself() -> AlkaneId {
    AlkaneId { block: 2, tx: 3 }
}

fn context(inputs: Vec<u128>) -> Context {
    Context {
        myself: myself(),
        caller: AlkaneId { block: 0, tx: 0 },
        vout: 0,
        incoming_alkanes: AlkaneTransferParcel(vec![]),
        inputs,
    }
}

#[test]
fn orbital_is_issued_once() {
    let orbital = Orbital::default();
    let mut store = Store::new();
    assert_eq!(orbital.total_supply(&store), 0);
    let response = orbital.execute(&mut store, &context(vec![0])).unwrap();
    assert_eq!(response.alkanes.0, vec![AlkaneTransfer { id: myself(), value: 1 }]);
    assert!(response.data.is_empty());
    assert_eq!(orbital.total_supply(&store), 1);
    assert_eq!(store.get(&b"/initialized".to_vec()), vec![1, 0, 0, 0]);
    assert_eq!(store.get(&b"/totalsupply".to_vec()), 1u128.to_le_bytes().to_vec());
    let before = store.to_entries();
    let error = orbital.execute(&mut store, &context(vec![0])).unwrap_err();
    assert_eq!(error.kind, ErrorKind::AlreadyInitialized);
    assert_eq!(error.message, "already initialized");
    assert_eq!(store.to_entries(), before);
    assert_eq!(orbital.total_supply(&store), 1);
}

#[test]
fn orbital_initialization_is_observed_once() {
    let orbital = Orbital::default();
    let mut store = Store::new();
    orbital.observe_initialization(&mut store).unwrap();
    assert_eq!(orbital.observe_initialization(&mut store).unwrap_err().kind, ErrorKind::AlreadyInitialized);
    assert_eq!(store.to_entries().len(), 1);
}

#[test]
fn orbital_supply_is_set_and_read() {
    let orbital = Orbital::default();
    let mut store = Store::new();
    orbital.set_total_supply(&mut store, 7);
    assert_eq!(orbital.total_supply(&store), 7);
    assert_eq!(orbital.total_supply_pointer().unwrap(), b"/totalsupply".to_vec());
    assert_eq!(orbital.execute(&mut store, &context(vec![101])).unwrap().data, 7u128.to_le_bytes().to_vec());
}

#[test]
fn orbital_answers_with_its_metadata() {
    let orbital = Orbital::default();
    let mut store = Store::new();
    let image = hex::decode(
        "89504e470d0a1a0a0000000d494844520000000100000001010300000025db56ca00000003504c5445000000a77a3dda0000000174524e530040e6d8660000000a4944415408d76360000000020001e221bc330000000049454e44ae426082",
    )
    .unwrap();
    assert_eq!(orbital.data(), image);
    assert_eq!(orbital.execute(&mut store, &context(vec![1000])).unwrap().data, image);
    assert_eq!(orbital.execute(&mut store, &context(vec![99])).unwrap().data, b"NFT".to_vec());
    assert_eq!(orbital.execute(&mut store, &context(vec![100])).unwrap().data, b"NFT".to_vec());
    assert_eq!(orbital.name(), "NFT");
    assert_eq!(orbital.symbol(), "NFT");
    assert_eq!(store.to_entries().len(), 0);
}

#[test]
fn orbital_refuses_what_it_does_not_know() {
    let orbital = Orbital::default();
    let mut store = Store::new();
    for inputs in [vec![], vec![77], vec![1], vec![1001]] {
        let error = orbital.execute(&mut store, &context(inputs)).unwrap_err();
        assert_eq!(error.kind, ErrorKind::UnknownOpcode);
    }
    assert_eq!(store.to_entries().len(), 0);
}

#[test]
fn orbital_hands_on_what_comes_in() {
    let orbital = Orbital::default();
    let mut store = Store::new();
    let incoming = vec![AlkaneTransfer { id: AlkaneId { block: 2, tx: 9 }, value: 5 }];
    let mut calling = context(vec![0]);
    calling.incoming_alkanes = AlkaneTransferParcel(incoming.clone());
    let response = orbital.execute(&mut store, &calling).unwrap();
    assert_eq!(
        response.alkanes.0,
        vec![incoming[0], AlkaneTransfer { id: myself(), value: 1 }]
    );
}
