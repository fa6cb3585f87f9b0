use alkanes_ledger::store::Store;

#[test]
fn a_new_store_reads_empty() {
    let store = Store::new();
    assert_eq!(store.get(&b"/totalsupply".to_vec()), Vec::<u8>::new());
}

#[test]
fn a_write_is_read_back_and_replaces() {
    let mut store = Store::new();
    store.set(vec![1, 2], vec![3]);
    store.set(vec![1], vec![4]);
    store.set(vec![1, 2], vec![5, 6]);
    assert_eq!(store.get(&vec![1, 2]), vec![5, 6]);
    assert_eq!(store.get(&vec![1]), vec![4]);
    assert_eq!(store.get(&vec![2]), Vec::<u8>::new());
    assert_eq!(store.to_entries().len(), 2);
}
