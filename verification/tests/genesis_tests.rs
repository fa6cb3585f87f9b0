use alkanes_ledger::block::BlockHeader;
use alkanes_ledger::chain::ChainConfiguration;
use alkanes_ledger::error::{ContractError, ErrorKind};
use alkanes_ledger::genesis::GenesisAlkane;
use alkanes_ledger::id::{AlkaneId, AlkaneTransfer, AlkaneTransferParcel};
use alkanes_ledger::response::{shift_or_err, CallResponse, Context};
use alkanes_ledger::store::Store;

fn myself() -> AlkaneId {
    AlkaneId { block: 2, tx: 0 }
}

fn context(inputs: Vec<u128>) -> Context {
    Context {
        myself: myself(),
        caller: AlkaneId { block: 0, tx: 0 },
        vout: 0,
        incoming_alkanes: AlkaneTransferParcel(vec![]),
        inputs,
    }
}

fn block(nonce: u32) -> BlockHeader {
    BlockHeader {
        version: 1,
        prev_blockhash: [0; 32],
        merkle_root: [7; 32],
        time: 1_700_000_000,
        bits: 0x1d00ffff,
        nonce,
    }
}

fn array(text: &str) -> [u8; 32] {
    hex::decode(text).unwrap().try_into().unwrap()
}

fn first_block_of_bitcoin() -> BlockHeader {
    BlockHeader {
        version: 1,
        prev_blockhash: [0; 32],
        merkle_root: array("3ba3edfd7a7b12b27ac72c3e67768f617fc81bc3888a51323a9fb8aa4b1e5e4a"),
        time: 1231006505,
        bits: 0x1d00ffff,
        nonce: 2083236893,
    }
}

/// A ceiling of 100, a premine of 40 at height 1, and a flat reward of 10.
fn small_chain() -> ChainConfiguration {
    ChainConfiguration {
        genesis_block: 0,
        halving_interval: 0,
        base_reward: 10,
        average_payout_from_genesis: 40,
        total_supply: 100,
    }
}

fn call(
    genesis: &GenesisAlkane,
    store: &mut Store,
    opcode: u128,
    header: &BlockHeader,
) -> Result<CallResponse, ContractError> {
    genesis.execute(store, &context(vec![opcode]), 1, Some(header))
}

fn supply(genesis: &GenesisAlkane, store: &Store) -> u128 {
    genesis.total_supply(store)
}

#[test]
fn block_hash_is_the_double_sha256_of_the_header() {
    let genesis = GenesisAlkane::default();
    assert_eq!(
        hex::encode(genesis.hash(&first_block_of_bitcoin())),
        "6fe28c0ab6f1b372c1a6a246ae63f74f931e8365e15a089c68d6190000000000"
    );
    assert_ne!(genesis.hash(&block(1)), genesis.hash(&block(2)));
    assert_eq!(genesis.hash(&block(1)), genesis.hash(&block(1)));
    assert_eq!(genesis.hash(&block(1)).len(), 32);
}

#[test]
fn supply_scenario_with_a_ceiling_of_100() {
    let genesis = GenesisAlkane::new(small_chain());
    let mut store = Store::new();
    let response = call(&genesis, &mut store, 0, &block(0)).unwrap();
    assert_eq!(response.alkanes.0, vec![AlkaneTransfer { id: myself(), value: 40 }]);
    assert_eq!(supply(&genesis, &store), 40);

    let response = call(&genesis, &mut store, 77, &block(1)).unwrap();
    assert_eq!(response.alkanes.0, vec![AlkaneTransfer { id: myself(), value: 10 }]);
    assert_eq!(supply(&genesis, &store), 50);

    let error = call(&genesis, &mut store, 77, &block(1)).unwrap_err();
    assert_eq!(error.kind, ErrorKind::AlreadyMinted);
    assert_eq!(supply(&genesis, &store), 50);

    call(&genesis, &mut store, 77, &block(2)).unwrap();
    assert_eq!(supply(&genesis, &store), 60);

    for (nonce, expected) in [(3, 70), (4, 80), (5, 90), (6, 100)] {
        call(&genesis, &mut store, 77, &block(nonce)).unwrap();
        assert_eq!(supply(&genesis, &store), expected);
    }
    let before = store.to_entries();
    let error = call(&genesis, &mut store, 77, &block(7)).unwrap_err();
    assert_eq!(error.kind, ErrorKind::SupplyExceeded);
    assert_eq!(error.message, "total supply has been reached");
    assert_eq!(supply(&genesis, &store), 100);
    assert_eq!(store.to_entries(), before);
    call(&genesis, &mut store, 77, &block(8)).unwrap_err();
    assert_eq!(supply(&genesis, &store), 100);
}

#[test]
fn a_mint_that_would_pass_the_ceiling_is_refused_whole() {
    let genesis = GenesisAlkane::new(small_chain());
    let mut store = Store::new();
    genesis.set_total_supply(&mut store, 95);
    let before = store.to_entries();
    let error = call(&genesis, &mut store, 77, &block(1)).unwrap_err();
    assert_eq!(error.kind, ErrorKind::SupplyExceeded);
    assert_eq!(store.to_entries(), before);
    genesis.set_total_supply(&mut store, 90);
    call(&genesis, &mut store, 77, &block(1)).unwrap();
    assert_eq!(supply(&genesis, &store), 100);
}

#[test]
fn a_premine_over_the_ceiling_is_refused() {
    let genesis = GenesisAlkane::new(small_chain());
    let mut store = Store::new();
    let error = genesis.execute(&mut store, &context(vec![0]), 3, Some(&block(0))).unwrap_err();
    assert_eq!(error.kind, ErrorKind::SupplyExceeded);
    assert_eq!(store.to_entries().len(), 0);
    genesis.execute(&mut store, &context(vec![0]), 2, Some(&block(0))).unwrap();
    assert_eq!(supply(&genesis, &store), 80);
}

#[test]
fn second_mint_for_a_block_names_the_block() {
    let genesis = GenesisAlkane::new(small_chain());
    let mut store = Store::new();
    let header = block(1);
    let hash = genesis.hash(&header);
    genesis.observe_mint(&mut store, &header).unwrap();
    let error = genesis.observe_mint(&mut store, &header).unwrap_err();
    assert_eq!(error.kind, ErrorKind::AlreadyMinted);
    assert_eq!(error.message, format!("already minted for block {}", hex::encode(&hash)));
    assert_eq!(error.message.len(), "already minted for block ".len() + 64);
    let error = genesis.observe_mint_hashed(&mut store, &vec![0x00, 0x1f, 0xa0, 0xff]).err();
    assert!(error.is_none());
    let error = genesis.observe_mint_hashed(&mut store, &vec![0x00, 0x1f, 0xa0, 0xff]).unwrap_err();
    assert_eq!(error.message, "already minted for block 001fa0ff");
}

#[test]
fn block_marker_layout_is_byte_exact() {
    let genesis = GenesisAlkane::new(small_chain());
    let mut store = Store::new();
    let header = block(1);
    let mut key = b"/seen/".to_vec();
    key.extend(genesis.hash(&header));
    assert_eq!(genesis.seen_pointer(&genesis.hash(&header)).unwrap(), key);
    call(&genesis, &mut store, 0, &header).unwrap();
    assert_eq!(store.get(&key), vec![1, 0, 0, 0]);
    assert_eq!(store.get(&b"/initialized".to_vec()), vec![1, 0, 0, 0]);
    let mut counter = vec![0u8; 16];
    counter[0] = 40;
    assert_eq!(store.get(&b"/totalsupply".to_vec()), counter);
    assert_eq!(genesis.total_supply_pointer().unwrap(), b"/totalsupply".to_vec());
    assert_eq!(store.to_entries().len(), 3);
}

#[test]
fn initialization_happens_once() {
    let genesis = GenesisAlkane::new(small_chain());
    let mut store = Store::new();
    call(&genesis, &mut store, 0, &block(0)).unwrap();
    let before = store.to_entries();
    let error = call(&genesis, &mut store, 0, &block(1)).unwrap_err();
    assert_eq!(error.kind, ErrorKind::AlreadyInitialized);
    assert_eq!(error.message, "already initialized");
    assert_eq!(store.to_entries(), before);
    let error = call(&genesis, &mut store, 0, &block(0)).unwrap_err();
    assert_eq!(error.kind, ErrorKind::AlreadyMinted);
    call(&genesis, &mut store, 77, &block(1)).unwrap();
    let error = call(&genesis, &mut store, 0, &block(2)).unwrap_err();
    assert_eq!(error.kind, ErrorKind::AlreadyInitialized);
    assert_eq!(supply(&genesis, &store), 50);
}

#[test]
fn observing_an_initialization_marks_block_and_instance() {
    let genesis = GenesisAlkane::new(small_chain());
    let mut store = Store::new();
    genesis.observe_initialization(&mut store, &block(0)).unwrap();
    assert_eq!(store.to_entries().len(), 2);
    assert_eq!(
        genesis.observe_initialization(&mut store, &block(0)).unwrap_err().kind,
        ErrorKind::AlreadyMinted
    );
    let before = store.to_entries();
    assert_eq!(
        genesis.observe_initialization(&mut store, &block(1)).unwrap_err().kind,
        ErrorKind::AlreadyInitialized
    );
    assert_eq!(store.to_entries(), before);
    assert_eq!(
        genesis.observe_initialization_hashed(&mut store, &vec![1, 2, 3]).unwrap_err().kind,
        ErrorKind::AlreadyInitialized
    );
}

#[test]
fn mint_grants_the_reward_to_the_contract_itself() {
    let genesis = GenesisAlkane::default();
    let mut store = Store::new();
    let transfer = genesis.mint(&mut store, &context(vec![77]), 210_000, &block(1)).unwrap();
    assert_eq!(transfer, AlkaneTransfer { id: myself(), value: 2_500_000_000 });
    assert_eq!(supply(&genesis, &store), 2_500_000_000);
    let transfer = genesis.mint_hashed(&mut store, &context(vec![]), 0, &vec![9; 32]).unwrap();
    assert_eq!(transfer.value, 5_000_000_000);
    assert_eq!(supply(&genesis, &store), 7_500_000_000);
    assert_eq!(
        genesis.mint(&mut store, &context(vec![77]), 5, &block(1)).unwrap_err().kind,
        ErrorKind::AlreadyMinted
    );
    let transfer = genesis.initialize_hashed(&mut store, &context(vec![]), 3, &vec![8; 32]).unwrap();
    assert_eq!(transfer, AlkaneTransfer { id: myself(), value: 150_000_000 });
    assert_eq!(supply(&genesis, &store), 7_650_000_000);
}

#[test]
fn increase_of_the_supply_is_checked() {
    let chain = ChainConfiguration { total_supply: u128::MAX, ..small_chain() };
    let genesis = GenesisAlkane::new(chain);
    let mut store = Store::new();
    genesis.increase_total_supply(&mut store, u128::MAX - 1).unwrap();
    assert_eq!(supply(&genesis, &store), u128::MAX - 1);
    let error = genesis.increase_total_supply(&mut store, 2).unwrap_err();
    assert_eq!(error.kind, ErrorKind::Overflow);
    assert_eq!(supply(&genesis, &store), u128::MAX - 1);
    genesis.increase_total_supply(&mut store, 1).unwrap();
    assert_eq!(genesis.increase_total_supply(&mut store, 0).unwrap_err().kind, ErrorKind::SupplyExceeded);

    let genesis = GenesisAlkane::new(small_chain());
    let mut store = Store::new();
    assert_eq!(genesis.increase_total_supply(&mut store, 101).unwrap_err().kind, ErrorKind::SupplyExceeded);
    genesis.increase_total_supply(&mut store, 100).unwrap();
    assert_eq!(genesis.increase_total_supply(&mut store, 1).unwrap_err().kind, ErrorKind::SupplyExceeded);
    assert_eq!(supply(&genesis, &store), 100);
}

#[test]
fn reward_halves_at_each_interval() {
    let chain = ChainConfiguration::regtest();
    assert_eq!(chain.block_reward(0), 5_000_000_000);
    assert_eq!(chain.block_reward(209_999), 5_000_000_000);
    assert_eq!(chain.block_reward(210_000), 2_500_000_000);
    assert_eq!(chain.block_reward(419_999), 2_500_000_000);
    assert_eq!(chain.block_reward(420_000), 1_250_000_000);
    assert_eq!(chain.block_reward(9 * 210_000), 9_765_625);
    assert_eq!(chain.block_reward(10 * 210_000), 4_882_812);
    assert_eq!(chain.block_reward(32 * 210_000), 1);
    assert_eq!(chain.block_reward(33 * 210_000), 0);
    assert_eq!(chain.block_reward(127 * 210_000), 0);
    assert_eq!(chain.block_reward(128 * 210_000), 0);
    assert_eq!(chain.block_reward(u64::MAX), 0);
    assert_eq!(chain.current_block_reward(210_000), 2_500_000_000);
    let wide = ChainConfiguration { base_reward: u128::MAX, halving_interval: 1, ..chain };
    assert_eq!(wide.block_reward(127), 1);
    assert_eq!(wide.block_reward(128), 0);
    assert_eq!(wide.block_reward(1), u128::MAX / 2);
}

#[test]
fn reward_of_a_flat_schedule_never_changes() {
    let chain = ChainConfiguration::dogecoin();
    assert_eq!(chain.block_reward(0), 1_000_000_000_000);
    assert_eq!(chain.block_reward(u64::MAX), 1_000_000_000_000);
    assert_eq!(ChainConfiguration::luckycoin().block_reward(12_345_678), 1_000_000_000);
}

#[test]
fn policies_of_the_chains() {
    let mainnet = ChainConfiguration::mainnet();
    assert_eq!(mainnet.genesis_block(), 840_000);
    assert_eq!(mainnet.average_payout_from_genesis(), 312_500_000);
    assert_eq!(mainnet.total_supply(), 131_250_000_000_000);
    assert_eq!(mainnet.block_reward(840_000), 312_500_000);
    assert_eq!(ChainConfiguration::regtest().genesis_block(), 0);
    assert_eq!(ChainConfiguration::regtest().average_payout_from_genesis(), 50_000_000);
    assert_eq!(ChainConfiguration::dogecoin().genesis_block(), 4_000_000);
    assert_eq!(ChainConfiguration::dogecoin().total_supply(), 4_000_000_000_000_000_000);
    assert_eq!(ChainConfiguration::fractal().block_reward(2_100_000), 1_250_000_000);
    assert_eq!(ChainConfiguration::fractal().total_supply(), 21_000_000_000_000_000);
    assert_eq!(ChainConfiguration::bellscoin(), ChainConfiguration::luckycoin());
    assert_eq!(ChainConfiguration::luckycoin().total_supply(), 2_000_000_000_000_000);
    assert_eq!(GenesisAlkane::default().chain, ChainConfiguration::regtest());
}

#[test]
fn premine_counts_the_blocks_since_genesis() {
    let mainnet = ChainConfiguration::mainnet();
    assert_eq!(mainnet.premine(840_000).unwrap(), 0);
    assert_eq!(mainnet.premine(840_001).unwrap(), 312_500_000);
    assert_eq!(mainnet.premine(880_000).unwrap(), 12_500_000_000_000);
    assert_eq!(mainnet.premine(839_999).unwrap_err().kind, ErrorKind::Overflow);
    let wide = ChainConfiguration { average_payout_from_genesis: u128::MAX / 2 + 1, ..small_chain() };
    assert_eq!(wide.premine(1).unwrap(), u128::MAX / 2 + 1);
    assert_eq!(wide.premine(2).unwrap_err().kind, ErrorKind::Overflow);
}

#[test]
fn a_failed_premine_leaves_the_instance_uninitialized() {
    let genesis = GenesisAlkane::new(ChainConfiguration::mainnet());
    let mut store = Store::new();
    let error = genesis.execute(&mut store, &context(vec![0]), 100, Some(&block(0))).unwrap_err();
    assert_eq!(error.kind, ErrorKind::Overflow);
    assert_eq!(store.to_entries().len(), 0);
    genesis.execute(&mut store, &context(vec![0]), 840_002, Some(&block(0))).unwrap();
    assert_eq!(supply(&genesis, &store), 625_000_000);
}

#[test]
fn metadata_opcodes_answer_in_any_state() {
    let genesis = GenesisAlkane::new(small_chain());
    let mut store = Store::new();
    let header = block(0);
    assert_eq!(call(&genesis, &mut store, 99, &header).unwrap().data, b"DIESEL".to_vec());
    assert_eq!(call(&genesis, &mut store, 100, &header).unwrap().data, b"DIESEL".to_vec());
    assert_eq!(call(&genesis, &mut store, 101, &header).unwrap().data, vec![0u8; 16]);
    assert_eq!(store.to_entries().len(), 0);
    call(&genesis, &mut store, 0, &header).unwrap();
    let before = store.to_entries();
    let answer = genesis.execute(&mut store, &context(vec![101, 5, 6]), 1, None).unwrap();
    assert_eq!(answer.data, 40u128.to_le_bytes().to_vec());
    assert!(answer.alkanes.0.is_empty());
    assert_eq!(genesis.execute(&mut store, &context(vec![99]), 1, None).unwrap().data, b"DIESEL".to_vec());
    assert_eq!(store.to_entries(), before);
    assert_eq!(genesis.name(), "DIESEL");
    assert_eq!(genesis.symbol(), "DIESEL");
}

#[test]
fn unknown_opcodes_and_unreadable_blocks_fail() {
    let genesis = GenesisAlkane::new(small_chain());
    let mut store = Store::new();
    for opcode in [1, 76, 78, 98, 102, 1000, u128::MAX] {
        let error = call(&genesis, &mut store, opcode, &block(0)).unwrap_err();
        assert_eq!(error.kind, ErrorKind::UnknownOpcode);
        assert_eq!(error.message, "unrecognized opcode");
    }
    let error = genesis.execute(&mut store, &context(vec![]), 1, Some(&block(0))).unwrap_err();
    assert_eq!(error.kind, ErrorKind::UnknownOpcode);
    for opcode in [0, 77] {
        let error = genesis.execute(&mut store, &context(vec![opcode]), 1, None).unwrap_err();
        assert_eq!(error.kind, ErrorKind::MalformedBlock);
        assert_eq!(error.message, "malformed block");
    }
    assert_eq!(
        genesis.execute_hashed(&mut store, &context(vec![77]), 1, None).unwrap_err().kind,
        ErrorKind::MalformedBlock
    );
    assert_eq!(store.to_entries().len(), 0);
}

#[test]
fn incoming_transfers_are_handed_on() {
    let genesis = GenesisAlkane::new(small_chain());
    let mut store = Store::new();
    let incoming = vec![
        AlkaneTransfer { id: AlkaneId { block: 2, tx: 5 }, value: 3 },
        AlkaneTransfer { id: AlkaneId { block: 2, tx: 6 }, value: 4 },
    ];
    let mut calling = context(vec![77]);
    calling.incoming_alkanes = AlkaneTransferParcel(incoming.clone());
    let response = genesis.execute_hashed(&mut store, &calling, 1, Some(&vec![1; 32])).unwrap();
    let mut expected = incoming.clone();
    expected.push(AlkaneTransfer { id: myself(), value: 10 });
    assert_eq!(response.alkanes.0, expected);
    assert!(response.data.is_empty());
    calling.inputs = vec![99];
    let response = genesis.execute_hashed(&mut store, &calling, 1, None).unwrap();
    assert_eq!(response.alkanes.0, incoming);
    let forwarded = CallResponse::forward(&calling.incoming_alkanes);
    assert_eq!(forwarded.alkanes.0, incoming);
    assert!(forwarded.data.is_empty());
}

#[test]
fn first_input_word_is_shifted_off() {
    let mut inputs = vec![77, 1, 2];
    assert_eq!(shift_or_err(&mut inputs).unwrap(), 77);
    assert_eq!(inputs, vec![1, 2]);
    let mut inputs: Vec<u128> = vec![];
    assert_eq!(shift_or_err(&mut inputs).unwrap_err().kind, ErrorKind::UnknownOpcode);
    assert!(inputs.is_empty());
}
