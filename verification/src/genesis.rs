//! The fungible genesis token: a premine at initialization, then one block
//! reward for each block, up to a ceiling.
//!
//! A contract instance keeps three things in its store: the marker of every
//! block for which it has minted, the marker that it was initialized, and
//! the total supply counter. Once the counter has reached the ceiling, or
//! where an issue would carry it past the ceiling, the whole issue is
//! refused: nothing is ever credited in part. A mint does not ask whether
//! the instance was initialized; the initialization counts as the mint of
//! its block.

use crate::block::{block_hash, BlockHeader};
use crate::bytes::{encode_u128, le128, le32};
use crate::chain::ChainConfiguration;
use crate::error::{failed_for_block, ContractError, ErrorKind};
use crate::id::{AlkaneId, AlkaneTransfer};
use crate::layout::{
    genesis_keys,
    initialized_key,
    initialized_pointer,
    is_initialized,
    is_seen,
    lemma_contract_keys_apart,
    seen_key,
    supply_in,
    total_supply_key,
};
use crate::pointer::StoragePointer;
use crate::response::{
    copy_words,
    shift_or_err,
    CallResponse,
    Context,
    Outcome,
    OPCODE_INITIALIZE,
    OPCODE_MINT,
    OPCODE_NAME,
    OPCODE_SYMBOL,
    OPCODE_TOTAL_SUPPLY,
};
use crate::store::{Contents, key_set, Store};
use vstd::prelude::*;
use vstd::string::*;

verus! {

/// The store after a mint for the block of hash `hash` is noted: the block
/// is marked, unless it was marked before.
pub open spec fn mint_observed(m: Contents, hash: Seq<u8>) -> Result<Contents, ErrorKind> {
    if is_seen(m, hash) {
        Err(ErrorKind::AlreadyMinted)
    } else {
        Ok(m.insert(seen_key(hash), le32(1)))
    }
}

/// The store after the initialization in the block of hash `hash` is noted:
/// the block is marked as for a mint, and then the instance is marked as
/// initialized, unless it was before.
pub open spec fn initialization_observed(m: Contents, hash: Seq<u8>) -> Result<
    Contents,
    ErrorKind,
> {
    match mint_observed(m, hash) {
        Err(kind) => Err(kind),
        Ok(marked) => if is_initialized(marked) {
            Err(ErrorKind::AlreadyInitialized)
        } else {
            Ok(marked.insert(initialized_key(), le32(1)))
        },
    }
}

/// The store after `v` is added to the total supply counter. The addition
/// is refused where the counter has reached the ceiling already, where the
/// sum would leave the 128-bit range, and where the sum would pass the
/// ceiling.
pub open spec fn supply_increased(chain: ChainConfiguration, m: Contents, v: u128) -> Result<
    Contents,
    ErrorKind,
> {
    let supply = supply_in(m);
    if supply >= chain.total_supply {
        Err(ErrorKind::SupplyExceeded)
    } else if supply + v > u128::MAX {
        Err(ErrorKind::Overflow)
    } else if supply + v > chain.total_supply {
        Err(ErrorKind::SupplyExceeded)
    } else {
        Ok(m.insert(total_supply_key(), le128((supply + v) as u128)))
    }
}

/// A mint at `height` in the block of hash `hash` by the contract `myself`:
/// the store after it, and the transfer that goes out, which is the reward
/// in the contract's own asset.
pub open spec fn minted(
    chain: ChainConfiguration,
    m: Contents,
    height: u64,
    hash: Seq<u8>,
    myself: AlkaneId,
) -> Result<(Contents, AlkaneTransfer), ErrorKind> {
    match mint_observed(m, hash) {
        Err(kind) => Err(kind),
        Ok(marked) => {
            let reward = chain.spec_block_reward(height) as u128;
            match supply_increased(chain, marked, reward) {
                Err(kind) => Err(kind),
                Ok(after) => Ok((after, AlkaneTransfer { id: myself, value: reward })),
            }
        },
    }
}

/// The initialization at `height` in the block of hash `hash` of the
/// contract `myself`: the store after it, and the transfer that goes out,
/// which is the premine in the contract's own asset.
pub open spec fn initialized(
    chain: ChainConfiguration,
    m: Contents,
    height: u64,
    hash: Seq<u8>,
    myself: AlkaneId,
) -> Result<(Contents, AlkaneTransfer), ErrorKind> {
    match initialization_observed(m, hash) {
        Err(kind) => Err(kind),
        Ok(marked) => match chain.spec_premine(height) {
            None => Err(ErrorKind::Overflow),
            Some(premine) => match supply_increased(chain, marked, premine) {
                Err(kind) => Err(kind),
                Ok(after) => Ok((after, AlkaneTransfer { id: myself, value: premine })),
            },
        },
    }
}

/// What a call of the genesis contract does. The first input word is the
/// opcode; `hash` is the hash of the current block, or `None` where the
/// block could not be read, which matters only to the opcodes that issue.
pub open spec fn genesis_executed(
    chain: ChainConfiguration,
    m: Contents,
    myself: AlkaneId,
    incoming: Seq<AlkaneTransfer>,
    inputs: Seq<u128>,
    height: u64,
    hash: Option<Seq<u8>>,
) -> Result<Outcome, ErrorKind> {
    if inputs.len() == 0 {
        Err(ErrorKind::UnknownOpcode)
    } else if inputs[0] == OPCODE_INITIALIZE || inputs[0] == OPCODE_MINT {
        match hash {
            None => Err(ErrorKind::MalformedBlock),
            Some(hash) => {
                let issued = if inputs[0] == OPCODE_INITIALIZE {
                    initialized(chain, m, height, hash, myself)
                } else {
                    minted(chain, m, height, hash, myself)
                };
                match issued {
                    Err(kind) => Err(kind),
                    Ok((after, transfer)) => Ok(
                        Outcome {
                            store: after,
                            alkanes: incoming.push(transfer),
                            data: Seq::empty(),
                        },
                    ),
                }
            },
        }
    } else if inputs[0] == OPCODE_NAME || inputs[0] == OPCODE_SYMBOL {
        Ok(Outcome { store: m, alkanes: incoming, data: "DIESEL".spec_bytes() })
    } else if inputs[0] == OPCODE_TOTAL_SUPPLY {
        Ok(Outcome { store: m, alkanes: incoming, data: le128(supply_in(m)) })
    } else {
        Err(ErrorKind::UnknownOpcode)
    }
}

/// The hash that a caller hands over, if there is one.
pub open spec fn given_hash(hash: Option<&Vec<u8>>) -> Option<Seq<u8>> {
    match hash {
        Some(hash) => Some(hash@),
        None => None,
    }
}

/// The hash of the block that a caller hands over, if there is one.
pub open spec fn given_block_hash(block: Option<&BlockHeader>) -> Option<Seq<u8>> {
    match block {
        Some(block) => Some(block.spec_hash()),
        None => None,
    }
}

/// The hash that goes into the message of a failed call: that of the block
/// at hand, or nothing where there is none.
pub open spec fn hash_or_empty(hash: Option<Seq<u8>>) -> Seq<u8> {
    match hash {
        Some(hash) => hash,
        None => Seq::empty(),
    }
}

/// The genesis contract of a chain.
#[derive(Clone, Copy, Debug)]
pub struct GenesisAlkane {
    pub chain: ChainConfiguration,
}

impl Default for GenesisAlkane {
    /// The genesis contract of a local test chain.
    fn default() -> (genesis: GenesisAlkane)
        ensures
            genesis.chain == (ChainConfiguration {
                genesis_block: 0,
                halving_interval: 210_000,
                base_reward: 5_000_000_000,
                average_payout_from_genesis: 50_000_000,
                total_supply: 131_250_000_000_000,
            }),
    {
        GenesisAlkane { chain: ChainConfiguration::regtest() }
    }
}

impl GenesisAlkane {
    /// The genesis contract of the chain with the policy `chain`.
    pub fn new(chain: ChainConfiguration) -> (genesis: GenesisAlkane)
        ensures
            genesis.chain == chain,
    {
        GenesisAlkane { chain }
    }

    /// The name of the token.
    pub fn name(&self) -> (name: String)
        ensures
            name@ == "DIESEL"@,
    {
        String::from_str("DIESEL")
    }

    /// The symbol of the token.
    pub fn symbol(&self) -> (symbol: String)
        ensures
            symbol@ == "DIESEL"@,
    {
        String::from_str("DIESEL")
    }

    /// The pointer to the marker of the block of hash `hash`.
    pub fn seen_pointer(&self, hash: &Vec<u8>) -> (pointer: StoragePointer)
        ensures
            pointer@ == seen_key(hash@),
    {
        StoragePointer::from_keyword("/seen/").select(hash)
    }

    /// The hash of `block`.
    pub fn hash(&self, block: &BlockHeader) -> (hash: Vec<u8>)
        ensures
            hash@ == block.spec_hash(),
            hash@.len() == 32,
    {
        block_hash(block)
    }

    /// The pointer to the total supply counter.
    pub fn total_supply_pointer(&self) -> (pointer: StoragePointer)
        ensures
            pointer@ == total_supply_key(),
    {
        StoragePointer::from_keyword("/totalsupply")
    }

    /// The keys of the instance's state that matter to a call in the block
    /// of hash `hash`; `None` stands for a block that could not be read.
    pub fn storage_keys(&self, hash: Option<&Vec<u8>>) -> (keys: Vec<Vec<u8>>)
        ensures
            key_set(keys@) == genesis_keys(given_hash(hash)),
    {
        let mut keys: Vec<Vec<u8>> = Vec::new();
        keys.push(self.total_supply_pointer().unwrap());
        keys.push(initialized_pointer().unwrap());
        match hash {
            Some(hash) => {
                keys.push(self.seen_pointer(hash).unwrap());
                assert(key_set(keys@) =~= genesis_keys(Some(hash@))) by {
                    assert(keys@[0]@ == total_supply_key());
                    assert(keys@[1]@ == initialized_key());
                    assert(keys@[2]@ == seen_key(hash@));
                }
            },
            None => {
                assert(key_set(keys@) =~= genesis_keys(None)) by {
                    assert(keys@[0]@ == total_supply_key());
                    assert(keys@[1]@ == initialized_key());
                }
            },
        }
        keys
    }

    /// The total supply counter: how much was issued so far.
    pub fn total_supply(&self, store: &Store) -> (supply: u128)
        ensures
            supply == supply_in(store@),
    {
        self.total_supply_pointer().get_value_u128(store)
    }

    /// Sets the total supply counter to `v`.
    pub fn set_total_supply(&self, store: &mut Store, v: u128)
        ensures
            final(store)@ == old(store)@.insert(total_supply_key(), le128(v)),
    {
        self.total_supply_pointer().set_value_u128(store, v);
    }

    /// What the total supply counter becomes when `v` is added to it, where
    /// the addition is in order.
    fn supply_after(&self, store: &Store, v: u128) -> (result: Result<u128, ContractError>)
        ensures
            match supply_increased(self.chain, store@, v) {
                Ok(after) => result is Ok && after == store@.insert(
                    total_supply_key(),
                    le128(result->Ok_0),
                ) && result->Ok_0 == supply_in(store@) + v,
                Err(kind) => result is Err && result->Err_0.states(kind) && kind
                    != ErrorKind::AlreadyMinted,
            },
    {
        let supply = self.total_supply(store);
        if supply >= self.chain.total_supply() {
            return Err(ContractError::new(ErrorKind::SupplyExceeded));
        }
        match supply.checked_add(v) {
            None => Err(ContractError::new(ErrorKind::Overflow)),
            Some(sum) => {
                if sum > self.chain.total_supply() {
                    Err(ContractError::new(ErrorKind::SupplyExceeded))
                } else {
                    Ok(sum)
                }
            },
        }
    }

    /// Adds `v` to the total supply counter, unless the ceiling forbids it
    /// or the sum leaves the 128-bit range.
    pub fn increase_total_supply(&self, store: &mut Store, v: u128) -> (result: Result<
        (),
        ContractError,
    >)
        ensures
            match supply_increased(self.chain, old(store)@, v) {
                Ok(after) => result is Ok && final(store)@ == after,
                Err(kind) => result is Err && result->Err_0.states(kind) && final(store)@ == old(
                    store,
                )@,
            },
    {
        match self.supply_after(store, v) {
            Ok(sum) => {
                self.set_total_supply(store, sum);
                Ok(())
            },
            Err(error) => Err(error),
        }
    }

    /// Notes a mint for the block of hash `hash`: marks the block, or fails
    /// where the block was marked before.
    pub fn observe_mint_hashed(&self, store: &mut Store, hash: &Vec<u8>) -> (result: Result<
        (),
        ContractError,
    >)
        ensures
            match mint_observed(old(store)@, hash@) {
                Ok(after) => result is Ok && final(store)@ == after,
                Err(kind) => failed_for_block(result, kind, hash@) && final(store)@ == old(store)@,
            },
    {
        let pointer = self.seen_pointer(hash);
        if pointer.get(store).len() == 0 {
            pointer.set_value_u32(store, 1);
            Ok(())
        } else {
            Err(ContractError::already_minted(hash))
        }
    }

    /// Notes a mint for `block`: marks the block by its hash, or fails where
    /// it was marked before.
    pub fn observe_mint(&self, store: &mut Store, block: &BlockHeader) -> (result: Result<
        (),
        ContractError,
    >)
        ensures
            match mint_observed(old(store)@, block.spec_hash()) {
                Ok(after) => result is Ok && final(store)@ == after,
                Err(kind) => failed_for_block(result, kind, block.spec_hash()) && final(store)@
                    == old(store)@,
            },
    {
        let hash = self.hash(block);
        self.observe_mint_hashed(store, &hash)
    }

    /// Mints the reward of the block at `height` with hash `hash`: marks the
    /// block, adds the reward to the total supply counter, and returns the
    /// transfer of the reward in the contract's own asset. Where any of this
    /// is refused, nothing is written.
    pub fn mint_hashed(
        &self,
        store: &mut Store,
        context: &Context,
        height: u64,
        hash: &Vec<u8>,
    ) -> (result: Result<AlkaneTransfer, ContractError>)
        ensures
            match minted(self.chain, old(store)@, height, hash@, context.myself) {
                Ok((after, transfer)) => result == Ok::<AlkaneTransfer, ContractError>(transfer)
                    && final(store)@ == after,
                Err(kind) => failed_for_block(result, kind, hash@) && final(store)@ == old(store)@,
            },
    {
        let pointer = self.seen_pointer(hash);
        if pointer.get(store).len() != 0 {
            return Err(ContractError::already_minted(hash));
        }
        let value = self.chain.current_block_reward(height);
        proof {
            lemma_contract_keys_apart(hash@, hash@);
        }
        let sum = match self.supply_after(store, value) {
            Ok(sum) => sum,
            Err(error) => {
                return Err(error);
            },
        };
        pointer.set_value_u32(store, 1);
        self.set_total_supply(store, sum);
        Ok(AlkaneTransfer { id: context.myself, value })
    }

    /// Mints the reward of `block`, the block at `height`.
    pub fn mint(
        &self,
        store: &mut Store,
        context: &Context,
        height: u64,
        block: &BlockHeader,
    ) -> (result: Result<AlkaneTransfer, ContractError>)
        ensures
            match minted(self.chain, old(store)@, height, block.spec_hash(), context.myself) {
                Ok((after, transfer)) => result == Ok::<AlkaneTransfer, ContractError>(transfer)
                    && final(store)@ == after,
                Err(kind) => failed_for_block(result, kind, block.spec_hash()) && final(store)@
                    == old(store)@,
            },
    {
        let hash = self.hash(block);
        self.mint_hashed(store, context, height, &hash)
    }

    /// Notes the initialization in the block of hash `hash`: marks the block
    /// and the instance, or fails, and writes nothing, where either was
    /// marked before.
    pub fn observe_initialization_hashed(&self, store: &mut Store, hash: &Vec<u8>) -> (result:
        Result<(), ContractError>)
        ensures
            match initialization_observed(old(store)@, hash@) {
                Ok(after) => result is Ok && final(store)@ == after,
                Err(kind) => failed_for_block(result, kind, hash@) && final(store)@ == old(store)@,
            },
    {
        let seen = self.seen_pointer(hash);
        if seen.get(store).len() != 0 {
            return Err(ContractError::already_minted(hash));
        }
        proof {
            lemma_contract_keys_apart(hash@, hash@);
        }
        let flag = initialized_pointer();
        if flag.get(store).len() != 0 {
            return Err(ContractError::new(ErrorKind::AlreadyInitialized));
        }
        seen.set_value_u32(store, 1);
        flag.set_value_u32(store, 1);
        Ok(())
    }

    /// Notes the initialization in `block`.
    pub fn observe_initialization(&self, store: &mut Store, block: &BlockHeader) -> (result:
        Result<(), ContractError>)
        ensures
            match initialization_observed(old(store)@, block.spec_hash()) {
                Ok(after) => result is Ok && final(store)@ == after,
                Err(kind) => failed_for_block(result, kind, block.spec_hash()) && final(store)@
                    == old(store)@,
            },
    {
        let hash = self.hash(block);
        self.observe_initialization_hashed(store, &hash)
    }

    /// Initializes the instance in the block at `height` with hash `hash`:
    /// marks the block and the instance, adds the premine to the total
    /// supply counter, and returns the transfer of the premine in the
    /// contract's own asset. Where any of this is refused, nothing is
    /// written.
    pub fn initialize_hashed(
        &self,
        store: &mut Store,
        context: &Context,
        height: u64,
        hash: &Vec<u8>,
    ) -> (result: Result<AlkaneTransfer, ContractError>)
        ensures
            match initialized(self.chain, old(store)@, height, hash@, context.myself) {
                Ok((after, transfer)) => result == Ok::<AlkaneTransfer, ContractError>(transfer)
                    && final(store)@ == after,
                Err(kind) => failed_for_block(result, kind, hash@) && final(store)@ == old(store)@,
            },
    {
        let seen = self.seen_pointer(hash);
        if seen.get(store).len() != 0 {
            return Err(ContractError::already_minted(hash));
        }
        proof {
            lemma_contract_keys_apart(hash@, hash@);
        }
        let flag = initialized_pointer();
        if flag.get(store).len() != 0 {
            return Err(ContractError::new(ErrorKind::AlreadyInitialized));
        }
        let premine = match self.chain.premine(height) {
            Ok(premine) => premine,
            Err(error) => {
                return Err(error);
            },
        };
        let sum = match self.supply_after(store, premine) {
            Ok(sum) => sum,
            Err(error) => {
                return Err(error);
            },
        };
        seen.set_value_u32(store, 1);
        flag.set_value_u32(store, 1);
        self.set_total_supply(store, sum);
        Ok(AlkaneTransfer { id: context.myself, value: premine })
    }

    /// Handles one call, given the hash of the current block. The first
    /// input word is the opcode: 0 initializes, 77 mints, 99 and 100 answer
    /// with the name and the symbol, 101 with the total supply counter as
    /// sixteen little-endian bytes. The answer hands on the transfers that
    /// came in, and after them what the call issued. A call that fails
    /// writes nothing.
    pub fn execute_hashed(
        &self,
        store: &mut Store,
        context: &Context,
        height: u64,
        hash: Option<&Vec<u8>>,
    ) -> (result: Result<CallResponse, ContractError>)
        ensures
            match genesis_executed(
                self.chain,
                old(store)@,
                context.myself,
                context.incoming_alkanes@,
                context.inputs@,
                height,
                given_hash(hash),
            ) {
                Ok(outcome) => result is Ok && outcome.is_met_by(final(store)@, result->Ok_0),
                Err(kind) => failed_for_block(result, kind, hash_or_empty(given_hash(hash)))
                    && final(store)@ == old(store)@,
            },
    {
        let mut inputs = copy_words(&context.inputs);
        let opcode: u128 = match shift_or_err(&mut inputs) {
            Ok(opcode) => opcode,
            Err(error) => {
                return Err(error);
            },
        };
        let mut response = CallResponse::forward(&context.incoming_alkanes);
        if opcode == OPCODE_INITIALIZE || opcode == OPCODE_MINT {
            let hash = match hash {
                Some(hash) => hash,
                None => {
                    return Err(ContractError::new(ErrorKind::MalformedBlock));
                },
            };
            let issued = if opcode == OPCODE_INITIALIZE {
                self.initialize_hashed(store, context, height, hash)
            } else {
                self.mint_hashed(store, context, height, hash)
            };
            match issued {
                Ok(transfer) => {
                    response.alkanes.0.push(transfer);
                },
                Err(error) => {
                    return Err(error);
                },
            }
        } else if opcode == OPCODE_NAME {
            response.data = self.name().as_str().as_bytes_vec();
        } else if opcode == OPCODE_SYMBOL {
            response.data = self.symbol().as_str().as_bytes_vec();
        } else if opcode == OPCODE_TOTAL_SUPPLY {
            response.data = encode_u128(self.total_supply(store));
        } else {
            return Err(ContractError::new(ErrorKind::UnknownOpcode));
        }
        Ok(response)
    }

    /// Handles one call in the block `block`; `None` stands for a block that
    /// could not be read.
    pub fn execute(
        &self,
        store: &mut Store,
        context: &Context,
        height: u64,
        block: Option<&BlockHeader>,
    ) -> (result: Result<CallResponse, ContractError>)
        ensures
            match genesis_executed(
                self.chain,
                old(store)@,
                context.myself,
                context.incoming_alkanes@,
                context.inputs@,
                height,
                given_block_hash(block),
            ) {
                Ok(outcome) => result is Ok && outcome.is_met_by(final(store)@, result->Ok_0),
                Err(kind) => failed_for_block(
                    result,
                    kind,
                    hash_or_empty(given_block_hash(block)),
                ) && final(store)@ == old(store)@,
            },
    {
        match block {
            Some(block) => {
                let hash = self.hash(block);
                self.execute_hashed(store, context, height, Some(&hash))
            },
            None => self.execute_hashed(store, context, height, None),
        }
    }
}

} // verus!
