//! The non-fungible orbital token: a supply of exactly one unit, issued once.

use crate::bytes::{encode_u128, le128, le32};
use crate::error::{ContractError, ErrorKind};
use crate::id::{AlkaneId, AlkaneTransfer};
use crate::layout::{
    initialized_key,
    initialized_pointer,
    is_initialized,
    orbital_keys,
    supply_in,
    total_supply_key,
};
use crate::pointer::StoragePointer;
use crate::response::{
    copy_words,
    shift_or_err,
    CallResponse,
    Context,
    Outcome,
    OPCODE_DATA,
    OPCODE_INITIALIZE,
    OPCODE_NAME,
    OPCODE_SYMBOL,
    OPCODE_TOTAL_SUPPLY,
};
use crate::store::{Contents, key_set, Store};
use vstd::prelude::*;
use vstd::string::*;

verus! {

/// The metadata payload of the token: a PNG image of one pixel.
pub open spec fn orbital_data() -> Seq<u8> {
    seq![
        0x89, 0x50, 0x4e, 0x47, 0x0d, 0x0a, 0x1a, 0x0a, 0x00, 0x00, 0x00, 0x0d,
        0x49, 0x48, 0x44, 0x52, 0x00, 0x00, 0x00, 0x01, 0x00, 0x00, 0x00, 0x01,
        0x01, 0x03, 0x00, 0x00, 0x00, 0x25, 0xdb, 0x56, 0xca, 0x00, 0x00, 0x00,
        0x03, 0x50, 0x4c, 0x54, 0x45, 0x00, 0x00, 0x00, 0xa7, 0x7a, 0x3d, 0xda,
        0x00, 0x00, 0x00, 0x01, 0x74, 0x52, 0x4e, 0x53, 0x00, 0x40, 0xe6, 0xd8,
        0x66, 0x00, 0x00, 0x00, 0x0a, 0x49, 0x44, 0x41, 0x54, 0x08, 0xd7, 0x63,
        0x60, 0x00, 0x00, 0x00, 0x02, 0x00, 0x01, 0xe2, 0x21, 0xbc, 0x33, 0x00,
        0x00, 0x00, 0x00, 0x49, 0x45, 0x4e, 0x44, 0xae, 0x42, 0x60, 0x82,
    ]
}

/// The store after the initialization is noted: the instance is marked as
/// initialized, unless it was before.
pub open spec fn orbital_initialization_observed(m: Contents) -> Result<Contents, ErrorKind> {
    if is_initialized(m) {
        Err(ErrorKind::AlreadyInitialized)
    } else {
        Ok(m.insert(initialized_key(), le32(1)))
    }
}

/// What a call of the orbital contract does. The first input word is the
/// opcode.
pub open spec fn orbital_executed(
    m: Contents,
    myself: AlkaneId,
    incoming: Seq<AlkaneTransfer>,
    inputs: Seq<u128>,
) -> Result<Outcome, ErrorKind> {
    if inputs.len() == 0 {
        Err(ErrorKind::UnknownOpcode)
    } else if inputs[0] == OPCODE_INITIALIZE {
        match orbital_initialization_observed(m) {
            Err(kind) => Err(kind),
            Ok(marked) => Ok(
                Outcome {
                    store: marked.insert(total_supply_key(), le128(1)),
                    alkanes: incoming.push(AlkaneTransfer { id: myself, value: 1 }),
                    data: Seq::empty(),
                },
            ),
        }
    } else if inputs[0] == OPCODE_NAME || inputs[0] == OPCODE_SYMBOL {
        Ok(Outcome { store: m, alkanes: incoming, data: "NFT".spec_bytes() })
    } else if inputs[0] == OPCODE_TOTAL_SUPPLY {
        Ok(Outcome { store: m, alkanes: incoming, data: le128(supply_in(m)) })
    } else if inputs[0] == OPCODE_DATA {
        Ok(Outcome { store: m, alkanes: incoming, data: orbital_data() })
    } else {
        Err(ErrorKind::UnknownOpcode)
    }
}

/// The orbital contract. It has no settings: its state is in the store
/// alone.
#[derive(Clone, Copy, Debug)]
pub struct Orbital(pub ());

impl Default for Orbital {
    /// The orbital contract.
    fn default() -> (orbital: Orbital)
        ensures
            orbital == Orbital(()),
    {
        Orbital(())
    }
}

impl Orbital {
    /// The name of the token.
    pub fn name(&self) -> (name: String)
        ensures
            name@ == "NFT"@,
    {
        String::from_str("NFT")
    }

    /// The symbol of the token.
    pub fn symbol(&self) -> (symbol: String)
        ensures
            symbol@ == "NFT"@,
    {
        String::from_str("NFT")
    }

    /// The pointer to the total supply counter.
    pub fn total_supply_pointer(&self) -> (pointer: StoragePointer)
        ensures
            pointer@ == total_supply_key(),
    {
        StoragePointer::from_keyword("/totalsupply")
    }

    /// The keys of the instance's state.
    pub fn storage_keys(&self) -> (keys: Vec<Vec<u8>>)
        ensures
            key_set(keys@) == orbital_keys(),
    {
        let mut keys: Vec<Vec<u8>> = Vec::new();
        keys.push(self.total_supply_pointer().unwrap());
        keys.push(initialized_pointer().unwrap());
        assert(key_set(keys@) =~= orbital_keys()) by {
            assert(keys@[0]@ == total_supply_key());
            assert(keys@[1]@ == initialized_key());
        }
        keys
    }

    /// The total supply counter.
    pub fn total_supply(&self, store: &Store) -> (supply: u128)
        ensures
            supply == supply_in(store@),
    {
        self.total_supply_pointer().get_value_u128(store)
    }

    /// Sets the total supply counter to `v`.
    pub fn set_total_supply(&self, store: &mut Store, v: u128)
        ensures
            final(store)@ == old(store)@.insert(total_supply_key(), le128(v)),
    {
        self.total_supply_pointer().set_value_u128(store, v);
    }

    /// Notes the initialization: marks the instance, or fails where it was
    /// marked before.
    pub fn observe_initialization(&self, store: &mut Store) -> (result: Result<(), ContractError>)
        ensures
            match orbital_initialization_observed(old(store)@) {
                Ok(after) => result is Ok && final(store)@ == after,
                Err(kind) => result is Err && result->Err_0.states(kind) && final(store)@ == old(
                    store,
                )@,
            },
    {
        let flag = initialized_pointer();
        if flag.get(store).len() == 0 {
            flag.set_value_u32(store, 1);
            Ok(())
        } else {
            Err(ContractError::new(ErrorKind::AlreadyInitialized))
        }
    }

    /// The metadata payload of the token.
    pub fn data(&self) -> (data: Vec<u8>)
        ensures
            data@ == orbital_data(),
    {
        let data: Vec<u8> = vec![
        0x89, 0x50, 0x4e, 0x47, 0x0d, 0x0a, 0x1a, 0x0a, 0x00, 0x00, 0x00, 0x0d,
        0x49, 0x48, 0x44, 0x52, 0x00, 0x00, 0x00, 0x01, 0x00, 0x00, 0x00, 0x01,
        0x01, 0x03, 0x00, 0x00, 0x00, 0x25, 0xdb, 0x56, 0xca, 0x00, 0x00, 0x00,
        0x03, 0x50, 0x4c, 0x54, 0x45, 0x00, 0x00, 0x00, 0xa7, 0x7a, 0x3d, 0xda,
        0x00, 0x00, 0x00, 0x01, 0x74, 0x52, 0x4e, 0x53, 0x00, 0x40, 0xe6, 0xd8,
        0x66, 0x00, 0x00, 0x00, 0x0a, 0x49, 0x44, 0x41, 0x54, 0x08, 0xd7, 0x63,
        0x60, 0x00, 0x00, 0x00, 0x02, 0x00, 0x01, 0xe2, 0x21, 0xbc, 0x33, 0x00,
        0x00, 0x00, 0x00, 0x49, 0x45, 0x4e, 0x44, 0xae, 0x42, 0x60, 0x82,
        ];
        assert(data@ =~= orbital_data());
        data
    }

    /// Handles one call. The first input word is the opcode: 0 initializes
    /// the instance and sends out the one unit of the contract's own asset,
    /// 99 and 100 answer with the name and the symbol, 101 with the total
    /// supply counter as sixteen little-endian bytes, and 1000 with the
    /// metadata payload. The answer hands on the transfers that came in. A
    /// call that fails writes nothing.
    pub fn execute(&self, store: &mut Store, context: &Context) -> (result: Result<
        CallResponse,
        ContractError,
    >)
        ensures
            match orbital_executed(
                old(store)@,
                context.myself,
                context.incoming_alkanes@,
                context.inputs@,
            ) {
                Ok(outcome) => result is Ok && outcome.is_met_by(final(store)@, result->Ok_0),
                Err(kind) => result is Err && result->Err_0.states(kind) && final(store)@ == old(
                    store,
                )@,
            },
    {
        let mut inputs = copy_words(&context.inputs);
        let opcode: u128 = match shift_or_err(&mut inputs) {
            Ok(opcode) => opcode,
            Err(error) => {
                return Err(error);
            },
        };
        let mut response = CallResponse::forward(&context.incoming_alkanes);
        if opcode == OPCODE_INITIALIZE {
            match self.observe_initialization(store) {
                Ok(()) => {},
                Err(error) => {
                    return Err(error);
                },
            }
            self.set_total_supply(store, 1);
            response.alkanes.0.push(AlkaneTransfer { id: context.myself, value: 1u128 });
        } else if opcode == OPCODE_NAME {
            response.data = self.name().as_str().as_bytes_vec();
        } else if opcode == OPCODE_SYMBOL {
            response.data = self.symbol().as_str().as_bytes_vec();
        } else if opcode == OPCODE_TOTAL_SUPPLY {
            response.data = encode_u128(self.total_supply(store));
        } else if opcode == OPCODE_DATA {
            response.data = self.data();
        } else {
            return Err(ContractError::new(ErrorKind::UnknownOpcode));
        }
        Ok(response)
    }
}

} // verus!
