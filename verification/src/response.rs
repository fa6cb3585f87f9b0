//! What a contract is called with and what it answers.

use crate::error::{ContractError, ErrorKind};
use crate::id::{AlkaneId, AlkaneTransfer, AlkaneTransferParcel};
use crate::store::Contents;
use vstd::prelude::*;

verus! {

/// The opcode that initializes a contract instance.
pub const OPCODE_INITIALIZE: u128 = 0;

/// The opcode that mints the reward of the current block.
pub const OPCODE_MINT: u128 = 77;

/// The opcode that asks for the name of the token.
pub const OPCODE_NAME: u128 = 99;

/// The opcode that asks for the symbol of the token.
pub const OPCODE_SYMBOL: u128 = 100;

/// The opcode that asks for the total supply.
pub const OPCODE_TOTAL_SUPPLY: u128 = 101;

/// The opcode that asks for the metadata payload of a non-fungible token.
pub const OPCODE_DATA: u128 = 1000;

/// The context of one call: the contract that is called, which is also the
/// identity of its asset, the caller, the transfers that come in, and the
/// input words. The first input word is the opcode.
#[derive(Debug)]
pub struct Context {
    pub myself: AlkaneId,
    pub caller: AlkaneId,
    pub vout: u32,
    pub incoming_alkanes: AlkaneTransferParcel,
    pub inputs: Vec<u128>,
}

/// The answer of a successful call: the transfers that go out, and a raw
/// payload for the calls that ask for data.
#[derive(Debug)]
pub struct CallResponse {
    pub alkanes: AlkaneTransferParcel,
    pub data: Vec<u8>,
}

/// What a successful call leaves behind: the store after it, and the
/// transfers and the payload of its answer.
pub struct Outcome {
    pub store: Contents,
    pub alkanes: Seq<AlkaneTransfer>,
    pub data: Seq<u8>,
}

/// The failure of `kind` of a call that would have answered.
pub open spec fn refusal(kind: ErrorKind) -> Result<Outcome, ErrorKind> {
    Err(kind)
}

impl Outcome {
    /// Whether `store` and `response` are what this outcome says.
    pub open spec fn is_met_by(self, store: Contents, response: CallResponse) -> bool {
        store == self.store && response.alkanes@ == self.alkanes && response.data@ == self.data
    }
}

/// A copy of a list of transfers.
pub fn copy_transfers(transfers: &Vec<AlkaneTransfer>) -> (copy: Vec<AlkaneTransfer>)
    ensures
        copy@ == transfers@,
{
    let mut copy: Vec<AlkaneTransfer> = Vec::new();
    let mut i: usize = 0;
    while i < transfers.len()
        invariant
            i <= transfers@.len(),
            copy@ == transfers@.subrange(0, i as int),
        decreases transfers@.len() - i,
    {
        copy.push(transfers[i]);
        assert(copy@ =~= transfers@.subrange(0, i + 1));
        i += 1;
    }
    assert(transfers@.subrange(0, transfers@.len() as int) =~= transfers@);
    copy
}

/// A copy of a list of input words.
pub fn copy_words(words: &Vec<u128>) -> (copy: Vec<u128>)
    ensures
        copy@ == words@,
{
    let mut copy: Vec<u128> = Vec::new();
    let mut i: usize = 0;
    while i < words.len()
        invariant
            i <= words@.len(),
            copy@ == words@.subrange(0, i as int),
        decreases words@.len() - i,
    {
        copy.push(words[i]);
        assert(copy@ =~= words@.subrange(0, i + 1));
        i += 1;
    }
    assert(words@.subrange(0, words@.len() as int) =~= words@);
    copy
}

impl CallResponse {
    /// The answer that hands on what came in: the incoming transfers go out
    /// again, and there is no payload.
    pub fn forward(incoming: &AlkaneTransferParcel) -> (response: CallResponse)
        ensures
            response.alkanes@ == incoming@,
            response.data@ == Seq::<u8>::empty(),
    {
        CallResponse {
            alkanes: AlkaneTransferParcel(copy_transfers(&incoming.0)),
            data: Vec::new(),
        }
    }
}

/// Takes the first word off a list of input words. A list without words has
/// no opcode to give.
pub fn shift_or_err(inputs: &mut Vec<u128>) -> (result: Result<u128, ContractError>)
    ensures
        old(inputs)@.len() == 0 ==> result is Err && result->Err_0.states(ErrorKind::UnknownOpcode)
            && final(inputs)@ == old(inputs)@,
        old(inputs)@.len() > 0 ==> result == Ok::<u128, ContractError>(old(inputs)@[0])
            && final(inputs)@ == old(inputs)@.skip(1),
{
    if inputs.len() == 0 {
        Err(ContractError::new(ErrorKind::UnknownOpcode))
    } else {
        let first = inputs.remove(0);
        assert(inputs@ =~= old(inputs)@.skip(1));
        Ok(first)
    }
}

} // verus!
