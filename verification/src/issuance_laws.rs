//! What holds of issuance over any sequence of calls: a block is minted for
//! at most once, the total supply counter stays under its ceiling, and an
//! instance is initialized at most once.

use crate::bytes::{lemma_le128_round_trip, lemma_le32_len};
use crate::chain::ChainConfiguration;
use crate::error::ErrorKind;
use crate::genesis::{
    genesis_executed,
    initialization_observed,
    initialized,
    mint_observed,
    minted,
    supply_increased,
};
use crate::id::{AlkaneId, AlkaneTransfer};
use crate::layout::{is_initialized, is_seen, lemma_contract_keys_apart, supply_in};
use crate::orbital::orbital_executed;
use crate::response::{refusal, Outcome, OPCODE_INITIALIZE, OPCODE_MINT};
use crate::store::Contents;
use vstd::prelude::*;

verus! {

/// One call of the genesis contract: the identity of the contract, the
/// transfers that come in, the input words, the height of the current block
/// and its hash, if the block could be read.
pub struct GenesisCall {
    pub myself: AlkaneId,
    pub incoming: Seq<AlkaneTransfer>,
    pub inputs: Seq<u128>,
    pub height: u64,
    pub hash: Option<Seq<u8>>,
}

impl GenesisCall {
    /// Whether the call asks for an initialization.
    pub open spec fn initializes(self) -> bool {
        self.inputs.len() > 0 && self.inputs[0] == OPCODE_INITIALIZE
    }

    /// Whether the call asks for a mint.
    pub open spec fn mints(self) -> bool {
        self.inputs.len() > 0 && self.inputs[0] == OPCODE_MINT
    }

    /// What the call does on the store `m`.
    pub open spec fn result(self, chain: ChainConfiguration, m: Contents) -> Result<
        Outcome,
        ErrorKind,
    > {
        genesis_executed(chain, m, self.myself, self.incoming, self.inputs, self.height, self.hash)
    }

    /// The store after the call: that of its outcome, or the store as it
    /// was where the call fails.
    pub open spec fn leaves(self, chain: ChainConfiguration, m: Contents) -> Contents {
        match self.result(chain, m) {
            Ok(outcome) => outcome.store,
            Err(_) => m,
        }
    }
}

/// The store after a sequence of calls of the genesis contract.
pub open spec fn after_calls(
    chain: ChainConfiguration,
    m: Contents,
    calls: Seq<GenesisCall>,
) -> Contents
    decreases calls.len(),
{
    if calls.len() == 0 {
        m
    } else {
        calls.last().leaves(chain, after_calls(chain, m, calls.drop_last()))
    }
}

/// What one call keeps: the marker of a block, the marker of
/// initialization and the total supply counter are never taken back, and
/// the counter stays under the ceiling where it was under it. A counter that
/// has reached the ceiling does not change any more.
pub proof fn lemma_call_keeps(
    chain: ChainConfiguration,
    m: Contents,
    call: GenesisCall,
    hash: Seq<u8>,
)
    ensures
        is_seen(m, hash) ==> is_seen(call.leaves(chain, m), hash),
        is_initialized(m) ==> is_initialized(call.leaves(chain, m)),
        supply_in(m) <= supply_in(call.leaves(chain, m)),
        supply_in(m) <= chain.total_supply ==> supply_in(call.leaves(chain, m))
            <= chain.total_supply,
        supply_in(m) >= chain.total_supply ==> supply_in(call.leaves(chain, m)) == supply_in(m),
{
    if call.result(chain, m) is Ok && (call.initializes() || call.mints()) {
        let block = call.hash->Some_0;
        lemma_contract_keys_apart(block, hash);
        lemma_contract_keys_apart(hash, block);
        lemma_le32_len(1);
        let marked = if call.initializes() {
            initialization_observed(m, block)->Ok_0
        } else {
            mint_observed(m, block)->Ok_0
        };
        let amount = if call.initializes() {
            chain.spec_premine(call.height)->Some_0
        } else {
            chain.spec_block_reward(call.height) as u128
        };
        assert(supply_in(marked) == supply_in(m));
        assert(call.leaves(chain, m) == supply_increased(chain, marked, amount)->Ok_0);
        lemma_le128_round_trip((supply_in(marked) + amount) as u128);
    }
}

/// What a sequence of calls keeps: as for one call.
pub proof fn lemma_calls_keep(
    chain: ChainConfiguration,
    m: Contents,
    calls: Seq<GenesisCall>,
    hash: Seq<u8>,
)
    ensures
        is_seen(m, hash) ==> is_seen(after_calls(chain, m, calls), hash),
        is_initialized(m) ==> is_initialized(after_calls(chain, m, calls)),
        supply_in(m) <= supply_in(after_calls(chain, m, calls)),
        supply_in(m) <= chain.total_supply ==> supply_in(after_calls(chain, m, calls))
            <= chain.total_supply,
        supply_in(m) >= chain.total_supply ==> supply_in(after_calls(chain, m, calls))
            == supply_in(m),
    decreases calls.len(),
{
    if calls.len() > 0 {
        lemma_calls_keep(chain, m, calls.drop_last(), hash);
        lemma_call_keeps(chain, after_calls(chain, m, calls.drop_last()), calls.last(), hash);
    }
}

/// No double mint: once a mint or an initialization has succeeded for a
/// block, every later mint or initialization for the block of the same hash
/// fails as already minted, whatever calls lie between the two.
pub proof fn lemma_no_double_mint(
    chain: ChainConfiguration,
    m: Contents,
    first: GenesisCall,
    between: Seq<GenesisCall>,
    second: GenesisCall,
)
    requires
        first.initializes() || first.mints(),
        first.result(chain, m) is Ok,
        second.initializes() || second.mints(),
        second.hash == first.hash,
    ensures
        second.result(chain, after_calls(chain, first.leaves(chain, m), between)) == refusal(
            ErrorKind::AlreadyMinted,
        ),
{
    let hash = first.hash->Some_0;
    lemma_mark_is_set(chain, m, first);
    lemma_calls_keep(chain, first.leaves(chain, m), between, hash);
}

/// A mint or an initialization that succeeds leaves the marker of its block
/// behind, and an initialization that of the instance.
proof fn lemma_mark_is_set(chain: ChainConfiguration, m: Contents, call: GenesisCall)
    requires
        call.initializes() || call.mints(),
        call.result(chain, m) is Ok,
    ensures
        call.hash is Some,
        is_seen(call.leaves(chain, m), call.hash->Some_0),
        call.initializes() ==> is_initialized(call.leaves(chain, m)),
{
    let hash = call.hash->Some_0;
    lemma_contract_keys_apart(hash, hash);
    lemma_le32_len(1);
}

/// Supply ceiling: over any sequence of calls, a total supply counter that
/// starts under the ceiling, as that of a new instance does, never passes
/// it.
pub proof fn lemma_supply_stays_under_ceiling(
    chain: ChainConfiguration,
    m: Contents,
    calls: Seq<GenesisCall>,
)
    requires
        supply_in(m) <= chain.total_supply,
    ensures
        supply_in(after_calls(chain, m, calls)) <= chain.total_supply,
{
    lemma_calls_keep(chain, m, calls, Seq::empty());
}

/// Once the total supply counter has reached the ceiling, a mint for a
/// block that was not minted for fails because the supply is exceeded, and
/// no sequence of calls changes the counter any more.
pub proof fn lemma_ceiling_stops_issuance(
    chain: ChainConfiguration,
    m: Contents,
    mint: GenesisCall,
    calls: Seq<GenesisCall>,
)
    requires
        supply_in(m) >= chain.total_supply,
        mint.mints(),
        mint.hash is Some,
        !is_seen(m, mint.hash->Some_0),
    ensures
        mint.result(chain, m) == refusal(ErrorKind::SupplyExceeded),
        supply_in(after_calls(chain, m, calls)) == supply_in(m),
{
    lemma_calls_keep(chain, m, calls, Seq::empty());
    lemma_contract_keys_apart(mint.hash->Some_0, mint.hash->Some_0);
}

/// The initialization of a new instance succeeds where the block can be
/// read, the premine can be computed, and the ceiling has room for it. It
/// leaves the premine as the total supply.
pub proof fn lemma_first_initialization_succeeds(chain: ChainConfiguration, call: GenesisCall)
    requires
        call.initializes(),
        call.hash is Some,
        chain.spec_premine(call.height) is Some,
        chain.spec_premine(call.height)->Some_0 <= chain.total_supply,
        chain.total_supply > 0,
    ensures
        call.result(chain, Map::empty()) is Ok,
        supply_in(call.leaves(chain, Map::empty())) == chain.spec_premine(call.height)->Some_0,
        call.result(chain, Map::empty())->Ok_0.alkanes == call.incoming.push(
            AlkaneTransfer { id: call.myself, value: chain.spec_premine(call.height)->Some_0 },
        ),
{
    let hash = call.hash->Some_0;
    lemma_contract_keys_apart(hash, hash);
    lemma_le128_round_trip(chain.spec_premine(call.height)->Some_0);
}

/// Initialization happens once: after an initialization has succeeded, every
/// later call that asks for one fails, whatever calls lie between the two.
/// It fails as already initialized, unless its block cannot be read or was
/// minted for before, which is found out first.
pub proof fn lemma_initialized_once(
    chain: ChainConfiguration,
    m: Contents,
    first: GenesisCall,
    between: Seq<GenesisCall>,
    second: GenesisCall,
)
    requires
        first.initializes(),
        first.result(chain, m) is Ok,
        second.initializes(),
    ensures
        ({
            let later = after_calls(chain, first.leaves(chain, m), between);
            second.result(chain, later) == refusal(
                if second.hash is None {
                    ErrorKind::MalformedBlock
                } else if is_seen(later, second.hash->Some_0) {
                    ErrorKind::AlreadyMinted
                } else {
                    ErrorKind::AlreadyInitialized
                },
            )
        }),
{
    lemma_mark_is_set(chain, m, first);
    lemma_calls_keep(chain, first.leaves(chain, m), between, Seq::empty());
    if second.hash is Some {
        lemma_contract_keys_apart(second.hash->Some_0, second.hash->Some_0);
    }
}

/// One call of the orbital contract.
pub struct OrbitalCall {
    pub myself: AlkaneId,
    pub incoming: Seq<AlkaneTransfer>,
    pub inputs: Seq<u128>,
}

impl OrbitalCall {
    /// Whether the call asks for the initialization.
    pub open spec fn initializes(self) -> bool {
        self.inputs.len() > 0 && self.inputs[0] == OPCODE_INITIALIZE
    }

    /// What the call does on the store `m`.
    pub open spec fn result(self, m: Contents) -> Result<Outcome, ErrorKind> {
        orbital_executed(m, self.myself, self.incoming, self.inputs)
    }

    /// The store after the call.
    pub open spec fn leaves(self, m: Contents) -> Contents {
        match self.result(m) {
            Ok(outcome) => outcome.store,
            Err(_) => m,
        }
    }
}

/// The store after a sequence of calls of the orbital contract.
pub open spec fn after_orbital_calls(m: Contents, calls: Seq<OrbitalCall>) -> Contents
    decreases calls.len(),
{
    if calls.len() == 0 {
        m
    } else {
        calls.last().leaves(after_orbital_calls(m, calls.drop_last()))
    }
}

/// The marker of initialization survives every sequence of calls, and the
/// supply of an initialized instance stays at its one unit.
pub proof fn lemma_orbital_calls_keep(m: Contents, calls: Seq<OrbitalCall>)
    requires
        is_initialized(m),
    ensures
        is_initialized(after_orbital_calls(m, calls)),
        supply_in(after_orbital_calls(m, calls)) == supply_in(m),
    decreases calls.len(),
{
    if calls.len() > 0 {
        lemma_orbital_calls_keep(m, calls.drop_last());
    }
}

/// The orbital is initialized once: the first initialization of a new
/// instance succeeds and issues one unit, and every later one fails as
/// already initialized, whatever calls lie between the two.
pub proof fn lemma_orbital_initialized_once(
    m: Contents,
    first: OrbitalCall,
    between: Seq<OrbitalCall>,
    second: OrbitalCall,
)
    requires
        first.initializes(),
        second.initializes(),
    ensures
        first.result(m) is Ok <==> !is_initialized(m),
        first.result(m) is Ok ==> supply_in(first.leaves(m)) == 1,
        first.result(m) is Ok ==> second.result(after_orbital_calls(first.leaves(m), between))
            == refusal(ErrorKind::AlreadyInitialized),
        first.result(m) is Ok ==> supply_in(after_orbital_calls(first.leaves(m), between)) == 1,
{
    if first.result(m) is Ok {
        lemma_contract_keys_apart(Seq::empty(), Seq::empty());
        lemma_le32_len(1);
        lemma_le128_round_trip(1);
        lemma_orbital_calls_keep(first.leaves(m), between);
    }
}

} // verus!
