//! The issuance policy of a chain: the block reward with its halvings, the
//! premine, and the ceiling of the total supply.

use crate::error::{ContractError, ErrorKind};
use vstd::arithmetic::div_mod::{
    lemma_basic_div,
    lemma_div_denominator,
    lemma_div_is_ordered,
    lemma_div_is_ordered_by_denominator,
};
use vstd::arithmetic::power2::{
    lemma2_to64,
    lemma_pow2_adds,
    lemma_pow2_pos,
    lemma_pow2_strictly_increases,
    lemma_pow2_unfold,
    pow2,
};
use vstd::bits::lemma_u128_shr_is_div;
use vstd::prelude::*;

verus! {

/// The constants that decide how much a chain issues and when. Issuance
/// works in the same way on every chain; only these numbers differ.
#[derive(Clone, Copy, Debug, PartialEq, Eq, Structural)]
pub struct ChainConfiguration {
    /// The height from which the premine is counted.
    pub genesis_block: u64,
    /// The number of blocks after which the reward halves; zero for a reward
    /// that never halves.
    pub halving_interval: u64,
    /// The reward of a block before the first halving.
    pub base_reward: u128,
    /// What the premine grants for each block between the genesis height and
    /// the block of initialization.
    pub average_payout_from_genesis: u128,
    /// The ceiling of the total supply.
    pub total_supply: u128,
}

impl ChainConfiguration {
    /// The number of halvings that lie behind the block at height `n`.
    pub open spec fn spec_epoch(self, n: u64) -> nat {
        if self.halving_interval == 0 {
            0
        } else {
            (n / self.halving_interval) as nat
        }
    }

    /// The reward of the block at height `n`: the base reward, halved once
    /// for each halving interval that lies behind the block, and rounded
    /// down.
    pub open spec fn spec_block_reward(self, n: u64) -> nat {
        self.base_reward as nat / pow2(self.spec_epoch(n))
    }

    /// The premine of a contract that is initialized at `height`: the
    /// average payout for each block since the genesis height. There is none
    /// where `height` lies before the genesis height or the product leaves
    /// the 128-bit range.
    pub open spec fn spec_premine(self, height: u64) -> Option<u128> {
        if height < self.genesis_block {
            None
        } else if (height - self.genesis_block) * self.average_payout_from_genesis > u128::MAX {
            None
        } else {
            Some(((height - self.genesis_block) * self.average_payout_from_genesis) as u128)
        }
    }

    /// The policy for local test chains.
    pub fn regtest() -> (chain: ChainConfiguration)
        ensures
            chain == (ChainConfiguration {
                genesis_block: 0,
                halving_interval: 210_000,
                base_reward: 5_000_000_000,
                average_payout_from_genesis: 50_000_000,
                total_supply: 131_250_000_000_000,
            }),
    {
        ChainConfiguration {
            genesis_block: 0,
            halving_interval: 210_000,
            base_reward: 5_000_000_000,
            average_payout_from_genesis: 50_000_000,
            total_supply: 131_250_000_000_000,
        }
    }

    /// The policy for Bitcoin's main chain.
    pub fn mainnet() -> (chain: ChainConfiguration)
        ensures
            chain == (ChainConfiguration {
                genesis_block: 840_000,
                halving_interval: 210_000,
                base_reward: 5_000_000_000,
                average_payout_from_genesis: 312_500_000,
                total_supply: 131_250_000_000_000,
            }),
    {
        ChainConfiguration {
            genesis_block: 840_000,
            halving_interval: 210_000,
            base_reward: 5_000_000_000,
            average_payout_from_genesis: 312_500_000,
            total_supply: 131_250_000_000_000,
        }
    }

    /// The policy for Dogecoin: a reward that never halves.
    pub fn dogecoin() -> (chain: ChainConfiguration)
        ensures
            chain == (ChainConfiguration {
                genesis_block: 4_000_000,
                halving_interval: 0,
                base_reward: 1_000_000_000_000,
                average_payout_from_genesis: 1_000_000_000_000,
                total_supply: 4_000_000_000_000_000_000,
            }),
    {
        ChainConfiguration {
            genesis_block: 4_000_000,
            halving_interval: 0,
            base_reward: 1_000_000_000_000,
            average_payout_from_genesis: 1_000_000_000_000,
            total_supply: 4_000_000_000_000_000_000,
        }
    }

    /// The policy for Fractal.
    pub fn fractal() -> (chain: ChainConfiguration)
        ensures
            chain == (ChainConfiguration {
                genesis_block: 0,
                halving_interval: 2_100_000,
                base_reward: 2_500_000_000,
                average_payout_from_genesis: 2_500_000_000,
                total_supply: 21_000_000_000_000_000,
            }),
    {
        ChainConfiguration {
            genesis_block: 0,
            halving_interval: 2_100_000,
            base_reward: 2_500_000_000,
            average_payout_from_genesis: 2_500_000_000,
            total_supply: 21_000_000_000_000_000,
        }
    }

    /// The policy for Luckycoin: a reward that never halves.
    pub fn luckycoin() -> (chain: ChainConfiguration)
        ensures
            chain == (ChainConfiguration {
                genesis_block: 0,
                halving_interval: 0,
                base_reward: 1_000_000_000,
                average_payout_from_genesis: 1_000_000_000,
                total_supply: 2_000_000_000_000_000,
            }),
    {
        ChainConfiguration {
            genesis_block: 0,
            halving_interval: 0,
            base_reward: 1_000_000_000,
            average_payout_from_genesis: 1_000_000_000,
            total_supply: 2_000_000_000_000_000,
        }
    }

    /// The policy for Bellscoin, which is that of Luckycoin.
    pub fn bellscoin() -> (chain: ChainConfiguration)
        ensures
            chain == (ChainConfiguration {
                genesis_block: 0,
                halving_interval: 0,
                base_reward: 1_000_000_000,
                average_payout_from_genesis: 1_000_000_000,
                total_supply: 2_000_000_000_000_000,
            }),
    {
        ChainConfiguration::luckycoin()
    }

    /// The reward of the block at height `n`.
    pub fn block_reward(&self, n: u64) -> (reward: u128)
        ensures
            reward == self.spec_block_reward(n),
    {
        if self.halving_interval == 0 {
            proof {
                lemma2_to64();
                assert(pow2(self.spec_epoch(n)) == 1);
            }
            return self.base_reward;
        }
        let halvings: u64 = n / self.halving_interval;
        if halvings >= 128 {
            proof {
                lemma_two_to_128();
                if halvings > 128 {
                    lemma_pow2_strictly_increases(128, halvings as nat);
                }
                lemma_basic_div(self.base_reward as int, pow2(halvings as nat) as int);
            }
            0
        } else {
            proof {
                lemma_u128_shr_is_div(self.base_reward, halvings as u128);
            }
            self.base_reward >> (halvings as u128)
        }
    }

    /// The height from which the premine is counted.
    pub fn genesis_block(&self) -> (height: u64)
        ensures
            height == self.genesis_block,
    {
        self.genesis_block
    }

    /// What the premine grants for each block since the genesis height.
    pub fn average_payout_from_genesis(&self) -> (payout: u128)
        ensures
            payout == self.average_payout_from_genesis,
    {
        self.average_payout_from_genesis
    }

    /// The ceiling of the total supply.
    pub fn total_supply(&self) -> (ceiling: u128)
        ensures
            ceiling == self.total_supply,
    {
        self.total_supply
    }

    /// The reward of the block that the call runs in.
    pub fn current_block_reward(&self, height: u64) -> (reward: u128)
        ensures
            reward == self.spec_block_reward(height),
    {
        self.block_reward(height)
    }

    /// The premine of a contract that is initialized at `height`.
    pub fn premine(&self, height: u64) -> (result: Result<u128, ContractError>)
        ensures
            match self.spec_premine(height) {
                Some(amount) => result == Ok::<u128, ContractError>(amount),
                None => result is Err && result->Err_0.states(ErrorKind::Overflow),
            },
    {
        let blocks: u64 = match height.checked_sub(self.genesis_block) {
            Some(blocks) => blocks,
            None => {
                return Err(ContractError::new(ErrorKind::Overflow));
            },
        };
        match (blocks as u128).checked_mul(self.average_payout_from_genesis) {
            Some(amount) => Ok(amount),
            None => Err(ContractError::new(ErrorKind::Overflow)),
        }
    }
}

proof fn lemma_two_to_128()
    ensures
        pow2(128) == 0x1_0000_0000_0000_0000_0000_0000_0000_0000,
{
    lemma2_to64();
    lemma_pow2_adds(64, 64);
}

/// No reward is more than the base reward.
pub proof fn lemma_reward_is_at_most_base(chain: ChainConfiguration, h: u64)
    ensures
        chain.spec_block_reward(h) <= chain.base_reward,
{
    lemma_pow2_pos(chain.spec_epoch(h));
    lemma_div_is_ordered_by_denominator(
        chain.base_reward as int,
        1,
        pow2(chain.spec_epoch(h)) as int,
    );
}

/// Within one halving epoch the reward is the same at every height.
pub proof fn lemma_reward_constant_in_epoch(chain: ChainConfiguration, h1: u64, h2: u64)
    requires
        chain.spec_epoch(h1) == chain.spec_epoch(h2),
    ensures
        chain.spec_block_reward(h1) == chain.spec_block_reward(h2),
{
}

/// The reward never grows with the height.
pub proof fn lemma_reward_never_grows(chain: ChainConfiguration, h1: u64, h2: u64)
    requires
        h1 <= h2,
    ensures
        chain.spec_epoch(h1) <= chain.spec_epoch(h2),
        chain.spec_block_reward(h2) <= chain.spec_block_reward(h1),
{
    if chain.halving_interval != 0 {
        lemma_div_is_ordered(h1 as int, h2 as int, chain.halving_interval as int);
    }
    let e1 = chain.spec_epoch(h1);
    let e2 = chain.spec_epoch(h2);
    lemma_pow2_pos(e1);
    if e1 < e2 {
        lemma_pow2_strictly_increases(e1, e2);
    }
    lemma_div_is_ordered_by_denominator(chain.base_reward as int, pow2(e1) as int, pow2(e2) as int);
}

/// Each halving halves the reward, rounding down.
pub proof fn lemma_reward_halves(chain: ChainConfiguration, h1: u64, h2: u64)
    requires
        chain.spec_epoch(h2) == chain.spec_epoch(h1) + 1,
    ensures
        chain.spec_block_reward(h2) == chain.spec_block_reward(h1) / 2,
{
    let e1 = chain.spec_epoch(h1);
    lemma_pow2_pos(e1);
    lemma_pow2_unfold(e1 + 1);
    lemma_div_denominator(chain.base_reward as int, pow2(e1) as int, 2);
    assert(pow2(e1) * 2 == 2 * pow2(e1)) by (nonlinear_arith);
}

} // verus!
