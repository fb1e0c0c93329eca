//! The contract's state and the records it keeps.

use vstd::prelude::*;
use crate::addr_map::AddrMap;

verus! {

/// What the contract keeps per staker: staked amount, accrued reward, and
/// the time (in seconds) from which reward is next counted.
pub type StakeRecord = (u128, u128, u64);

/// A pending unstake: the amount and the time (in seconds) from which it
/// may be fetched.
pub type Unstake = (u128, u64);

/// A staker, as listed and as added by the owner.
#[derive(Debug, Clone, PartialEq, Eq)]
pub struct StakerInfo {
    pub address: String,
    pub amount: u128,
    pub reward: u128,
    pub last_time: u64,
}

/// The contract's configuration.
#[derive(Debug, Clone, PartialEq, Eq)]
pub struct Config {
    /// Owner. If none is set, the contract is frozen.
    pub owner: Option<String>,
    pub reward_token_address: String,
    pub stake_token_address: String,
    /// Reward tokens held for stakers.
    pub reward_amount: u128,
    /// Stake tokens held.
    pub stake_amount: u128,
    pub daily_reward_amount: u128,
    pub apy_prefix: u128,
    /// The length in seconds of one reward period.
    pub reward_interval: u64,
    pub lock_days: u64,
    pub enabled: bool,
}

/// A page of stakers.
#[derive(Debug, Clone, PartialEq, Eq)]
pub struct StakerListResponse {
    pub stakers: Vec<StakerInfo>,
}

/// One staker's record; zeros for an address that has none.
#[derive(Debug, Clone, PartialEq, Eq)]
pub struct StakerResponse {
    pub address: String,
    pub amount: u128,
    pub reward: u128,
    pub last_time: u64,
}

#[derive(Debug, Clone, PartialEq, Eq)]
pub struct CountInfo {
    pub count: u128,
}

/// The whole state of the contract: its configuration, the stakers and the
/// pending unstakes, both keyed by address.
pub struct Contract {
    pub config: Config,
    pub stakers: AddrMap<StakeRecord>,
    pub unstaking: AddrMap<Vec<Unstake>>,
}

/// The mathematical view of a [`Contract`].
pub struct Model {
    pub config: Config,
    pub stakers: Map<Seq<char>, StakeRecord>,
    pub unstaking: Map<Seq<char>, Seq<Unstake>>,
}

/// The sequences that a map of vectors holds.
pub open spec fn seq_values(m: Map<Seq<char>, Vec<Unstake>>) -> Map<Seq<char>, Seq<Unstake>> {
    Map::new(|k: Seq<char>| m.contains_key(k), |k: Seq<char>| m[k]@)
}

impl View for Contract {
    type V = Model;

    open spec fn view(&self) -> Model {
        Model {
            config: self.config,
            stakers: self.stakers@,
            unstaking: seq_values(self.unstaking@),
        }
    }
}

pub proof fn lemma_seq_values_insert(m: Map<Seq<char>, Vec<Unstake>>, k: Seq<char>, v: Vec<Unstake>)
    ensures
        seq_values(m.insert(k, v)) == seq_values(m).insert(k, v@),
        seq_values(m.remove(k)) == seq_values(m).remove(k),
{
    assert(seq_values(m.insert(k, v)) =~= seq_values(m).insert(k, v@));
    assert(seq_values(m.remove(k)) =~= seq_values(m).remove(k));
}

} // verus!
