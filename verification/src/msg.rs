//! The messages the contract is instantiated, executed and queried with.

use vstd::prelude::*;
use crate::state::StakerInfo;

verus! {

/// The block a message is executed in.
#[derive(Debug, Clone, Copy, PartialEq, Eq)]
pub struct Env {
    /// The block time, in seconds.
    pub block_time: u64,
}

/// Who sent the message.
#[derive(Debug, Clone, PartialEq, Eq)]
pub struct MessageInfo {
    pub sender: String,
}

/// A token transfer notification from a token contract: `sender` sent
/// `amount` of that token to this contract.
#[derive(Debug, Clone, PartialEq, Eq)]
pub struct ReceiveMsg {
    pub sender: String,
    pub amount: u128,
    pub msg: Vec<u8>,
}

#[derive(Debug, Clone, PartialEq, Eq)]
pub struct InstantiateMsg {
    /// Owner; if none is set, the sender.
    pub owner: Option<String>,
    pub reward_token_address: String,
    pub stake_token_address: String,
    pub daily_reward_amount: u128,
    pub apy_prefix: u128,
    pub reward_interval: u64,
    pub lock_days: u64,
    pub enabled: bool,
}

#[derive(Debug, Clone, PartialEq, Eq)]
pub enum ExecuteMsg {
    UpdateConfig { new_owner: Option<String> },
    UpdateConstants {
        daily_reward_amount: u128,
        apy_prefix: u128,
        reward_interval: u64,
        lock_days: u64,
        enabled: bool,
    },
    Receive(ReceiveMsg),
    WithdrawReward {},
    WithdrawStake {},
    ClaimReward {},
    CreateUnstake { unstake_amount: u128 },
    FetchUnstake { index: u64 },
    AddStakers { stakers: Vec<StakerInfo> },
    RemoveStaker { address: String },
    RemoveAllStakers { start_after: Option<String>, limit: Option<u32> },
}

#[derive(Debug, Clone, PartialEq, Eq)]
pub enum QueryMsg {
    Config {},
    Staker { address: String },
    ListStakers { start_after: Option<String>, limit: Option<u32> },
    Apy {},
    Unstaking { address: String },
}

#[derive(Debug, Clone, PartialEq, Eq)]
pub struct ConfigResponse {
    pub owner: Option<String>,
    pub reward_token_address: String,
    pub stake_token_address: String,
    pub reward_amount: u128,
    pub stake_amount: u128,
    pub daily_reward_amount: u128,
    pub apy_prefix: u128,
    pub reward_interval: u64,
    pub lock_days: u64,
}

/// The address string that a message carries and that must be validated
/// before the message is executed, if any.
pub open spec fn address_to_validate_spec(msg: ExecuteMsg) -> Option<String> {
    match msg {
        ExecuteMsg::UpdateConfig { new_owner } => new_owner,
        ExecuteMsg::Receive(w) => Some(w.sender),
        ExecuteMsg::RemoveAllStakers { start_after, .. } => start_after,
        _ => None,
    }
}

impl ExecuteMsg {
    /// The address string that this message carries and that must be
    /// validated before the message is executed, if any.
    pub fn address_to_validate(&self) -> (r: Option<String>)
        ensures
            r == address_to_validate_spec(*self),
    {
        match self {
            ExecuteMsg::UpdateConfig { new_owner } => match new_owner {
                Some(a) => Some(a.clone()),
                None => None,
            },
            ExecuteMsg::Receive(w) => Some(w.sender.clone()),
            ExecuteMsg::RemoveAllStakers { start_after, .. } => match start_after {
                Some(a) => Some(a.clone()),
                None => None,
            },
            _ => None,
        }
    }
}

} // verus!
