//! The contract's entry points: instantiation, the executed messages, and
//! the queries, each over the in-memory state.

use vstd::prelude::*;
use crate::addr_map::{bound_of, entries_map, is_page, sorted_entries, AddrMap};
use crate::error::{CustomError, ErrorView};
use crate::model::{
    accrue, accrue_within_limits, action_reply, apy, apy_within_limits, checked_fits,
    initial_config, insert_all, insert_all_pending, new_owner, page_limit, pending_of, record_of,
    transfer_reply, Step, DEFAULT_LIMIT, MAX_LIMIT, MULTIPLE, SECONDS_PER_DAY,
};
use crate::msg::{ConfigResponse, Env, ExecuteMsg, InstantiateMsg, MessageInfo, ReceiveMsg};
use crate::reply::{
    attr, attr_amount, cw20_transfer_binary, decimal, empty_reply, Attribute, Reply, ReplyView,
    WasmExecute,
};
use crate::state::{
    seq_values, Config, Contract, Model, StakeRecord, StakerInfo, StakerListResponse,
    StakerResponse, Unstake,
};

verus! {

/// `r` is the outcome that `step` describes, from state `before` to state
/// `after`: on success the next state and the reply; on refusal the error,
/// with the state unchanged.
pub open spec fn outcome(step: Step, before: Model, after: Model, r: Result<Reply, CustomError>) -> bool {
    match r {
        Ok(reply) => step == Ok::<(Model, ReplyView), ErrorView>((after, reply@)),
        Err(e) => step == Err::<(Model, ReplyView), ErrorView>(e@) && after == before,
    }
}

/// Brings a record's reward up to `now`; `None` where the arithmetic would
/// leave the machine's integers.
pub fn accrue_checked(cfg: &Config, rec: StakeRecord, now: u64) -> (r: Option<StakeRecord>)
    ensures
        r.is_some() == accrue_within_limits(*cfg, rec, now),
        r matches Some(x) ==> x == accrue(*cfg, rec, now),
{
    let interval = cfg.reward_interval;
    if interval == 0 {
        return None;
    }
    let last = if rec.2 == 0 {
        now
    } else {
        rec.2
    };
    let current_period = now / interval;
    let last_period = last / interval;
    if current_period < last_period {
        return None;
    }
    let delta = current_period - last_period;
    if cfg.stake_amount > 0 && rec.0 > 0 && delta > 0 {
        let per_share = match cfg.daily_reward_amount.checked_mul(delta as u128) {
            Some(x) => x,
            None => return None,
        };
        let total = match per_share.checked_mul(rec.0) {
            Some(x) => x,
            None => return None,
        };
        let share = total / cfg.stake_amount;
        match rec.1.checked_add(share) {
            Some(reward) => Some((rec.0, reward, now)),
            None => None,
        }
    } else {
        Some((rec.0, rec.1, last))
    }
}

/// The record kept for `address`, or zeros.
pub fn record_at(stakers: &AddrMap<StakeRecord>, address: &String) -> (r: StakeRecord)
    ensures
        r == record_of(stakers@, address@),
{
    match stakers.get(address) {
        Some(rec) => *rec,
        None => (0, 0, 0),
    }
}

/// A reply with only the attribute `action`.
fn action_only(action: &str) -> (r: Reply)
    ensures
        r@ == action_reply(action@),
{
    let mut attributes: Vec<Attribute> = Vec::new();
    attributes.push(attr("action", action.to_owned()));
    let r = Reply { messages: Vec::new(), attributes };
    assert(r@.messages =~= action_reply(action@).messages);
    assert(r@.attributes =~= action_reply(action@).attributes);
    r
}

/// A reply without messages, with the attributes `action`, `address` and
/// `amount_key`.
fn report(action: &str, address: String, amount_key: &str, amount: u128) -> (r: Reply)
    ensures
        r@.messages == Seq::<(Seq<char>, Seq<u8>)>::empty(),
        r@.attributes == seq![
            ("action"@, action@),
            ("address"@, address@),
            (amount_key@, decimal(amount as nat)),
        ],
{
    let mut attributes: Vec<Attribute> = Vec::new();
    attributes.push(attr("action", action.to_owned()));
    attributes.push(attr("address", address));
    attributes.push(attr_amount(amount_key, amount));
    let r = Reply { messages: Vec::new(), attributes };
    assert(r@.messages =~= Seq::<(Seq<char>, Seq<u8>)>::empty());
    assert(r@.attributes =~= seq![
        ("action"@, action@),
        ("address"@, address@),
        (amount_key@, decimal(amount as nat)),
    ]);
    r
}

/// A reply that sends `amount` of `token` to `recipient`.
fn transfer(token: &String, recipient: &String, amount: u128, action: &str, amount_key: &str) -> (r: Reply)
    ensures
        r@ == transfer_reply(token@, recipient@, amount, action@, amount_key@),
{
    let msg = match cw20_transfer_binary(recipient, amount) {
        Ok(b) => b,
        Err(_) => vstd::pervasive::unreached(),
    };
    let ghost bin = msg@;
    let mut reply = report(action, recipient.clone(), amount_key, amount);
    reply.messages.push(WasmExecute { contract_addr: token.clone(), msg });
    assert(reply@.messages =~= seq![(token@, bin)]);
    reply
}

/// Refuses a sender that is not the owner.
pub fn check_owner(state: &Contract, info: &MessageInfo) -> (r: Result<Reply, CustomError>)
    ensures
        match r {
            Ok(reply) => state@.is_owner(info.sender@) && reply@ == action_reply("check_owner"@),
            Err(e) => !state@.is_owner(info.sender@) && e@ == ErrorView::Unauthorized,
        },
{
    match &state.config.owner {
        None => Err(CustomError::Unauthorized {}),
        Some(owner) => {
            if info.sender != *owner {
                return Err(CustomError::Unauthorized {});
            }
            Ok(action_only("check_owner"))
        },
    }
}

/// Refuses every request while the contract is disabled.
pub fn check_enabled(state: &Contract, _info: &MessageInfo) -> (r: Result<Reply, CustomError>)
    ensures
        match r {
            Ok(reply) => state.config.enabled && reply@ == action_reply("check_enabled"@),
            Err(e) => !state.config.enabled && e@ == ErrorView::Disabled,
        },
{
    if !state.config.enabled {
        return Err(CustomError::Disabled {});
    }
    Ok(action_only("check_enabled"))
}

/// Takes `unstake_amount` off the stake held.
pub fn update_stake_amount(state: &mut Contract, _env: &Env, unstake_amount: u128) -> (r: Result<
    Reply,
    CustomError,
>)
    requires
        old(state).config.stake_amount >= unstake_amount,
    ensures
        final(state)@ == (Model {
            config: Config {
                stake_amount: (old(state).config.stake_amount - unstake_amount) as u128,
                ..old(state).config
            },
            ..old(state)@
        }),
        r matches Ok(reply) && reply@ == empty_reply(),
{
    state.config.stake_amount = state.config.stake_amount - unstake_amount;
    Ok(Reply::new())
}

/// Brings `address`'s reward up to the block time and keeps the record.
pub fn update_reward(state: &mut Contract, env: &Env, address: &String, _start_after: Option<String>) -> (r:
    Result<Reply, CustomError>)
    requires
        accrue_within_limits(old(state).config, record_of(old(state)@.stakers, address@), env.block_time),
    ensures
        final(state)@ == old(state)@.update_reward(address@, env.block_time),
        r matches Ok(reply) && reply@ == empty_reply(),
{
    let rec = record_at(&state.stakers, address);
    let rec = match accrue_checked(&state.config, rec, env.block_time) {
        Some(x) => x,
        None => vstd::pervasive::unreached(),
    };
    state.stakers.insert(address.clone(), rec);
    Ok(Reply::new())
}

/// The owner takes out all reward tokens held.
pub fn try_withdraw_reward(state: &mut Contract, info: &MessageInfo) -> (r: Result<Reply, CustomError>)
    ensures
        outcome(old(state)@.withdraw_reward(info.sender@), old(state)@, final(state)@, r),
{
    check_owner(state, info)?;
    let reward_amount = state.config.reward_amount;
    let reply = transfer(
        &state.config.reward_token_address,
        &info.sender,
        reward_amount,
        "reward_withdraw_all",
        "reward_amount",
    );
    state.config.reward_amount = 0;
    Ok(reply)
}

/// The owner takes out all stake tokens held.
pub fn try_withdraw_stake(state: &mut Contract, info: &MessageInfo) -> (r: Result<Reply, CustomError>)
    ensures
        outcome(old(state)@.withdraw_stake(info.sender@), old(state)@, final(state)@, r),
{
    check_owner(state, info)?;
    let stake_amount = state.config.stake_amount;
    let reply = transfer(
        &state.config.stake_token_address,
        &info.sender,
        stake_amount,
        "stake_withdraw_all",
        "stake_amount",
    );
    state.config.stake_amount = 0;
    Ok(reply)
}

/// A token contract (`info.sender`) reports that `wrapper.amount` of its
/// token was sent to this contract: stake tokens are staked for the one who
/// sent them, reward tokens fund the rewards. `sender_check` is what
/// validating `wrapper.sender` gave.
pub fn try_receive(
    state: &mut Contract,
    env: &Env,
    info: &MessageInfo,
    wrapper: ReceiveMsg,
    sender_check: Result<String, String>,
) -> (r: Result<Reply, CustomError>)
    requires
        old(state)@.receive_within_limits(env.block_time, info.sender@, wrapper.amount, sender_check),
    ensures
        outcome(
            old(state)@.receive(env.block_time, info.sender@, wrapper.amount, sender_check),
            old(state)@,
            final(state)@,
            r,
        ),
{
    check_enabled(state, info)?;
    if wrapper.amount == 0 {
        return Err(CustomError::InvalidInput {});
    }
    let user = match sender_check {
        Ok(a) => a,
        Err(e) => return Err(CustomError::Std(e)),
    };
    if info.sender == state.config.stake_token_address {
        update_reward(state, env, &user, None)?;
        let (amount, reward, last_time) = record_at(&state.stakers, &user);
        state.stakers.insert(user.clone(), (amount + wrapper.amount, reward, last_time));
        state.config.stake_amount = state.config.stake_amount + wrapper.amount;
        proof {
            assert(state@.stakers =~= old(state)@.stakers.insert(
                user@,
                ((amount + wrapper.amount) as u128, reward, last_time),
            ));
        }
        Ok(report("stake", user, "amount", wrapper.amount))
    } else if info.sender == state.config.reward_token_address {
        state.config.reward_amount = state.config.reward_amount + wrapper.amount;
        Ok(report("fund", user, "amount", wrapper.amount))
    } else {
        Err(CustomError::UnacceptableToken {})
    }
}

/// The sender takes the reward accrued to them.
pub fn try_claim_reward(state: &mut Contract, env: &Env, info: &MessageInfo) -> (r: Result<
    Reply,
    CustomError,
>)
    requires
        old(state)@.accrue_on_request_within_limits(env.block_time, info.sender@),
    ensures
        outcome(old(state)@.claim_reward(env.block_time, info.sender@), old(state)@, final(state)@, r),
{
    check_enabled(state, info)?;
    let rec = record_at(&state.stakers, &info.sender);
    let (amount, reward, last_time) = match accrue_checked(&state.config, rec, env.block_time) {
        Some(x) => x,
        None => vstd::pervasive::unreached(),
    };
    if reward == 0 {
        return Err(CustomError::NoReward {});
    }
    if state.config.reward_amount < reward {
        return Err(CustomError::NotEnoughReward {});
    }
    let reply = transfer(
        &state.config.reward_token_address,
        &info.sender,
        reward,
        "claim_reward",
        "reward_amount",
    );
    state.config.reward_amount = state.config.reward_amount - reward;
    state.stakers.insert(info.sender.clone(), (amount, 0, last_time));
    Ok(reply)
}

/// The sender moves `unstake_amount` of their stake into a pending unstake,
/// which may be fetched once the lock has passed.
pub fn try_create_unstake(state: &mut Contract, env: &Env, info: &MessageInfo, unstake_amount: u128) -> (r:
    Result<Reply, CustomError>)
    requires
        old(state)@.create_unstake_within_limits(env.block_time, info.sender@, unstake_amount),
    ensures
        outcome(
            old(state)@.create_unstake(env.block_time, info.sender@, unstake_amount),
            old(state)@,
            final(state)@,
            r,
        ),
{
    check_enabled(state, info)?;
    let rec = record_at(&state.stakers, &info.sender);
    let (amount, reward, last_time) = match accrue_checked(&state.config, rec, env.block_time) {
        Some(x) => x,
        None => vstd::pervasive::unreached(),
    };
    if unstake_amount == 0 {
        return Err(CustomError::InvalidInput {});
    }
    if amount < unstake_amount {
        return Err(CustomError::NotEnoughStake {});
    }
    if state.config.stake_amount < unstake_amount {
        return Err(CustomError::NotEnoughStake {});
    }
    let unlock = env.block_time + state.config.lock_days * SECONDS_PER_DAY;
    let ghost old_unstaking = state.unstaking@;
    let mut list = match state.unstaking.remove(&info.sender) {
        Some(l) => l,
        None => Vec::new(),
    };
    list.push((unstake_amount, unlock));
    let ghost new_list = list;
    state.unstaking.insert(info.sender.clone(), list);
    state.stakers.insert(info.sender.clone(), (amount - unstake_amount, reward, last_time));
    update_stake_amount(state, env, unstake_amount)?;
    proof {
        crate::state::lemma_seq_values_insert(old_unstaking.remove(info.sender@), info.sender@, new_list);
        crate::state::lemma_seq_values_insert(old_unstaking, info.sender@, new_list);
        assert(old_unstaking.remove(info.sender@).insert(info.sender@, new_list) =~= old_unstaking.insert(
            info.sender@,
            new_list,
        ));
    }
    Ok(report("create_unstake", info.sender.clone(), "stake_amount", amount))
}

/// The sender fetches the pending unstake at `index`, once its lock has
/// passed.
pub fn try_fetch_unstake(state: &mut Contract, env: &Env, info: &MessageInfo, index: u64) -> (r: Result<
    Reply,
    CustomError,
>)
    requires
        old(state)@.accrue_on_request_within_limits(env.block_time, info.sender@),
    ensures
        outcome(
            old(state)@.fetch_unstake(env.block_time, info.sender@, index),
            old(state)@,
            final(state)@,
            r,
        ),
{
    check_enabled(state, info)?;
    let rec = record_at(&state.stakers, &info.sender);
    let rec = match accrue_checked(&state.config, rec, env.block_time) {
        Some(x) => x,
        None => vstd::pervasive::unreached(),
    };
    let (amount, unlock) = match state.unstaking.get(&info.sender) {
        None => {
            return Err(CustomError::NotCreatedUnstaking {});
        },
        Some(list) => {
            if (list.len() as u64) <= index {
                return Err(CustomError::NotCreatedUnstaking {});
            }
            list[index as usize]
        },
    };
    if state.config.stake_amount < amount {
        return Err(CustomError::NotEnoughStake {});
    }
    if unlock > env.block_time {
        return Err(CustomError::StillLocked {});
    }
    let reply = transfer(
        &state.config.stake_token_address,
        &info.sender,
        amount,
        "fetch_unstake",
        "stake_amount",
    );
    state.config.stake_amount = state.config.stake_amount - amount;
    let ghost old_unstaking = state.unstaking@;
    let mut list = match state.unstaking.remove(&info.sender) {
        Some(l) => l,
        None => vstd::pervasive::unreached(),
    };
    list.remove(index as usize);
    let ghost new_list = list;
    state.unstaking.insert(info.sender.clone(), list);
    state.stakers.insert(info.sender.clone(), rec);
    proof {
        crate::state::lemma_seq_values_insert(old_unstaking.remove(info.sender@), info.sender@, new_list);
        crate::state::lemma_seq_values_insert(old_unstaking, info.sender@, new_list);
        assert(old_unstaking.remove(info.sender@).insert(info.sender@, new_list) =~= old_unstaking.insert(
            info.sender@,
            new_list,
        ));
    }
    Ok(reply)
}

/// The owner sets a new owner, or none, which freezes the contract.
/// `owner_check` is what validating `new_owner` gave, `None` for none.
pub fn execute_update_config(
    state: &mut Contract,
    info: &MessageInfo,
    owner_check: Option<Result<String, String>>,
) -> (r: Result<Reply, CustomError>)
    ensures
        outcome(old(state)@.update_config(info.sender@, owner_check), old(state)@, final(state)@, r),
{
    check_owner(state, info)?;
    let new_owner = match owner_check {
        None => None,
        Some(Ok(a)) => Some(a),
        Some(Err(e)) => return Err(CustomError::Std(e)),
    };
    state.config.owner = new_owner;
    Ok(action_only("update_config"))
}

/// The owner sets the reward and lock parameters and whether the contract
/// is enabled.
pub fn execute_update_constants(
    state: &mut Contract,
    info: &MessageInfo,
    daily_reward_amount: u128,
    apy_prefix: u128,
    reward_interval: u64,
    lock_days: u64,
    enabled: bool,
) -> (r: Result<Reply, CustomError>)
    ensures
        outcome(
            old(state)@.update_constants(
                info.sender@,
                daily_reward_amount,
                apy_prefix,
                reward_interval,
                lock_days,
                enabled,
            ),
            old(state)@,
            final(state)@,
            r,
        ),
{
    check_owner(state, info)?;
    state.config.daily_reward_amount = daily_reward_amount;
    state.config.apy_prefix = apy_prefix;
    state.config.reward_interval = reward_interval;
    state.config.lock_days = lock_days;
    state.config.enabled = enabled;
    Ok(action_only("update_constants"))
}

/// The owner writes the given stakers' records, in order.
pub fn execute_add_stakers(state: &mut Contract, info: &MessageInfo, stakers: Vec<StakerInfo>) -> (r:
    Result<Reply, CustomError>)
    ensures
        outcome(old(state)@.add_stakers(info.sender@, stakers@), old(state)@, final(state)@, r),
{
    check_owner(state, info)?;
    let n = stakers.len();
    let mut i: usize = 0;
    assert(stakers@.take(0) =~= Seq::<StakerInfo>::empty());
    while i < n
        invariant
            n == stakers@.len(),
            i <= n,
            state.config == old(state).config,
            state.unstaking@ == old(state).unstaking@,
            state.stakers@ == insert_all(old(state).stakers@, stakers@.take(i as int)),
        decreases n - i,
    {
        let s = &stakers[i];
        state.stakers.insert(s.address.clone(), (s.amount, s.reward, s.last_time));
        assert(stakers@.take(i + 1).drop_last() =~= stakers@.take(i as int));
        i = i + 1;
    }
    assert(stakers@.take(n as int) =~= stakers@);
    Ok(action_only("add_stakers"))
}

/// The owner removes one staker's record.
pub fn execute_remove_staker(state: &mut Contract, info: &MessageInfo, address: String) -> (r: Result<
    Reply,
    CustomError,
>)
    ensures
        outcome(old(state)@.remove_staker(info.sender@, address@), old(state)@, final(state)@, r),
{
    check_owner(state, info)?;
    state.stakers.remove(&address);
    Ok(action_only("remove_staker"))
}

/// The owner removes the records of all stakers after `start_after`, or of
/// all stakers. `start_check` is what validating `start_after` gave,
/// `None` for none.
pub fn execute_remove_all_stakers(
    state: &mut Contract,
    info: &MessageInfo,
    start_check: Option<Result<String, String>>,
    _limit: Option<u32>,
) -> (r: Result<Reply, CustomError>)
    ensures
        outcome(old(state)@.remove_all_stakers(info.sender@, start_check), old(state)@, final(state)@, r),
{
    check_owner(state, info)?;
    match start_check {
        None => state.stakers.clear(),
        Some(Ok(a)) => state.stakers.retain_up_to(&a),
        Some(Err(e)) => {
            return Err(CustomError::Std(e));
        },
    }
    Ok(action_only("remove_all_stakers"))
}

/// Starts a contract. `owner_check` is what validating `msg.owner` gave,
/// `None` where `msg.owner` is `None`; the sender owns the contract then.
pub fn instantiate(
    _env: &Env,
    info: &MessageInfo,
    msg: InstantiateMsg,
    owner_check: Option<Result<String, String>>,
) -> (r: Result<Contract, CustomError>)
    ensures
        match owner_check {
            Some(Err(e)) => r matches Err(err) && err@ == ErrorView::Std(e@),
            _ => r matches Ok(c) && c@ == (Model {
                config: initial_config(info.sender, msg, owner_check),
                stakers: Map::empty(),
                unstaking: Map::empty(),
            }),
        },
{
    let owner = match owner_check {
        None => info.sender.clone(),
        Some(Ok(a)) => a,
        Some(Err(e)) => return Err(CustomError::Std(e)),
    };
    let config = Config {
        owner: Some(owner),
        reward_token_address: msg.reward_token_address,
        stake_token_address: msg.stake_token_address,
        reward_amount: 0,
        stake_amount: 0,
        daily_reward_amount: msg.daily_reward_amount,
        apy_prefix: msg.apy_prefix,
        reward_interval: msg.reward_interval,
        lock_days: msg.lock_days,
        enabled: true,
    };
    let c = Contract { config, stakers: AddrMap::new(), unstaking: AddrMap::new() };
    assert(c@.unstaking =~= Map::<Seq<char>, Seq<Unstake>>::empty());
    Ok(c)
}

/// Executes `msg` sent by `info.sender` in the block `env`. `checked` is
/// what validating the address that `msg` carries gave
/// (see `ExecuteMsg::address_to_validate`).
pub fn execute(
    state: &mut Contract,
    env: &Env,
    info: &MessageInfo,
    msg: ExecuteMsg,
    checked: Option<Result<String, String>>,
) -> (r: Result<Reply, CustomError>)
    requires
        checked_fits(msg, checked),
        old(state)@.execute_within_limits(env.block_time, info.sender@, msg, checked),
    ensures
        outcome(
            old(state)@.execute(env.block_time, info.sender@, msg, checked),
            old(state)@,
            final(state)@,
            r,
        ),
{
    match msg {
        ExecuteMsg::UpdateConfig { .. } => execute_update_config(state, info, checked),
        ExecuteMsg::UpdateConstants {
            daily_reward_amount,
            apy_prefix,
            reward_interval,
            lock_days,
            enabled,
        } => execute_update_constants(
            state,
            info,
            daily_reward_amount,
            apy_prefix,
            reward_interval,
            lock_days,
            enabled,
        ),
        ExecuteMsg::Receive(w) => match checked {
            Some(c) => try_receive(state, env, info, w, c),
            None => vstd::pervasive::unreached(),
        },
        ExecuteMsg::WithdrawReward {} => try_withdraw_reward(state, info),
        ExecuteMsg::WithdrawStake {} => try_withdraw_stake(state, info),
        ExecuteMsg::ClaimReward {} => try_claim_reward(state, env, info),
        ExecuteMsg::CreateUnstake { unstake_amount } => try_create_unstake(state, env, info, unstake_amount),
        ExecuteMsg::FetchUnstake { index } => try_fetch_unstake(state, env, info, index),
        ExecuteMsg::AddStakers { stakers } => execute_add_stakers(state, info, stakers),
        ExecuteMsg::RemoveStaker { address } => execute_remove_staker(state, info, address),
        ExecuteMsg::RemoveAllStakers { limit, .. } => execute_remove_all_stakers(state, info, checked, limit),
    }
}

/// Whether executing `msg` stays within the machine's integers; where it
/// does not, the contract aborts the transaction instead of executing it.
pub fn within_limits(
    state: &Contract,
    env: &Env,
    info: &MessageInfo,
    msg: &ExecuteMsg,
    checked: &Option<Result<String, String>>,
) -> (b: bool)
    ensures
        b == state@.execute_within_limits(env.block_time, info.sender@, *msg, *checked),
{
    let now = env.block_time;
    match msg {
        ExecuteMsg::Receive(w) => match checked {
            Some(Ok(user)) => {
                if !state.config.enabled || w.amount == 0 {
                    true
                } else if info.sender == state.config.stake_token_address {
                    let rec = record_at(&state.stakers, user);
                    accrue_checked(&state.config, rec, now).is_some() && rec.0.checked_add(
                        w.amount,
                    ).is_some() && state.config.stake_amount.checked_add(w.amount).is_some()
                } else if info.sender == state.config.reward_token_address {
                    state.config.reward_amount.checked_add(w.amount).is_some()
                } else {
                    true
                }
            },
            _ => true,
        },
        ExecuteMsg::ClaimReward {} | ExecuteMsg::FetchUnstake { .. } => {
            !state.config.enabled || accrue_checked(
                &state.config,
                record_at(&state.stakers, &info.sender),
                now,
            ).is_some()
        },
        ExecuteMsg::CreateUnstake { unstake_amount } => {
            if !state.config.enabled {
                true
            } else {
                let rec = record_at(&state.stakers, &info.sender);
                if accrue_checked(&state.config, rec, now).is_none() {
                    false
                } else if *unstake_amount == 0 || rec.0 < *unstake_amount || state.config.stake_amount
                    < *unstake_amount {
                    true
                } else {
                    match state.config.lock_days.checked_mul(SECONDS_PER_DAY) {
                        Some(lock) => now.checked_add(lock).is_some(),
                        None => false,
                    }
                }
            }
        },
        _ => true,
    }
}

/// The configuration, as queried.
pub open spec fn config_response(c: Config) -> ConfigResponse {
    ConfigResponse {
        owner: c.owner,
        reward_token_address: c.reward_token_address,
        stake_token_address: c.stake_token_address,
        reward_amount: c.reward_amount,
        stake_amount: c.stake_amount,
        daily_reward_amount: c.daily_reward_amount,
        apy_prefix: c.apy_prefix,
        reward_interval: c.reward_interval,
        lock_days: c.lock_days,
    }
}

/// The configuration.
pub fn query_config(state: &Contract) -> (r: ConfigResponse)
    ensures
        r == config_response(state.config),
{
    let c = &state.config;
    let owner = match &c.owner {
        Some(o) => Some(o.clone()),
        None => None,
    };
    ConfigResponse {
        owner,
        reward_token_address: c.reward_token_address.clone(),
        stake_token_address: c.stake_token_address.clone(),
        reward_amount: c.reward_amount,
        stake_amount: c.stake_amount,
        daily_reward_amount: c.daily_reward_amount,
        apy_prefix: c.apy_prefix,
        reward_interval: c.reward_interval,
        lock_days: c.lock_days,
    }
}

/// One staker's record; zeros for an address without one.
pub fn query_staker(state: &Contract, address: String) -> (r: StakerResponse)
    ensures
        r.address == address,
        (r.amount, r.reward, r.last_time) == record_of(state@.stakers, address@),
{
    let (amount, reward, last_time) = record_at(&state.stakers, &address);
    StakerResponse { address, amount, reward, last_time }
}

/// The unstakes pending for `address`, oldest first; none for an address
/// without any.
pub fn query_unstaking(state: &Contract, address: String) -> (r: Vec<Unstake>)
    ensures
        r@ == pending_of(state@.unstaking, address@),
{
    let mut out: Vec<Unstake> = Vec::new();
    match state.unstaking.get(&address) {
        None => {},
        Some(list) => {
            let n = list.len();
            let mut i: usize = 0;
            while i < n
                invariant
                    n == list@.len(),
                    i <= n,
                    out@ =~= list@.take(i as int),
                decreases n - i,
            {
                out.push(list[i]);
                i = i + 1;
            }
            assert(list@.take(n as int) =~= list@);
        },
    }
    out
}

/// A staker listed from an entry of the stakers.
fn map_staker(item: (String, StakeRecord)) -> (r: StakerInfo)
    ensures
        r.address == item.0,
        (r.amount, r.reward, r.last_time) == item.1,
{
    let (address, (amount, reward, last_time)) = item;
    StakerInfo { address, amount, reward, last_time }
}

/// A staker as an entry of the stakers.
pub open spec fn staker_entry(s: StakerInfo) -> (String, StakeRecord) {
    (s.address, (s.amount, s.reward, s.last_time))
}

/// Stakers as entries of the stakers.
pub open spec fn staker_entries(s: Seq<StakerInfo>) -> Seq<(String, StakeRecord)> {
    s.map_values(|x: StakerInfo| staker_entry(x))
}

/// Up to `limit` stakers (ten if none is given, at most thirty) after the
/// address `start_after`, in increasing key order. `start_check` is what
/// validating `start_after` gave, `None` for none; its error is returned.
pub fn query_list_stakers(
    state: &Contract,
    start_check: Option<Result<String, String>>,
    limit: Option<u32>,
) -> (r: Result<StakerListResponse, String>)
    ensures
        match start_check {
            Some(Err(e)) => r == Err::<StakerListResponse, String>(e),
            _ => r matches Ok(resp) && is_page(
                state@.stakers,
                bound_of(new_owner(start_check)),
                page_limit(limit),
                staker_entries(resp.stakers@),
            ),
        },
{
    let l = match limit {
        Some(l) => l,
        None => DEFAULT_LIMIT,
    };
    let l = if l < MAX_LIMIT {
        l
    } else {
        MAX_LIMIT
    };
    let start = match start_check {
        None => None,
        Some(Ok(a)) => Some(a),
        Some(Err(e)) => return Err(e),
    };
    let page = state.stakers.page(&start, l as usize);
    let n = page.len();
    let mut stakers: Vec<StakerInfo> = Vec::new();
    let mut i: usize = 0;
    while i < n
        invariant
            n == page@.len(),
            i <= n,
            stakers@.len() == i,
            forall|j: int| 0 <= j < i ==> staker_entry(#[trigger] stakers@[j]) == page@[j],
        decreases n - i,
    {
        let entry = &page[i];
        let staker = map_staker((entry.0.clone(), entry.1));
        stakers.push(staker);
        i = i + 1;
    }
    assert(staker_entries(stakers@) =~= page@);
    Ok(StakerListResponse { stakers })
}

/// The annual yield, times `MULTIPLE`; zero while nothing is staked.
/// `supply` is what querying the stake token's total supply gave; its error
/// is returned.
pub fn query_apy(state: &Contract, supply: Result<u128, String>) -> (r: Result<u128, String>)
    requires
        supply is Ok ==> apy_within_limits(state.config),
    ensures
        state.config.stake_amount == 0 ==> r == Ok::<u128, String>(0),
        state.config.stake_amount > 0 ==> match supply {
            Ok(s) => r matches Ok(v) && v == apy(state.config, s),
            Err(e) => r == Err::<u128, String>(e),
        },
{
    let total_staked = state.config.stake_amount;
    if total_staked == 0 {
        return Ok(0);
    }
    let supply = match supply {
        Ok(s) => s,
        Err(e) => return Err(e),
    };
    let rate = supply / MULTIPLE + 10000;
    let scaled = state.config.apy_prefix * MULTIPLE * MULTIPLE;
    Ok(scaled / rate / total_staked)
}

/// Whether the yield depends on the stake token's supply: it does not while
/// nothing is staked.
pub fn needs_supply(state: &Contract) -> (b: bool)
    ensures
        b == (state.config.stake_amount > 0),
{
    state.config.stake_amount > 0
}

/// Whether computing the yield stays within the machine's integers; where it
/// does not, the contract aborts the query.
pub fn apy_fits(state: &Contract) -> (b: bool)
    ensures
        b == apy_within_limits(state.config),
{
    if state.config.stake_amount == 0 {
        return true;
    }
    match state.config.apy_prefix.checked_mul(MULTIPLE) {
        Some(x) => x.checked_mul(MULTIPLE).is_some(),
        None => false,
    }
}

impl Contract {
    /// A contract with the given configuration, stakers and pending
    /// unstakes; where an address occurs twice, its last entry counts.
    pub fn from_parts(config: Config, stakers: Vec<StakerInfo>, unstaking: Vec<(String, Vec<Unstake>)>) -> (c:
        Contract)
        ensures
            c@ == (Model {
                config,
                stakers: insert_all(Map::empty(), stakers@),
                unstaking: insert_all_pending(Map::empty(), unstaking@),
            }),
    {
        let mut staker_map: AddrMap<StakeRecord> = AddrMap::new();
        let n = stakers.len();
        let mut i: usize = 0;
        while i < n
            invariant
                n == stakers@.len(),
                i <= n,
                staker_map@ == insert_all(Map::empty(), stakers@.take(i as int)),
            decreases n - i,
        {
            let s = &stakers[i];
            staker_map.insert(s.address.clone(), (s.amount, s.reward, s.last_time));
            assert(stakers@.take(i + 1).drop_last() =~= stakers@.take(i as int));
            i = i + 1;
        }
        assert(stakers@.take(n as int) =~= stakers@);
        let mut pending: AddrMap<Vec<Unstake>> = AddrMap::new();
        let ghost all = unstaking@;
        let m = unstaking.len();
        let mut rest = unstaking;
        let mut taken: Vec<(String, Vec<Unstake>)> = Vec::new();
        let mut j: usize = 0;
        assert(all.take(0) =~= Seq::<(String, Vec<Unstake>)>::empty());
        assert(seq_values(pending@) =~= Map::<Seq<char>, Seq<Unstake>>::empty());
        while j < m
            invariant
                m == all.len(),
                j <= m,
                rest@ == all.skip(j as int),
                seq_values(pending@) == insert_all_pending(Map::empty(), all.take(j as int)),
            decreases m - j,
        {
            let ghost before = pending@;
            let (k, v) = rest.remove(0);
            proof {
                assert(all.skip(j as int)[0] == all[j as int]);
            }
            let ghost kv = k@;
            let ghost vv = v;
            pending.insert(k, v);
            proof {
                crate::state::lemma_seq_values_insert(before, kv, vv);
                assert(all.take(j + 1).drop_last() =~= all.take(j as int));
                assert(all.skip(j as int).remove(0) =~= all.skip(j + 1));
            }
            j = j + 1;
        }
        assert(all.take(m as int) =~= all);
        Contract { config, stakers: staker_map, unstaking: pending }
    }

    /// The configuration, the stakers and the pending unstakes, each in
    /// increasing key order.
    pub fn into_parts(self) -> (r: (Config, Vec<StakerInfo>, Vec<(String, Vec<Unstake>)>))
        ensures
            r.0 == self.config,
            sorted_entries(staker_entries(r.1@)),
            entries_map(staker_entries(r.1@)) == self@.stakers,
            sorted_entries(r.2@),
            seq_values(entries_map(r.2@)) == self@.unstaking,
    {
        let entries = self.stakers.into_entries();
        let n = entries.len();
        let mut stakers: Vec<StakerInfo> = Vec::new();
        let mut i: usize = 0;
        while i < n
            invariant
                n == entries@.len(),
                i <= n,
                stakers@.len() == i,
                forall|j: int| 0 <= j < i ==> staker_entry(#[trigger] stakers@[j]) == entries@[j],
            decreases n - i,
        {
            let e = &entries[i];
            stakers.push(map_staker((e.0.clone(), e.1)));
            i = i + 1;
        }
        assert(staker_entries(stakers@) =~= entries@);
        (self.config, stakers, self.unstaking.into_entries())
    }
}

} // verus!
