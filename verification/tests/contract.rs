use lp_staking::contract::{
    apy_fits, execute, instantiate, query_apy, query_config, query_list_stakers, query_staker,
    query_unstaking, try_claim_reward, try_receive, update_reward, within_limits,
};
use lp_staking::error::CustomError;
use lp_staking::msg::{Env, ExecuteMsg, InstantiateMsg, MessageInfo, ReceiveMsg};
use lp_staking::reply::{Attribute, Reply};
use lp_staking::state::{Contract, StakerInfo};

const DAY: u64 = 86400;

fn info(sender: &str) -> MessageInfo {
    MessageInfo { sender: sender.to_string() }
}

fn env(t: u64) -> Env {
    Env { block_time: t }
}

fn attrs(pairs: &[(&str, &str)]) -> Vec<Attribute> {
    pairs
        .iter()
        .map(|(k, v)| Attribute { key: k.to_string(), value: v.to_string() })
        .collect()
}

fn setup() -> Contract {
    let msg = InstantiateMsg {
        owner: None,
        reward_token_address: "reward".to_string(),
        stake_token_address: "lp".to_string(),
        daily_reward_amount: 1000,
        apy_prefix: 5,
        reward_interval: DAY,
        lock_days: 3,
        enabled: false,
    };
    instantiate(&env(0), &info("owner"), msg, None).unwrap()
}

/// Runs a message as the entry point does: validation stands in for the
/// chain's address check, which accepts every address.
fn run(state: &mut Contract, t: u64, sender: &str, msg: ExecuteMsg) -> Result<Reply, CustomError> {
    let checked = msg.address_to_validate().map(Ok);
    assert!(within_limits(state, &env(t), &info(sender), &msg, &checked));
    execute(state, &env(t), &info(sender), msg, checked)
}

fn receive(sender: &str, amount: u128) -> ExecuteMsg {
    ExecuteMsg::Receive(ReceiveMsg { sender: sender.to_string(), amount, msg: vec![] })
}

fn transfer_json(recipient: &str, amount: u128) -> Vec<u8> {
    format!("{{\"transfer\":{{\"recipient\":\"{}\",\"amount\":\"{}\"}}}}", recipient, amount).into_bytes()
}

#[test]
fn instantiate_defaults_owner_and_enables() {
    let c = setup();
    assert_eq!(c.config.owner, Some("owner".to_string()));
    assert!(c.config.enabled);
    assert_eq!(c.config.stake_amount, 0);
    assert_eq!(c.config.reward_amount, 0);
    let cfg = query_config(&c);
    assert_eq!(cfg.reward_token_address, "reward");
    assert_eq!(cfg.stake_token_address, "lp");
    assert_eq!(cfg.daily_reward_amount, 1000);
    assert_eq!(cfg.lock_days, 3);
}

#[test]
fn instantiate_with_owner_and_invalid_owner() {
    let msg = InstantiateMsg {
        owner: Some("boss".to_string()),
        reward_token_address: "reward".to_string(),
        stake_token_address: "lp".to_string(),
        daily_reward_amount: 1,
        apy_prefix: 1,
        reward_interval: 1,
        lock_days: 1,
        enabled: true,
    };
    let c = instantiate(&env(0), &info("owner"), msg.clone(), Some(Ok("boss".to_string()))).unwrap();
    assert_eq!(c.config.owner, Some("boss".to_string()));
    let e = instantiate(&env(0), &info("owner"), msg, Some(Err("invalid address".to_string())));
    assert_eq!(e.err(), Some(CustomError::Std("invalid address".to_string())));
}

#[test]
fn stake_records_amount_and_replies() {
    let mut c = setup();
    let r = run(&mut c, 100_000, "lp", receive("alice", 100)).unwrap();
    assert!(r.messages.is_empty());
    assert_eq!(r.attributes, attrs(&[("action", "stake"), ("address", "alice"), ("amount", "100")]));
    assert_eq!(c.config.stake_amount, 100);
    let s = query_staker(&c, "alice".to_string());
    assert_eq!((s.amount, s.reward, s.last_time), (100, 0, 100_000));
}

#[test]
fn fund_adds_reward_tokens() {
    let mut c = setup();
    let r = run(&mut c, 5, "reward", receive("funder", 5000)).unwrap();
    assert_eq!(r.attributes, attrs(&[("action", "fund"), ("address", "funder"), ("amount", "5000")]));
    assert_eq!(c.config.reward_amount, 5000);
    assert_eq!(query_staker(&c, "funder".to_string()).amount, 0);
}

#[test]
fn receive_refusals() {
    let mut c = setup();
    assert_eq!(run(&mut c, 1, "other", receive("alice", 10)).err(), Some(CustomError::UnacceptableToken {}));
    assert_eq!(run(&mut c, 1, "lp", receive("alice", 0)).err(), Some(CustomError::InvalidInput {}));
    let r = try_receive(
        &mut c,
        &env(1),
        &info("lp"),
        ReceiveMsg { sender: "bad".to_string(), amount: 10, msg: vec![] },
        Err("Invalid input: human address too short".to_string()),
    );
    assert_eq!(r.err(), Some(CustomError::Std("Invalid input: human address too short".to_string())));
    assert_eq!(c.config.stake_amount, 0);
}

#[test]
fn disabled_contract_refuses_staker_requests() {
    let mut c = setup();
    run(
        &mut c,
        1,
        "owner",
        ExecuteMsg::UpdateConstants {
            daily_reward_amount: 1,
            apy_prefix: 1,
            reward_interval: 1,
            lock_days: 1,
            enabled: false,
        },
    )
    .unwrap();
    assert_eq!(run(&mut c, 2, "lp", receive("alice", 10)).err(), Some(CustomError::Disabled {}));
    assert_eq!(run(&mut c, 2, "alice", ExecuteMsg::ClaimReward {}).err(), Some(CustomError::Disabled {}));
    assert_eq!(
        run(&mut c, 2, "alice", ExecuteMsg::CreateUnstake { unstake_amount: 1 }).err(),
        Some(CustomError::Disabled {})
    );
    assert_eq!(run(&mut c, 2, "alice", ExecuteMsg::FetchUnstake { index: 0 }).err(), Some(CustomError::Disabled {}));
}

#[test]
fn reward_accrues_per_period_and_is_claimed_once() {
    let mut c = setup();
    run(&mut c, 10, "reward", receive("funder", 5000)).unwrap();
    run(&mut c, 100_000, "lp", receive("alice", 100)).unwrap();
    run(&mut c, 100_000, "lp", receive("bob", 300)).unwrap();
    // Two periods later alice holds a quarter of the stake: 1000 * 2 * 100 / 400.
    let t = 100_000 + 2 * DAY;
    let r = run(&mut c, t, "alice", ExecuteMsg::ClaimReward {}).unwrap();
    assert_eq!(r.attributes, attrs(&[("action", "claim_reward"), ("address", "alice"), ("reward_amount", "500")]));
    assert_eq!(r.messages.len(), 1);
    assert_eq!(r.messages[0].contract_addr, "reward");
    assert_eq!(r.messages[0].msg, transfer_json("alice", 500));
    assert_eq!(c.config.reward_amount, 4500);
    let s = query_staker(&c, "alice".to_string());
    assert_eq!((s.amount, s.reward, s.last_time), (100, 0, t));
    assert_eq!(run(&mut c, t, "alice", ExecuteMsg::ClaimReward {}).err(), Some(CustomError::NoReward {}));
}

#[test]
fn claim_without_enough_reward_tokens() {
    let mut c = setup();
    run(&mut c, 100_000, "lp", receive("alice", 100)).unwrap();
    let r = try_claim_reward(&mut c, &env(100_000 + DAY), &info("alice"));
    assert_eq!(r.err(), Some(CustomError::NotEnoughReward {}));
    // A refused request changes nothing.
    assert_eq!(query_staker(&c, "alice".to_string()).last_time, 100_000);
}

#[test]
fn unstake_then_fetch_after_lock() {
    let mut c = setup();
    run(&mut c, 100_000, "lp", receive("alice", 100)).unwrap();
    let r = run(&mut c, 100_000, "alice", ExecuteMsg::CreateUnstake { unstake_amount: 40 }).unwrap();
    assert_eq!(
        r.attributes,
        attrs(&[("action", "create_unstake"), ("address", "alice"), ("stake_amount", "100")])
    );
    assert_eq!(query_staker(&c, "alice".to_string()).amount, 60);
    assert_eq!(c.config.stake_amount, 60);
    let unlock = 100_000 + 3 * DAY;
    assert_eq!(query_unstaking(&c, "alice".to_string()), vec![(40, unlock)]);
    assert_eq!(
        run(&mut c, unlock - 1, "alice", ExecuteMsg::FetchUnstake { index: 0 }).err(),
        Some(CustomError::StillLocked {})
    );
    assert_eq!(
        run(&mut c, unlock, "alice", ExecuteMsg::FetchUnstake { index: 1 }).err(),
        Some(CustomError::NotCreatedUnstaking {})
    );
    let r = run(&mut c, unlock, "alice", ExecuteMsg::FetchUnstake { index: 0 }).unwrap();
    assert_eq!(r.attributes, attrs(&[("action", "fetch_unstake"), ("address", "alice"), ("stake_amount", "40")]));
    assert_eq!(r.messages[0].contract_addr, "lp");
    assert_eq!(r.messages[0].msg, transfer_json("alice", 40));
    assert_eq!(c.config.stake_amount, 20);
    assert_eq!(query_unstaking(&c, "alice".to_string()), vec![]);
}

#[test]
fn unstake_refusals() {
    let mut c = setup();
    run(&mut c, 100_000, "lp", receive("alice", 100)).unwrap();
    assert_eq!(
        run(&mut c, 100_000, "alice", ExecuteMsg::CreateUnstake { unstake_amount: 0 }).err(),
        Some(CustomError::InvalidInput {})
    );
    assert_eq!(
        run(&mut c, 100_000, "alice", ExecuteMsg::CreateUnstake { unstake_amount: 101 }).err(),
        Some(CustomError::NotEnoughStake {})
    );
    assert_eq!(
        run(&mut c, 100_000, "bob", ExecuteMsg::FetchUnstake { index: 0 }).err(),
        Some(CustomError::NotCreatedUnstaking {})
    );
}

#[test]
fn owner_withdrawals() {
    let mut c = setup();
    run(&mut c, 1, "reward", receive("funder", 700)).unwrap();
    run(&mut c, 1, "lp", receive("alice", 90)).unwrap();
    assert_eq!(run(&mut c, 2, "alice", ExecuteMsg::WithdrawReward {}).err(), Some(CustomError::Unauthorized {}));
    let r = run(&mut c, 2, "owner", ExecuteMsg::WithdrawReward {}).unwrap();
    assert_eq!(r.attributes, attrs(&[("action", "reward_withdraw_all"), ("address", "owner"), ("reward_amount", "700")]));
    assert_eq!(r.messages[0].msg, transfer_json("owner", 700));
    assert_eq!(c.config.reward_amount, 0);
    let r = run(&mut c, 2, "owner", ExecuteMsg::WithdrawStake {}).unwrap();
    assert_eq!(r.attributes, attrs(&[("action", "stake_withdraw_all"), ("address", "owner"), ("stake_amount", "90")]));
    assert_eq!(r.messages[0].contract_addr, "lp");
    assert_eq!(c.config.stake_amount, 0);
}

#[test]
fn dropping_the_owner_freezes_the_contract() {
    let mut c = setup();
    let r = run(&mut c, 1, "owner", ExecuteMsg::UpdateConfig { new_owner: Some("next".to_string()) }).unwrap();
    assert_eq!(r.attributes, attrs(&[("action", "update_config")]));
    assert_eq!(c.config.owner, Some("next".to_string()));
    assert_eq!(
        run(&mut c, 1, "owner", ExecuteMsg::UpdateConfig { new_owner: None }).err(),
        Some(CustomError::Unauthorized {})
    );
    run(&mut c, 1, "next", ExecuteMsg::UpdateConfig { new_owner: None }).unwrap();
    assert_eq!(c.config.owner, None);
    assert_eq!(run(&mut c, 1, "next", ExecuteMsg::WithdrawStake {}).err(), Some(CustomError::Unauthorized {}));
}

#[test]
fn add_list_and_remove_stakers() {
    let mut c = setup();
    let staker = |a: &str, amount: u128| StakerInfo { address: a.to_string(), amount, reward: 1, last_time: 2 };
    let r = run(
        &mut c,
        1,
        "owner",
        ExecuteMsg::AddStakers {
            stakers: vec![staker("carol", 3), staker("alice", 1), staker("Bob", 2), staker("carol", 4)],
        },
    )
    .unwrap();
    assert_eq!(r.attributes, attrs(&[("action", "add_stakers")]));
    assert_eq!(query_staker(&c, "carol".to_string()).amount, 4);
    // Keys are ordered by their bytes: upper case before lower case.
    let page = query_list_stakers(&c, None, None).unwrap();
    let names: Vec<&str> = page.stakers.iter().map(|s| s.address.as_str()).collect();
    assert_eq!(names, vec!["Bob", "alice", "carol"]);
    let page = query_list_stakers(&c, Some(Ok("Bob".to_string())), Some(1)).unwrap();
    assert_eq!(page.stakers, vec![staker("alice", 1)]);
    assert_eq!(
        query_list_stakers(&c, Some(Err("bad".to_string())), None).err(),
        Some("bad".to_string())
    );
    run(&mut c, 1, "owner", ExecuteMsg::RemoveStaker { address: "alice".to_string() }).unwrap();
    let s = query_staker(&c, "alice".to_string());
    assert_eq!((s.amount, s.reward, s.last_time), (0, 0, 0));
    run(&mut c, 1, "owner", ExecuteMsg::RemoveAllStakers { start_after: Some("Bob".to_string()), limit: None }).unwrap();
    let names: Vec<String> = query_list_stakers(&c, None, None).unwrap().stakers.into_iter().map(|s| s.address).collect();
    assert_eq!(names, vec!["Bob".to_string()]);
    run(&mut c, 1, "owner", ExecuteMsg::RemoveAllStakers { start_after: None, limit: Some(3) }).unwrap();
    assert!(query_list_stakers(&c, None, None).unwrap().stakers.is_empty());
}

#[test]
fn list_limits() {
    let mut c = setup();
    let stakers: Vec<StakerInfo> = (0..40)
        .map(|i| StakerInfo { address: format!("addr{:02}", i), amount: i, reward: 0, last_time: 0 })
        .collect();
    run(&mut c, 1, "owner", ExecuteMsg::AddStakers { stakers }).unwrap();
    assert_eq!(query_list_stakers(&c, None, None).unwrap().stakers.len(), 10);
    assert_eq!(query_list_stakers(&c, None, Some(100)).unwrap().stakers.len(), 30);
    let page = query_list_stakers(&c, Some(Ok("addr35".to_string())), Some(100)).unwrap();
    assert_eq!(page.stakers.len(), 4);
    assert_eq!(page.stakers[0].address, "addr36");
}

#[test]
fn apy_formula() {
    let mut c = setup();
    assert_eq!(query_apy(&c, Err("unused".to_string())), Ok(0));
    run(&mut c, 1, "lp", receive("alice", 100)).unwrap();
    assert!(apy_fits(&c));
    // rate = 10^14 / 10^10 + 10^4 = 20000; 5 * 10^20 / 20000 / 100.
    assert_eq!(query_apy(&c, Ok(100_000_000_000_000)), Ok(250_000_000_000_000));
    assert_eq!(query_apy(&c, Err("no token".to_string())), Err("no token".to_string()));
}

#[test]
fn limits_reported() {
    let mut c = setup();
    run(&mut c, 100_000, "lp", receive("alice", 100)).unwrap();
    run(
        &mut c,
        100_000,
        "owner",
        ExecuteMsg::UpdateConstants {
            daily_reward_amount: 1,
            apy_prefix: u128::MAX,
            reward_interval: 0,
            lock_days: u64::MAX,
            enabled: true,
        },
    )
    .unwrap();
    let none = None;
    assert!(!within_limits(&c, &env(1), &info("alice"), &ExecuteMsg::ClaimReward {}, &none));
    assert!(!apy_fits(&c));
    assert!(within_limits(&c, &env(1), &info("alice"), &ExecuteMsg::WithdrawStake {}, &none));
}

#[test]
fn addresses_to_validate() {
    assert_eq!(receive("alice", 1).address_to_validate(), Some("alice".to_string()));
    assert_eq!(ExecuteMsg::UpdateConfig { new_owner: None }.address_to_validate(), None);
    assert_eq!(
        ExecuteMsg::RemoveAllStakers { start_after: Some("x".to_string()), limit: None }.address_to_validate(),
        Some("x".to_string())
    );
    assert_eq!(ExecuteMsg::ClaimReward {}.address_to_validate(), None);
}

#[test]
fn parts_round_trip_in_key_order() {
    let mut c = setup();
    run(&mut c, 100_000, "lp", receive("zed", 5)).unwrap();
    run(&mut c, 100_000, "lp", receive("amy", 7)).unwrap();
    run(&mut c, 100_000, "amy", ExecuteMsg::CreateUnstake { unstake_amount: 2 }).unwrap();
    let (config, stakers, pending) = c.into_parts();
    assert_eq!(stakers.iter().map(|s| s.address.clone()).collect::<Vec<_>>(), vec!["amy", "zed"]);
    assert_eq!(pending.len(), 1);
    let c2 = Contract::from_parts(config, stakers, pending);
    assert_eq!(query_staker(&c2, "amy".to_string()).amount, 5);
    assert_eq!(query_unstaking(&c2, "amy".to_string()).len(), 1);
}

#[test]
fn zero_amount_formats_as_zero() {
    let mut c = setup();
    let r = run(&mut c, 2, "owner", ExecuteMsg::WithdrawReward {}).unwrap();
    assert_eq!(r.attributes[2].value, "0");
}

#[test]
fn withdrawn_rewards_cannot_be_claimed() {
    let mut c = setup();
    run(&mut c, 10, "reward", receive("funder", 5000)).unwrap();
    run(&mut c, 100_000, "lp", receive("alice", 100)).unwrap();
    run(&mut c, 100_000, "owner", ExecuteMsg::WithdrawReward {}).unwrap();
    assert_eq!(
        run(&mut c, 100_000 + DAY, "alice", ExecuteMsg::ClaimReward {}).err(),
        Some(CustomError::NotEnoughReward {})
    );
}

#[test]
fn pages_continue_after_last_address() {
    let mut c = setup();
    let stakers: Vec<StakerInfo> = (0..7)
        .map(|i| StakerInfo { address: format!("s{}", i), amount: i, reward: 0, last_time: 0 })
        .collect();
    run(&mut c, 1, "owner", ExecuteMsg::AddStakers { stakers }).unwrap();
    let first = query_list_stakers(&c, None, Some(3)).unwrap().stakers;
    let next = query_list_stakers(&c, Some(Ok(first[2].address.clone())), Some(3)).unwrap().stakers;
    let both = query_list_stakers(&c, None, Some(6)).unwrap().stakers;
    let mut joined = first.clone();
    joined.extend(next);
    assert_eq!(joined, both);
}

#[test]
fn update_reward_twice_is_once() {
    let mut c = setup();
    run(&mut c, 100_000, "lp", receive("alice", 100)).unwrap();
    let t = 100_000 + 5 * DAY;
    update_reward(&mut c, &env(t), &"alice".to_string(), None).unwrap();
    let once = query_staker(&c, "alice".to_string());
    update_reward(&mut c, &env(t), &"alice".to_string(), None).unwrap();
    assert_eq!(query_staker(&c, "alice".to_string()), once);
    assert_eq!((once.reward, once.last_time), (5000, t));
}

#[test]
fn staker_requests_leave_other_stakers_alone() {
    let mut c = setup();
    run(&mut c, 10, "reward", receive("funder", 5000)).unwrap();
    run(&mut c, 100_000, "lp", receive("alice", 100)).unwrap();
    run(&mut c, 100_000, "lp", receive("bob", 100)).unwrap();
    run(&mut c, 100_000, "bob", ExecuteMsg::CreateUnstake { unstake_amount: 10 }).unwrap();
    let bob = query_staker(&c, "bob".to_string());
    let bob_pending = query_unstaking(&c, "bob".to_string());
    let t = 100_000 + 4 * DAY;
    run(&mut c, t, "alice", ExecuteMsg::ClaimReward {}).unwrap();
    run(&mut c, t, "alice", ExecuteMsg::CreateUnstake { unstake_amount: 50 }).unwrap();
    run(&mut c, t, "lp", receive("alice", 7)).unwrap();
    assert_eq!(query_staker(&c, "bob".to_string()), bob);
    assert_eq!(query_unstaking(&c, "bob".to_string()), bob_pending);
}

#[test]
fn reward_counts_period_boundaries() {
    let mut c = setup();
    run(&mut c, 10, "reward", receive("funder", 5000)).unwrap();
    run(&mut c, DAY - 1, "lp", receive("alice", 100)).unwrap();
    // Two seconds later a new period has begun: one period of reward.
    update_reward(&mut c, &env(DAY + 1), &"alice".to_string(), None).unwrap();
    let s = query_staker(&c, "alice".to_string());
    assert_eq!((s.reward, s.last_time), (1000, DAY + 1));
    // Within the same period nothing more accrues.
    update_reward(&mut c, &env(2 * DAY - 1), &"alice".to_string(), None).unwrap();
    assert_eq!(query_staker(&c, "alice".to_string()).reward, 1000);
}

#[test]
fn added_staker_without_time_starts_now() {
    let mut c = setup();
    run(&mut c, 1, "lp", receive("bob", 100)).unwrap();
    run(
        &mut c,
        1,
        "owner",
        ExecuteMsg::AddStakers {
            stakers: vec![StakerInfo { address: "alice".to_string(), amount: 100, reward: 0, last_time: 0 }],
        },
    )
    .unwrap();
    update_reward(&mut c, &env(3 * DAY), &"alice".to_string(), None).unwrap();
    let s = query_staker(&c, "alice".to_string());
    assert_eq!((s.amount, s.reward, s.last_time), (100, 0, 3 * DAY));
}

#[test]
fn second_withdrawal_sends_nothing() {
    let mut c = setup();
    run(&mut c, 1, "reward", receive("funder", 300)).unwrap();
    run(&mut c, 2, "owner", ExecuteMsg::WithdrawReward {}).unwrap();
    let before = query_config(&c);
    let r = run(&mut c, 3, "owner", ExecuteMsg::WithdrawReward {}).unwrap();
    assert_eq!(r.messages[0].msg, transfer_json("owner", 0));
    assert_eq!(r.attributes[2].value, "0");
    assert_eq!(query_config(&c), before);
}

#[test]
fn fetching_the_new_unstake_restores_the_list() {
    let mut c = setup();
    run(&mut c, 100_000, "lp", receive("alice", 100)).unwrap();
    run(&mut c, 100_000, "alice", ExecuteMsg::CreateUnstake { unstake_amount: 10 }).unwrap();
    let before = query_unstaking(&c, "alice".to_string());
    run(&mut c, 200_000, "alice", ExecuteMsg::CreateUnstake { unstake_amount: 25 }).unwrap();
    let stake = c.config.stake_amount;
    let r = run(&mut c, 200_000 + 3 * DAY, "alice", ExecuteMsg::FetchUnstake { index: before.len() as u64 }).unwrap();
    assert_eq!(r.messages.len(), 1);
    assert_eq!(r.messages[0].msg, transfer_json("alice", 25));
    assert_eq!(query_unstaking(&c, "alice".to_string()), before);
    assert_eq!(c.config.stake_amount, stake - 25);
}

#[test]
fn apy_moves_with_stake_supply_and_prefix() {
    let mut c = setup();
    run(&mut c, 1, "lp", receive("alice", 100)).unwrap();
    let base = query_apy(&c, Ok(100_000_000_000_000)).unwrap();
    assert!(query_apy(&c, Ok(900_000_000_000_000)).unwrap() <= base);
    run(&mut c, 1, "lp", receive("bob", 100)).unwrap();
    assert!(query_apy(&c, Ok(100_000_000_000_000)).unwrap() <= base);
    c.config.stake_amount = 100;
    c.config.apy_prefix = 6;
    assert!(query_apy(&c, Ok(100_000_000_000_000)).unwrap() >= base);
}

#[test]
fn uneven_pages_join() {
    let mut c = setup();
    let stakers: Vec<StakerInfo> = (0..9)
        .map(|i| StakerInfo { address: format!("p{}", i), amount: i, reward: 0, last_time: 0 })
        .collect();
    run(&mut c, 1, "owner", ExecuteMsg::AddStakers { stakers }).unwrap();
    let first = query_list_stakers(&c, Some(Ok("p1".to_string())), Some(2)).unwrap().stakers;
    let next = query_list_stakers(&c, Some(Ok(first[1].address.clone())), Some(5)).unwrap().stakers;
    let whole = query_list_stakers(&c, Some(Ok("p1".to_string())), Some(7)).unwrap().stakers;
    let mut joined = first.clone();
    joined.extend(next);
    assert_eq!(joined, whole);
    assert_eq!(whole.len(), 7);
}
