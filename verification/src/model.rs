//! What each request does, stated over the mathematical view of the state.

use vstd::prelude::*;
use crate::addr_map::up_to;
use crate::error::ErrorView;
use crate::msg::ExecuteMsg;
use crate::reply::{cw20_transfer_json, decimal, ReplyView};
use crate::state::{Config, Model, StakeRecord, StakerInfo, Unstake};

verus! {

/// The outcome of a request: the next state and the reply, or the error.
/// A refused request leaves the state as it was.
pub type Step = Result<(Model, ReplyView), ErrorView>;

/// The seconds in a day.
pub const SECONDS_PER_DAY: u64 = 86400;

/// The record kept for `k`, or zeros.
pub open spec fn record_of(m: Map<Seq<char>, StakeRecord>, k: Seq<char>) -> StakeRecord {
    if m.contains_key(k) {
        m[k]
    } else {
        (0, 0, 0)
    }
}

/// The unstakes pending for `k`, or none.
pub open spec fn pending_of(m: Map<Seq<char>, Seq<Unstake>>, k: Seq<char>) -> Seq<Unstake> {
    if m.contains_key(k) {
        m[k]
    } else {
        Seq::empty()
    }
}

/// The time from which reward is counted: the record's, or `now` for a
/// record that has none yet.
pub open spec fn start_time(rec: StakeRecord, now: u64) -> u64 {
    if rec.2 == 0 {
        now
    } else {
        rec.2
    }
}

/// The number of reward periods that began since the record's time.
pub open spec fn periods(cfg: Config, rec: StakeRecord, now: u64) -> int {
    (now / cfg.reward_interval) as int - (start_time(rec, now) / cfg.reward_interval) as int
}

/// Whether reward accrues: something is staked in all, by this staker, and
/// a period began.
pub open spec fn accrues(cfg: Config, rec: StakeRecord, now: u64) -> bool {
    cfg.stake_amount > 0 && rec.0 > 0 && periods(cfg, rec, now) > 0
}

/// The reward earned: the daily amount per period, shared by stake.
pub open spec fn earned(cfg: Config, rec: StakeRecord, now: u64) -> int {
    cfg.daily_reward_amount * periods(cfg, rec, now) * rec.0 / (cfg.stake_amount as int)
}

/// The record once reward has been brought up to `now`.
pub open spec fn accrue(cfg: Config, rec: StakeRecord, now: u64) -> StakeRecord {
    if accrues(cfg, rec, now) {
        (rec.0, (rec.1 + earned(cfg, rec, now)) as u128, now)
    } else {
        (rec.0, rec.1, start_time(rec, now))
    }
}

/// Bringing reward up to `now` stays within the machine's integers: the
/// reward interval is not zero, time has not gone back a period, and the
/// reward products and sum fit in 128 bits.
pub open spec fn accrue_within_limits(cfg: Config, rec: StakeRecord, now: u64) -> bool {
    &&& cfg.reward_interval > 0
    &&& now / cfg.reward_interval >= start_time(rec, now) / cfg.reward_interval
    &&& accrues(cfg, rec, now) ==> {
        &&& cfg.daily_reward_amount * periods(cfg, rec, now) <= u128::MAX
        &&& cfg.daily_reward_amount * periods(cfg, rec, now) * rec.0 <= u128::MAX
        &&& rec.1 + earned(cfg, rec, now) <= u128::MAX
    }
}

/// The time from which an unstake made at `now` may be fetched.
pub open spec fn unlock_time(cfg: Config, now: u64) -> int {
    now + cfg.lock_days * SECONDS_PER_DAY
}

/// `owner_check` holds what validating an optional address gave.
pub open spec fn new_owner(owner_check: Option<Result<String, String>>) -> Option<String> {
    match owner_check {
        Some(Ok(a)) => Some(a),
        _ => None,
    }
}

/// The stakers once each of `list` has been written, in order.
pub open spec fn insert_all(m: Map<Seq<char>, StakeRecord>, list: Seq<StakerInfo>) -> Map<
    Seq<char>,
    StakeRecord,
>
    decreases list.len(),
{
    if list.len() == 0 {
        m
    } else {
        let s = list.last();
        insert_all(m, list.drop_last()).insert(s.address@, (s.amount, s.reward, s.last_time))
    }
}

/// A reply with only the attribute `action`.
pub open spec fn action_reply(action: Seq<char>) -> ReplyView {
    ReplyView { messages: seq![], attributes: seq![("action"@, action)] }
}

/// A reply that sends `amount` of `token` to `recipient`, with the
/// attributes `action`, `address` and `amount_key`.
pub open spec fn transfer_reply(
    token: Seq<char>,
    recipient: Seq<char>,
    amount: u128,
    action: Seq<char>,
    amount_key: Seq<char>,
) -> ReplyView {
    ReplyView {
        messages: seq![(token, cw20_transfer_json(recipient, amount))],
        attributes: seq![
            ("action"@, action),
            ("address"@, recipient),
            (amount_key, decimal(amount as nat)),
        ],
    }
}

impl Model {
    /// `sender` is the owner.
    pub open spec fn is_owner(self, sender: Seq<char>) -> bool {
        self.config.owner matches Some(o) && o@ == sender
    }

    /// This state with reward brought up to `now` for `k`.
    pub open spec fn update_reward(self, k: Seq<char>, now: u64) -> Model {
        Model {
            stakers: self.stakers.insert(k, accrue(self.config, record_of(self.stakers, k), now)),
            ..self
        }
    }

    /// `k`'s record once reward has been brought up to `now`.
    pub open spec fn accrued(self, k: Seq<char>, now: u64) -> StakeRecord {
        accrue(self.config, record_of(self.stakers, k), now)
    }

    pub open spec fn withdraw_reward(self, sender: Seq<char>) -> Step {
        if !self.is_owner(sender) {
            Err(ErrorView::Unauthorized)
        } else {
            let reply = transfer_reply(
                self.config.reward_token_address@,
                sender,
                self.config.reward_amount,
                "reward_withdraw_all"@,
                "reward_amount"@,
            );
            Ok((Model { config: Config { reward_amount: 0, ..self.config }, ..self }, reply))
        }
    }

    pub open spec fn withdraw_stake(self, sender: Seq<char>) -> Step {
        if !self.is_owner(sender) {
            Err(ErrorView::Unauthorized)
        } else {
            let reply = transfer_reply(
                self.config.stake_token_address@,
                sender,
                self.config.stake_amount,
                "stake_withdraw_all"@,
                "stake_amount"@,
            );
            Ok((Model { config: Config { stake_amount: 0, ..self.config }, ..self }, reply))
        }
    }

    /// `token` reports that `amount` was sent to the contract; `check` is
    /// the validated address of the one who sent it.
    pub open spec fn receive(
        self,
        now: u64,
        token: Seq<char>,
        amount: u128,
        check: Result<String, String>,
    ) -> Step {
        if !self.config.enabled {
            Err(ErrorView::Disabled)
        } else if amount == 0 {
            Err(ErrorView::InvalidInput)
        } else {
            match check {
                Err(e) => Err(ErrorView::Std(e@)),
                Ok(user) => if token == self.config.stake_token_address@ {
                    let rec = self.accrued(user@, now);
                    Ok(
                        (
                            Model {
                                config: Config {
                                    stake_amount: (self.config.stake_amount + amount) as u128,
                                    ..self.config
                                },
                                stakers: self.stakers.insert(
                                    user@,
                                    ((rec.0 + amount) as u128, rec.1, rec.2),
                                ),
                                ..self
                            },
                            ReplyView {
                                messages: seq![],
                                attributes: seq![
                                    ("action"@, "stake"@),
                                    ("address"@, user@),
                                    ("amount"@, decimal(amount as nat)),
                                ],
                            },
                        ),
                    )
                } else if token == self.config.reward_token_address@ {
                    Ok(
                        (
                            Model {
                                config: Config {
                                    reward_amount: (self.config.reward_amount + amount) as u128,
                                    ..self.config
                                },
                                ..self
                            },
                            ReplyView {
                                messages: seq![],
                                attributes: seq![
                                    ("action"@, "fund"@),
                                    ("address"@, user@),
                                    ("amount"@, decimal(amount as nat)),
                                ],
                            },
                        ),
                    )
                } else {
                    Err(ErrorView::UnacceptableToken)
                },
            }
        }
    }

    pub open spec fn claim_reward(self, now: u64, sender: Seq<char>) -> Step {
        if !self.config.enabled {
            Err(ErrorView::Disabled)
        } else {
            let rec = self.accrued(sender, now);
            if rec.1 == 0 {
                Err(ErrorView::NoReward)
            } else if self.config.reward_amount < rec.1 {
                Err(ErrorView::NotEnoughReward)
            } else {
                let reply = transfer_reply(
                    self.config.reward_token_address@,
                    sender,
                    rec.1,
                    "claim_reward"@,
                    "reward_amount"@,
                );
                Ok(
                    (
                        Model {
                            config: Config {
                                reward_amount: (self.config.reward_amount - rec.1) as u128,
                                ..self.config
                            },
                            stakers: self.stakers.insert(sender, (rec.0, 0, rec.2)),
                            ..self
                        },
                        reply,
                    ),
                )
            }
        }
    }

    pub open spec fn create_unstake(self, now: u64, sender: Seq<char>, amount: u128) -> Step {
        if !self.config.enabled {
            Err(ErrorView::Disabled)
        } else {
            let rec = self.accrued(sender, now);
            if amount == 0 {
                Err(ErrorView::InvalidInput)
            } else if rec.0 < amount {
                Err(ErrorView::NotEnoughStake)
            } else if self.config.stake_amount < amount {
                Err(ErrorView::NotEnoughStake)
            } else {
                let list = pending_of(self.unstaking, sender);
                Ok(
                    (
                        Model {
                            config: Config {
                                stake_amount: (self.config.stake_amount - amount) as u128,
                                ..self.config
                            },
                            stakers: self.stakers.insert(
                                sender,
                                ((rec.0 - amount) as u128, rec.1, rec.2),
                            ),
                            unstaking: self.unstaking.insert(
                                sender,
                                list.push((amount, unlock_time(self.config, now) as u64)),
                            ),
                        },
                        ReplyView {
                            messages: seq![],
                            attributes: seq![
                                ("action"@, "create_unstake"@),
                                ("address"@, sender),
                                ("stake_amount"@, decimal(rec.0 as nat)),
                            ],
                        },
                    ),
                )
            }
        }
    }

    pub open spec fn fetch_unstake(self, now: u64, sender: Seq<char>, index: u64) -> Step {
        if !self.config.enabled {
            Err(ErrorView::Disabled)
        } else if !self.unstaking.contains_key(sender) {
            Err(ErrorView::NotCreatedUnstaking)
        } else if self.unstaking[sender].len() <= index {
            Err(ErrorView::NotCreatedUnstaking)
        } else {
            let list = self.unstaking[sender];
            let (amount, unlock) = list[index as int];
            if self.config.stake_amount < amount {
                Err(ErrorView::NotEnoughStake)
            } else if unlock > now {
                Err(ErrorView::StillLocked)
            } else {
                let reply = transfer_reply(
                    self.config.stake_token_address@,
                    sender,
                    amount,
                    "fetch_unstake"@,
                    "stake_amount"@,
                );
                Ok(
                    (
                        Model {
                            config: Config {
                                stake_amount: (self.config.stake_amount - amount) as u128,
                                ..self.config
                            },
                            stakers: self.stakers.insert(sender, self.accrued(sender, now)),
                            unstaking: self.unstaking.insert(sender, list.remove(index as int)),
                        },
                        reply,
                    ),
                )
            }
        }
    }

    /// `owner_check` is the validated new owner, `None` for none.
    pub open spec fn update_config(
        self,
        sender: Seq<char>,
        owner_check: Option<Result<String, String>>,
    ) -> Step {
        if !self.is_owner(sender) {
            Err(ErrorView::Unauthorized)
        } else {
            match owner_check {
                Some(Err(e)) => Err(ErrorView::Std(e@)),
                _ => Ok(
                    (
                        Model { config: Config { owner: new_owner(owner_check), ..self.config }, ..self },
                        action_reply("update_config"@),
                    ),
                ),
            }
        }
    }

    pub open spec fn update_constants(
        self,
        sender: Seq<char>,
        daily_reward_amount: u128,
        apy_prefix: u128,
        reward_interval: u64,
        lock_days: u64,
        enabled: bool,
    ) -> Step {
        if !self.is_owner(sender) {
            Err(ErrorView::Unauthorized)
        } else {
            Ok(
                (
                    Model {
                        config: Config {
                            daily_reward_amount,
                            apy_prefix,
                            reward_interval,
                            lock_days,
                            enabled,
                            ..self.config
                        },
                        ..self
                    },
                    action_reply("update_constants"@),
                ),
            )
        }
    }

    pub open spec fn add_stakers(self, sender: Seq<char>, list: Seq<StakerInfo>) -> Step {
        if !self.is_owner(sender) {
            Err(ErrorView::Unauthorized)
        } else {
            Ok(
                (
                    Model { stakers: insert_all(self.stakers, list), ..self },
                    action_reply("add_stakers"@),
                ),
            )
        }
    }

    pub open spec fn remove_staker(self, sender: Seq<char>, address: Seq<char>) -> Step {
        if !self.is_owner(sender) {
            Err(ErrorView::Unauthorized)
        } else {
            Ok((Model { stakers: self.stakers.remove(address), ..self }, action_reply("remove_staker"@)))
        }
    }

    /// `start_check` is the validated exclusive start, `None` for none.
    pub open spec fn remove_all_stakers(
        self,
        sender: Seq<char>,
        start_check: Option<Result<String, String>>,
    ) -> Step {
        if !self.is_owner(sender) {
            Err(ErrorView::Unauthorized)
        } else {
            match start_check {
                Some(Err(e)) => Err(ErrorView::Std(e@)),
                Some(Ok(a)) => Ok(
                    (
                        Model { stakers: up_to(self.stakers, a@), ..self },
                        action_reply("remove_all_stakers"@),
                    ),
                ),
                None => Ok(
                    (
                        Model { stakers: Map::empty(), ..self },
                        action_reply("remove_all_stakers"@),
                    ),
                ),
            }
        }
    }

    /// What `msg` does when `sender` sends it at `now`; `checked` is what
    /// validating the address the message carries gave.
    pub open spec fn execute(
        self,
        now: u64,
        sender: Seq<char>,
        msg: ExecuteMsg,
        checked: Option<Result<String, String>>,
    ) -> Step {
        match msg {
            ExecuteMsg::UpdateConfig { .. } => self.update_config(sender, checked),
            ExecuteMsg::UpdateConstants {
                daily_reward_amount,
                apy_prefix,
                reward_interval,
                lock_days,
                enabled,
            } => self.update_constants(
                sender,
                daily_reward_amount,
                apy_prefix,
                reward_interval,
                lock_days,
                enabled,
            ),
            ExecuteMsg::Receive(w) => match checked {
                Some(c) => self.receive(now, sender, w.amount, c),
                None => Err(ErrorView::InvalidInput),
            },
            ExecuteMsg::WithdrawReward {} => self.withdraw_reward(sender),
            ExecuteMsg::WithdrawStake {} => self.withdraw_stake(sender),
            ExecuteMsg::ClaimReward {} => self.claim_reward(now, sender),
            ExecuteMsg::CreateUnstake { unstake_amount } => self.create_unstake(
                now,
                sender,
                unstake_amount,
            ),
            ExecuteMsg::FetchUnstake { index } => self.fetch_unstake(now, sender, index),
            ExecuteMsg::AddStakers { stakers } => self.add_stakers(sender, stakers@),
            ExecuteMsg::RemoveStaker { address } => self.remove_staker(sender, address@),
            ExecuteMsg::RemoveAllStakers { .. } => self.remove_all_stakers(sender, checked),
        }
    }

    /// Receiving stays within the machine's integers.
    pub open spec fn receive_within_limits(
        self,
        now: u64,
        token: Seq<char>,
        amount: u128,
        check: Result<String, String>,
    ) -> bool {
        self.config.enabled && amount != 0 && check is Ok ==> {
            let user = check->Ok_0@;
            &&& token == self.config.stake_token_address@ ==> {
                &&& accrue_within_limits(self.config, record_of(self.stakers, user), now)
                &&& record_of(self.stakers, user).0 + amount <= u128::MAX
                &&& self.config.stake_amount + amount <= u128::MAX
            }
            &&& token != self.config.stake_token_address@ && token
                == self.config.reward_token_address@ ==> self.config.reward_amount + amount
                <= u128::MAX
        }
    }

    /// Bringing the sender's reward up to date stays within the machine's
    /// integers, where the request does so.
    pub open spec fn accrue_on_request_within_limits(self, now: u64, sender: Seq<char>) -> bool {
        self.config.enabled ==> accrue_within_limits(
            self.config,
            record_of(self.stakers, sender),
            now,
        )
    }

    /// Creating an unstake stays within the machine's integers.
    pub open spec fn create_unstake_within_limits(
        self,
        now: u64,
        sender: Seq<char>,
        amount: u128,
    ) -> bool {
        &&& self.accrue_on_request_within_limits(now, sender)
        &&& self.config.enabled && amount != 0 && record_of(self.stakers, sender).0 >= amount
            && self.config.stake_amount >= amount ==> {
            &&& self.config.lock_days * SECONDS_PER_DAY <= u64::MAX
            &&& unlock_time(self.config, now) <= u64::MAX
        }
    }

    /// Executing `msg` stays within the machine's integers. Where it does
    /// not, the contract aborts the transaction.
    pub open spec fn execute_within_limits(
        self,
        now: u64,
        sender: Seq<char>,
        msg: ExecuteMsg,
        checked: Option<Result<String, String>>,
    ) -> bool {
        match msg {
            ExecuteMsg::Receive(w) => match checked {
                Some(c) => self.receive_within_limits(now, sender, w.amount, c),
                None => true,
            },
            ExecuteMsg::ClaimReward {} => self.accrue_on_request_within_limits(now, sender),
            ExecuteMsg::CreateUnstake { unstake_amount } => self.create_unstake_within_limits(
                now,
                sender,
                unstake_amount,
            ),
            ExecuteMsg::FetchUnstake { .. } => self.accrue_on_request_within_limits(now, sender),
            _ => true,
        }
    }
}

/// `checked` is the outcome of validating the address that `msg` carries:
/// present exactly where the message carries one.
pub open spec fn checked_fits(msg: ExecuteMsg, checked: Option<Result<String, String>>) -> bool {
    checked.is_some() == crate::msg::address_to_validate_spec(msg).is_some()
}

/// The configuration a contract starts with. `owner_check` is what
/// validating the requested owner gave, `None` where none was requested.
pub open spec fn initial_config(
    sender: String,
    msg: crate::msg::InstantiateMsg,
    owner_check: Option<Result<String, String>>,
) -> Config {
    Config {
        owner: Some(
            match owner_check {
                Some(Ok(a)) => a,
                _ => sender,
            },
        ),
        reward_token_address: msg.reward_token_address,
        stake_token_address: msg.stake_token_address,
        reward_amount: 0,
        stake_amount: 0,
        daily_reward_amount: msg.daily_reward_amount,
        apy_prefix: msg.apy_prefix,
        reward_interval: msg.reward_interval,
        lock_days: msg.lock_days,
        enabled: true,
    }
}

/// The scale of the annual yield that the contract reports.
pub const MULTIPLE: u128 = 10_000_000_000u128;

/// The stake rate that the yield is divided by: the token supply in units of
/// `MULTIPLE`, plus ten thousand.
pub open spec fn stake_rate(supply: u128) -> int {
    supply / MULTIPLE + 10000
}

/// The annual yield, times `MULTIPLE`, for a stake token supply of `supply`.
pub open spec fn apy(cfg: Config, supply: u128) -> int {
    if cfg.stake_amount == 0 {
        0
    } else {
        cfg.apy_prefix * MULTIPLE * MULTIPLE / stake_rate(supply) / (cfg.stake_amount as int)
    }
}

/// Computing the yield stays within the machine's integers.
pub open spec fn apy_within_limits(cfg: Config) -> bool {
    cfg.stake_amount > 0 ==> cfg.apy_prefix * MULTIPLE * MULTIPLE <= u128::MAX
}

/// The number of stakers listed when `limit` is asked for.
pub const DEFAULT_LIMIT: u32 = 10;

pub const MAX_LIMIT: u32 = 30;

pub open spec fn page_limit(limit: Option<u32>) -> nat {
    let l = match limit {
        Some(l) => l,
        None => DEFAULT_LIMIT,
    };
    if l < MAX_LIMIT {
        l as nat
    } else {
        MAX_LIMIT as nat
    }
}

/// The pending unstakes once each of `list` has been written, in order.
pub open spec fn insert_all_pending(
    m: Map<Seq<char>, Seq<Unstake>>,
    list: Seq<(String, Vec<Unstake>)>,
) -> Map<Seq<char>, Seq<Unstake>>
    decreases list.len(),
{
    if list.len() == 0 {
        m
    } else {
        let e = list.last();
        insert_all_pending(m, list.drop_last()).insert(e.0@, e.1@)
    }
}

} // verus!
