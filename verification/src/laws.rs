//! Properties of the contract that span requests.

use vstd::prelude::*;
use crate::addr_map::{after, has_key, is_page, sorted_entries, up_to};
use crate::error::ErrorView;
use crate::model::{
    initial_config, page_limit, accrue, accrue_within_limits, accrues, apy, earned, insert_all, pending_of, periods, record_of,
    stake_rate, transfer_reply, unlock_time, MULTIPLE,
};
use crate::msg::ExecuteMsg;
use crate::order::{key_lt, lemma_key_order};
use crate::reply::{cw20_transfer_json, decimal, ReplyView};
use crate::state::{Config, Model, StakerInfo};
use vstd::arithmetic::div_mod::{lemma_div_is_ordered, lemma_div_is_ordered_by_denominator};
use vstd::arithmetic::mul::lemma_mul_inequality;

verus! {

/// The requests that only the owner may make.
pub open spec fn owner_only(msg: ExecuteMsg) -> bool {
    match msg {
        ExecuteMsg::UpdateConfig { .. } => true,
        ExecuteMsg::UpdateConstants { .. } => true,
        ExecuteMsg::WithdrawReward {} => true,
        ExecuteMsg::WithdrawStake {} => true,
        ExecuteMsg::AddStakers { .. } => true,
        ExecuteMsg::RemoveStaker { .. } => true,
        ExecuteMsg::RemoveAllStakers { .. } => true,
        _ => false,
    }
}

/// The requests that stakers and token contracts make.
pub open spec fn staker_request(msg: ExecuteMsg) -> bool {
    match msg {
        ExecuteMsg::Receive(..) => true,
        ExecuteMsg::ClaimReward {} => true,
        ExecuteMsg::CreateUnstake { .. } => true,
        ExecuteMsg::FetchUnstake { .. } => true,
        _ => false,
    }
}

/// Only the owner may make an owner-only request: anyone else, and anyone
/// at all once the contract has no owner, is refused as unauthorized.
pub proof fn lemma_owner_only_requests(
    m: Model,
    now: u64,
    sender: Seq<char>,
    msg: ExecuteMsg,
    checked: Option<Result<String, String>>,
)
    requires
        owner_only(msg),
        !m.is_owner(sender),
    ensures
        m.execute(now, sender, msg, checked) == Err::<(Model, ReplyView), ErrorView>(
            ErrorView::Unauthorized,
        ),
{
}

/// While the contract is disabled, every staker request is refused.
pub proof fn lemma_disabled_refuses(
    m: Model,
    now: u64,
    sender: Seq<char>,
    msg: ExecuteMsg,
    checked: Option<Result<String, String>>,
)
    requires
        staker_request(msg),
        !m.config.enabled,
        msg is Receive ==> checked is Some,
    ensures
        m.execute(now, sender, msg, checked) == Err::<(Model, ReplyView), ErrorView>(
            ErrorView::Disabled,
        ),
{
}

/// Bringing reward up to date twice at the same time is the same as doing
/// it once.
pub proof fn lemma_update_reward_idempotent(m: Model, k: Seq<char>, now: u64)
    ensures
        m.update_reward(k, now).update_reward(k, now) == m.update_reward(k, now),
{
    let once = m.update_reward(k, now);
    let rec = record_of(m.stakers, k);
    let r1 = accrue(m.config, rec, now);
    assert(record_of(once.stakers, k) == r1);
    assert(accrue(once.config, r1, now) == r1);
    assert(once.update_reward(k, now).stakers =~= once.stakers);
}

/// A staker request changes only the records of the address it concerns:
/// the sender's, or for a token transfer, the one who sent the tokens.
pub proof fn lemma_staker_request_frame(
    m: Model,
    now: u64,
    sender: Seq<char>,
    msg: ExecuteMsg,
    checked: Option<Result<String, String>>,
    k: Seq<char>,
)
    requires
        staker_request(msg),
        m.execute(now, sender, msg, checked) is Ok,
        k != (match msg {
            ExecuteMsg::Receive(..) => checked->Some_0->Ok_0@,
            _ => sender,
        }),
    ensures
        ({
            let next = m.execute(now, sender, msg, checked)->Ok_0.0;
            &&& next.stakers.contains_key(k) == m.stakers.contains_key(k)
            &&& m.stakers.contains_key(k) ==> next.stakers[k] == m.stakers[k]
            &&& next.unstaking.contains_key(k) == m.unstaking.contains_key(k)
            &&& m.unstaking.contains_key(k) ==> next.unstaking[k] == m.unstaking[k]
        }),
{
}

/// Claiming twice at the same time: once the first claim has paid out, the
/// second finds no reward.
pub proof fn lemma_claim_twice(m: Model, now: u64, sender: Seq<char>)
    requires
        m.claim_reward(now, sender) is Ok,
    ensures
        m.claim_reward(now, sender)->Ok_0.0.claim_reward(now, sender)
            == Err::<(Model, ReplyView), ErrorView>(ErrorView::NoReward),
{
    let next = m.claim_reward(now, sender)->Ok_0.0;
    let rec = m.accrued(sender, now);
    assert(record_of(next.stakers, sender) == (rec.0, 0u128, rec.2));
    assert(next.config.stake_amount == m.config.stake_amount);
    assert(next.config.reward_interval == m.config.reward_interval);
}

/// Claiming pays out exactly what it takes off the reward tokens held and
/// off the sender's record.
pub proof fn lemma_claim_pays_reward(m: Model, now: u64, sender: Seq<char>)
    requires
        m.claim_reward(now, sender) is Ok,
    ensures
        ({
            let (next, reply) = m.claim_reward(now, sender)->Ok_0;
            let reward = m.accrued(sender, now).1;
            &&& reward > 0
            &&& next.config.reward_amount == m.config.reward_amount - reward
            &&& record_of(next.stakers, sender).1 == 0
            &&& reply.messages.len() == 1
            &&& reply.messages[0].0 == m.config.reward_token_address@
            &&& reply.messages[0].1 == cw20_transfer_json(sender, reward)
        }),
{
}

/// Once the owner has withdrawn the reward tokens, no positive reward can
/// be claimed.
pub proof fn lemma_withdraw_then_claim(m: Model, owner: Seq<char>, now: u64, sender: Seq<char>)
    requires
        m.withdraw_reward(owner) is Ok,
        m.config.enabled,
        m.accrued(sender, now).1 > 0,
    ensures
        m.withdraw_reward(owner)->Ok_0.0.claim_reward(now, sender)
            == Err::<(Model, ReplyView), ErrorView>(ErrorView::NotEnoughReward),
{
    let next = m.withdraw_reward(owner)->Ok_0.0;
    assert(next.stakers == m.stakers);
    assert(next.accrued(sender, now) == m.accrued(sender, now));
}

/// Staking adds the amount received both to the staker's stake and to the
/// stake held.
pub proof fn lemma_stake_adds(m: Model, now: u64, token: Seq<char>, amount: u128, check: Result<String, String>)
    requires
        m.receive(now, token, amount, check) is Ok,
        token == m.config.stake_token_address@,
        m.receive_within_limits(now, token, amount, check),
    ensures
        ({
            let next = m.receive(now, token, amount, check)->Ok_0.0;
            let user = check->Ok_0@;
            &&& record_of(next.stakers, user).0 == record_of(m.stakers, user).0 + amount
            &&& next.config.stake_amount == m.config.stake_amount + amount
            &&& next.config.reward_amount == m.config.reward_amount
        }),
{
}

/// Creating an unstake moves the amount out of the sender's stake and the
/// stake held, into a pending unstake at the end of the sender's list that
/// unlocks after the lock time.
pub proof fn lemma_unstake_moves(m: Model, now: u64, sender: Seq<char>, amount: u128)
    requires
        m.create_unstake(now, sender, amount) is Ok,
        m.create_unstake_within_limits(now, sender, amount),
    ensures
        ({
            let next = m.create_unstake(now, sender, amount)->Ok_0.0;
            &&& record_of(next.stakers, sender).0 == record_of(m.stakers, sender).0 - amount
            &&& next.config.stake_amount == m.config.stake_amount - amount
            &&& pending_of(next.unstaking, sender) == pending_of(m.unstaking, sender).push(
                (amount, unlock_time(m.config, now) as u64),
            )
            &&& unlock_time(m.config, now) == now + m.config.lock_days * 86400
        }),
{
}

/// A pending unstake is paid out only once its unlock time has come, and is
/// then gone from the list.
pub proof fn lemma_fetch_only_unlocked(m: Model, now: u64, sender: Seq<char>, index: u64)
    requires
        m.fetch_unstake(now, sender, index) is Ok,
    ensures
        ({
            let next = m.fetch_unstake(now, sender, index)->Ok_0.0;
            let list = pending_of(m.unstaking, sender);
            &&& index < list.len()
            &&& list[index as int].1 <= now
            &&& pending_of(next.unstaking, sender) == list.remove(index as int)
            &&& next.config.stake_amount == m.config.stake_amount - list[index as int].0
        }),
{
}

/// After the owner adds stakers, each address holds the record of the last
/// entry given for it.
pub proof fn lemma_added_stakers_readable(m: Model, owner: Seq<char>, list: Seq<StakerInfo>, i: int)
    requires
        m.add_stakers(owner, list) is Ok,
        0 <= i < list.len(),
        forall|j: int| i < j < list.len() ==> (#[trigger] list[j]).address@ != list[i].address@,
    ensures
        record_of(m.add_stakers(owner, list)->Ok_0.0.stakers, list[i].address@) == (
            list[i].amount,
            list[i].reward,
            list[i].last_time,
        ),
{
    lemma_insert_all_last(m.stakers, list, i);
}

proof fn lemma_insert_all_last(m: Map<Seq<char>, crate::state::StakeRecord>, list: Seq<StakerInfo>, i: int)
    requires
        0 <= i < list.len(),
        forall|j: int| i < j < list.len() ==> (#[trigger] list[j]).address@ != list[i].address@,
    ensures
        insert_all(m, list).contains_key(list[i].address@),
        insert_all(m, list)[list[i].address@] == (list[i].amount, list[i].reward, list[i].last_time),
    decreases list.len(),
{
    if i < list.len() - 1 {
        let prefix = list.drop_last();
        assert forall|j: int| i < j < prefix.len() implies (#[trigger] prefix[j]).address@
            != prefix[i].address@ by {
            assert(prefix[j] == list[j]);
        }
        lemma_insert_all_last(m, prefix, i);
        assert(list[list.len() - 1].address@ != list[i].address@);
    }
}

/// After the owner removes a staker, the address has no record.
pub proof fn lemma_removed_staker_gone(m: Model, owner: Seq<char>, address: Seq<char>)
    requires
        m.remove_staker(owner, address) is Ok,
    ensures
        !m.remove_staker(owner, address)->Ok_0.0.stakers.contains_key(address),
        record_of(m.remove_staker(owner, address)->Ok_0.0.stakers, address) == (0u128, 0u128, 0u64),
{
}

/// Removing all stakers after an address keeps exactly the records of the
/// addresses up to it; removing all stakers keeps none.
pub proof fn lemma_remove_all_stakers(
    m: Model,
    owner: Seq<char>,
    start_check: Option<Result<String, String>>,
    k: Seq<char>,
)
    requires
        m.remove_all_stakers(owner, start_check) is Ok,
    ensures
        ({
            let next = m.remove_all_stakers(owner, start_check)->Ok_0.0;
            match start_check {
                Some(Ok(a)) => {
                    &&& next.stakers.contains_key(k) == (m.stakers.contains_key(k) && !key_lt(a@, k))
                    &&& next.stakers.contains_key(k) ==> next.stakers[k] == m.stakers[k]
                },
                _ => !next.stakers.contains_key(k),
            }
        }),
{
    if let Some(Ok(a)) = start_check {
        assert(up_to(m.stakers, a@).dom().contains(k) == (m.stakers.contains_key(k) && !key_lt(a@, k)));
    }
}

/// Bringing reward up to date never lowers a staker's reward, never changes
/// their stake, and never moves their reward period back.
pub proof fn lemma_reward_only_grows(cfg: Config, rec: crate::state::StakeRecord, now: u64)
    requires
        accrue_within_limits(cfg, rec, now),
    ensures
        accrue(cfg, rec, now).0 == rec.0,
        accrue(cfg, rec, now).1 >= rec.1,
        accrue(cfg, rec, now).2 / cfg.reward_interval >= rec.2 / cfg.reward_interval,
{
    if accrues(cfg, rec, now) {
        assert(earned(cfg, rec, now) >= 0) by (nonlinear_arith)
            requires
                cfg.daily_reward_amount * periods(cfg, rec, now) * rec.0 >= 0,
                cfg.stake_amount > 0,
                earned(cfg, rec, now) == cfg.daily_reward_amount * periods(cfg, rec, now) * rec.0
                    / (cfg.stake_amount as int),
        ;
    }
}

/// The addresses (as views) and values of a page, in order.
pub open spec fn page_view<V>(p: Seq<(String, V)>) -> Seq<(Seq<char>, V)> {
    p.map_values(|e: (String, V)| (e.0@, e.1))
}

/// Where two pages with the same start and limit agree on the first `j`
/// addresses, the address at `j` of the first does not come before the
/// address at `j` of the second.
proof fn lemma_page_step<V>(
    m: Map<Seq<char>, V>,
    start: Option<Seq<char>>,
    limit: nat,
    p: Seq<(String, V)>,
    q: Seq<(String, V)>,
    j: int,
)
    requires
        is_page(m, start, limit, p),
        is_page(m, start, limit, q),
        0 <= j < p.len(),
        j < q.len(),
        forall|i: int| 0 <= i < j ==> p[i].0@ == q[i].0@,
    ensures
        !key_lt(p[j].0@, q[j].0@),
{
    let a = p[j].0@;
    let b = q[j].0@;
    if key_lt(a, b) {
        let ql = q.len() - 1;
        if ql > j {
            assert(key_lt(q[j].0@, q[ql].0@));
            lemma_key_order(a, b, q[ql].0@);
        }
        lemma_key_order(q[ql].0@, a, a);
        lemma_key_order(a, q[ql].0@, a);
        assert(m.contains_key(a));
        assert(has_key(q, a));
        let x = choose|x: int| 0 <= x < q.len() && #[trigger] q[x].0@ == a;
        lemma_key_order(a, a, a);
        if x < j {
            assert(p[x].0@ == a);
            assert(key_lt(p[x].0@, p[j].0@));
        } else if x > j {
            assert(key_lt(q[j].0@, q[x].0@));
            lemma_key_order(a, b, a);
        }
    }
}

/// Two pages with the same start and limit hold the same addresses and
/// values, in the same order.
pub proof fn lemma_page_unique<V>(
    m: Map<Seq<char>, V>,
    start: Option<Seq<char>>,
    limit: nat,
    p: Seq<(String, V)>,
    q: Seq<(String, V)>,
)
    requires
        is_page(m, start, limit, p),
        is_page(m, start, limit, q),
    ensures
        page_view(p) == page_view(q),
{
    let n = if p.len() < q.len() { p.len() as int } else { q.len() as int };
    lemma_page_prefix(m, start, limit, p, q, n);
    if p.len() < q.len() {
        lemma_page_longer(m, start, limit, p, q);
    } else if q.len() < p.len() {
        lemma_page_longer(m, start, limit, q, p);
    }
    assert forall|i: int| 0 <= i < p.len() implies (#[trigger] page_view(p)[i]) == page_view(q)[i] by {
        assert(p[i].1 == m[p[i].0@]);
        assert(q[i].1 == m[q[i].0@]);
    }
    assert(page_view(p) =~= page_view(q));
}

proof fn lemma_page_prefix<V>(
    m: Map<Seq<char>, V>,
    start: Option<Seq<char>>,
    limit: nat,
    p: Seq<(String, V)>,
    q: Seq<(String, V)>,
    n: int,
)
    requires
        is_page(m, start, limit, p),
        is_page(m, start, limit, q),
        0 <= n <= p.len(),
        n <= q.len(),
    ensures
        forall|i: int| 0 <= i < n ==> p[i].0@ == q[i].0@,
    decreases n,
{
    if n > 0 {
        lemma_page_prefix(m, start, limit, p, q, n - 1);
        let j = n - 1;
        lemma_page_step(m, start, limit, p, q, j);
        assert forall|i: int| 0 <= i < j implies q[i].0@ == p[i].0@ by {}
        lemma_page_step(m, start, limit, q, p, j);
        lemma_key_order(p[j].0@, q[j].0@, q[j].0@);
    }
}

/// Of two pages with the same start and limit, neither is longer.
proof fn lemma_page_longer<V>(
    m: Map<Seq<char>, V>,
    start: Option<Seq<char>>,
    limit: nat,
    p: Seq<(String, V)>,
    q: Seq<(String, V)>,
)
    requires
        is_page(m, start, limit, p),
        is_page(m, start, limit, q),
        forall|i: int| 0 <= i < p.len() && i < q.len() ==> p[i].0@ == q[i].0@,
    ensures
        !(p.len() < q.len()),
{
    if p.len() < q.len() {
        let k = q[p.len() as int].0@;
        assert(m.contains_key(k));
        assert(has_key(p, k));
        let x = choose|x: int| 0 <= x < p.len() && #[trigger] p[x].0@ == k;
        assert(q[x].0@ == k);
        assert(key_lt(q[x].0@, q[p.len() as int].0@));
        lemma_key_order(k, k, k);
    }
}

/// A page that is not empty, followed by the page that starts after its last
/// address, is the page of both sizes together.
pub proof fn lemma_pages_continue<V>(
    m: Map<Seq<char>, V>,
    start: Option<Seq<char>>,
    n: nat,
    k: nat,
    first: Seq<(String, V)>,
    second: Seq<(String, V)>,
)
    requires
        first.len() > 0,
        is_page(m, start, n, first),
        is_page(m, Some(first.last().0@), k, second),
    ensures
        is_page(m, start, n + k, first + second),
{
    let both = first + second;
    let last = first.last().0@;
    assert(after(start, last));
    assert forall|i: int| 0 <= i < first.len() implies !key_lt(last, #[trigger] first[i].0@) by {
        lemma_key_order(first[i].0@, last, last);
        if i < first.len() - 1 {
            assert(key_lt(first[i].0@, first[first.len() - 1].0@));
        }
    }
    assert forall|j: int| 0 <= j < second.len() implies after(start, #[trigger] second[j].0@) by {
        assert(key_lt(last, second[j].0@));
        if let Some(st) = start {
            lemma_key_order(st, last, second[j].0@);
        }
    }
    assert(sorted_entries(both)) by {
        assert forall|i: int, j: int| 0 <= i < j < both.len() implies key_lt(
            #[trigger] both[i].0@,
            #[trigger] both[j].0@,
        ) by {
            if j >= first.len() && i < first.len() {
                let sj = second[j - first.len()].0@;
                assert(key_lt(last, sj));
                lemma_key_order(first[i].0@, last, sj);
                lemma_key_order(last, first[i].0@, sj);
            } else if i >= first.len() {
                assert(key_lt(second[i - first.len()].0@, second[j - first.len()].0@));
            }
        }
    }
    assert forall|i: int| 0 <= i < both.len() implies {
        &&& m.contains_key(#[trigger] both[i].0@)
        &&& m[both[i].0@] == both[i].1
        &&& after(start, both[i].0@)
    } by {
        if i >= first.len() {
            assert(both[i] == second[i - first.len()]);
        }
    }
    assert forall|key: Seq<char>|
        #![trigger m.contains_key(key)]
        m.contains_key(key) && after(start, key) && (both.len() < n + k || (both.len() > 0
            && !key_lt(both.last().0@, key))) implies has_key(both, key) by {
        lemma_key_order(last, key, key);
        if !key_lt(last, key) {
            let i = choose|i: int| 0 <= i < first.len() && #[trigger] first[i].0@ == key;
            assert(both[i].0@ == key);
        } else if first.len() < n {
            let i = choose|i: int| 0 <= i < first.len() && #[trigger] first[i].0@ == key;
            assert(!key_lt(last, first[i].0@));
        } else {
            assert(after(Some(last), key));
            if second.len() > 0 {
                assert(both.last() == second.last());
            } else {
                assert(both.last() == first.last());
            }
            let j = choose|j: int| 0 <= j < second.len() && #[trigger] second[j].0@ == key;
            assert(both[first.len() + j].0@ == key);
        }
    }
}

/// Paging neither skips nor repeats: a page that is not empty, followed by
/// the page of `k` that starts after its last address, holds the same
/// addresses and values as the page of both sizes together.
pub proof fn lemma_pages_join<V>(
    m: Map<Seq<char>, V>,
    start: Option<Seq<char>>,
    n: nat,
    k: nat,
    first: Seq<(String, V)>,
    second: Seq<(String, V)>,
    whole: Seq<(String, V)>,
)
    requires
        first.len() > 0,
        is_page(m, start, n, first),
        is_page(m, Some(first.last().0@), k, second),
        is_page(m, start, n + k, whole),
    ensures
        page_view(first + second) == page_view(whole),
{
    lemma_pages_continue(m, start, n, k, first, second);
    lemma_page_unique(m, start, n + k, first + second, whole);
}

/// A second withdrawal of the reward tokens sends nothing and changes
/// nothing.
pub proof fn lemma_withdraw_reward_twice(m: Model, owner: Seq<char>)
    requires
        m.withdraw_reward(owner) is Ok,
    ensures
        ({
            let next = m.withdraw_reward(owner)->Ok_0.0;
            &&& next.config.reward_amount == 0
            &&& next.withdraw_reward(owner) == Ok::<(Model, ReplyView), ErrorView>(
                (
                    next,
                    transfer_reply(
                        m.config.reward_token_address@,
                        owner,
                        0,
                        "reward_withdraw_all"@,
                        "reward_amount"@,
                    ),
                ),
            )
        }),
{
    let next = m.withdraw_reward(owner)->Ok_0.0;
    assert(Config { reward_amount: 0, ..next.config } == next.config);
}

/// A second withdrawal of the stake tokens sends nothing and changes
/// nothing.
pub proof fn lemma_withdraw_stake_twice(m: Model, owner: Seq<char>)
    requires
        m.withdraw_stake(owner) is Ok,
    ensures
        ({
            let next = m.withdraw_stake(owner)->Ok_0.0;
            &&& next.config.stake_amount == 0
            &&& next.withdraw_stake(owner) == Ok::<(Model, ReplyView), ErrorView>(
                (
                    next,
                    transfer_reply(
                        m.config.stake_token_address@,
                        owner,
                        0,
                        "stake_withdraw_all"@,
                        "stake_amount"@,
                    ),
                ),
            )
        }),
{
    let next = m.withdraw_stake(owner)->Ok_0.0;
    assert(Config { stake_amount: 0, ..next.config } == next.config);
}

/// Fetching, once it has unlocked, the unstake just created pays it out and
/// leaves the pending list as it was before.
pub proof fn lemma_unstake_round_trip(m: Model, t1: u64, t2: u64, sender: Seq<char>, amount: u128)
    requires
        m.create_unstake(t1, sender, amount) is Ok,
        m.create_unstake_within_limits(t1, sender, amount),
        m.create_unstake(t1, sender, amount)->Ok_0.0.config.stake_amount >= amount,
        t2 >= unlock_time(m.config, t1),
        pending_of(m.unstaking, sender).len() < u64::MAX,
    ensures
        ({
            let mid = m.create_unstake(t1, sender, amount)->Ok_0.0;
            let before = pending_of(m.unstaking, sender);
            let step = mid.fetch_unstake(t2, sender, before.len() as u64);
            &&& step is Ok
            &&& step->Ok_0.1.messages == seq![
                (m.config.stake_token_address@, cw20_transfer_json(sender, amount)),
            ]
            &&& pending_of(step->Ok_0.0.unstaking, sender) == before
            &&& step->Ok_0.0.config.stake_amount == mid.config.stake_amount - amount
        }),
{
    let mid = m.create_unstake(t1, sender, amount)->Ok_0.0;
    let before = pending_of(m.unstaking, sender);
    let after = before.push((amount, unlock_time(m.config, t1) as u64));
    assert(mid.unstaking[sender] == after);
    assert(after[before.len() as int] == (amount, unlock_time(m.config, t1) as u64));
    assert(after.remove(before.len() as int) =~= before);
}

/// The reported yield falls as more is staked.
pub proof fn lemma_apy_falls_with_stake(cfg: Config, more: u128, supply: u128)
    requires
        cfg.stake_amount > 0,
        more >= cfg.stake_amount,
    ensures
        apy(Config { stake_amount: more, ..cfg }, supply) <= apy(cfg, supply),
{
    let x = cfg.apy_prefix * MULTIPLE * MULTIPLE / stake_rate(supply);
    assert(cfg.apy_prefix * MULTIPLE * MULTIPLE >= 0) by (nonlinear_arith);
    lemma_div_is_ordered_by_denominator(cfg.apy_prefix * MULTIPLE * MULTIPLE, 1, stake_rate(supply));
    lemma_div_is_ordered_by_denominator(x, cfg.stake_amount as int, more as int);
}

/// The reported yield falls as the stake token's supply grows.
pub proof fn lemma_apy_falls_with_supply(cfg: Config, supply: u128, larger: u128)
    requires
        larger >= supply,
    ensures
        apy(cfg, larger) <= apy(cfg, supply),
{
    if cfg.stake_amount > 0 {
        assert(cfg.apy_prefix * MULTIPLE * MULTIPLE >= 0) by (nonlinear_arith);
        let p = cfg.apy_prefix * MULTIPLE * MULTIPLE;
        lemma_div_is_ordered(supply as int, larger as int, MULTIPLE as int);
        lemma_div_is_ordered_by_denominator(p, stake_rate(supply), stake_rate(larger));
        lemma_div_is_ordered_by_denominator(p, 1, stake_rate(larger));
        lemma_div_is_ordered(p / stake_rate(larger), p / stake_rate(supply), cfg.stake_amount as int);
    }
}

/// The reported yield rises with the yield prefix.
pub proof fn lemma_apy_rises_with_prefix(cfg: Config, higher: u128, supply: u128)
    requires
        higher >= cfg.apy_prefix,
    ensures
        apy(Config { apy_prefix: higher, ..cfg }, supply) >= apy(cfg, supply),
{
    if cfg.stake_amount > 0 {
        let low = cfg.apy_prefix * MULTIPLE * MULTIPLE;
        let high = higher * MULTIPLE * MULTIPLE;
        lemma_mul_inequality(cfg.apy_prefix as int, higher as int, MULTIPLE as int);
        lemma_mul_inequality(cfg.apy_prefix * MULTIPLE, higher * MULTIPLE, MULTIPLE as int);
        lemma_div_is_ordered(low, high, stake_rate(supply));
        lemma_div_is_ordered(low / stake_rate(supply), high / stake_rate(supply), cfg.stake_amount as int);
    }
}

/// Bringing reward up to `now` for `k`: where something is staked in all,
/// `k` has stake and a reward period has begun since `k`'s time (or since
/// `now` for a record without one), the reward grows by the daily reward
/// times the periods, shared by stake, and the time moves to `now`;
/// otherwise only a missing time is set to `now`. The stake and every other
/// record stay as they were.
pub proof fn lemma_update_reward_formula(m: Model, k: Seq<char>, now: u64)
    requires
        m.config.reward_interval > 0,
        ({
            let rec = if m.stakers.contains_key(k) { m.stakers[k] } else { (0u128, 0u128, 0u64) };
            let from: u64 = if rec.2 == 0 { now } else { rec.2 };
            let periods = (now / m.config.reward_interval) as int - (from / m.config.reward_interval) as int;
            m.config.stake_amount > 0 && rec.0 > 0 && periods > 0 ==> rec.1
                + m.config.daily_reward_amount * periods * rec.0 / (m.config.stake_amount as int)
                <= u128::MAX
        }),
    ensures
        ({
            let rec = if m.stakers.contains_key(k) { m.stakers[k] } else { (0u128, 0u128, 0u64) };
            let from: u64 = if rec.2 == 0 { now } else { rec.2 };
            let periods = (now / m.config.reward_interval) as int - (from / m.config.reward_interval) as int;
            let next = m.update_reward(k, now);
            &&& next.config == m.config
            &&& next.unstaking == m.unstaking
            &&& next.stakers.remove(k) == m.stakers.remove(k)
            &&& next.stakers.contains_key(k)
            &&& next.stakers[k].0 == rec.0
            &&& if m.config.stake_amount > 0 && rec.0 > 0 && periods > 0 {
                &&& next.stakers[k].1 == rec.1 + m.config.daily_reward_amount * periods * rec.0 / (
                m.config.stake_amount as int)
                &&& next.stakers[k].2 == now
            } else {
                &&& next.stakers[k].1 == rec.1
                &&& next.stakers[k].2 == from
            }
        }),
{
    let next = m.update_reward(k, now);
    assert(next.stakers.remove(k) =~= m.stakers.remove(k));
}

/// Rewards of successive accruals add up: bringing reward up to `t1` and
/// then to `t2` adds the share of the periods up to `t1` and the share of
/// the periods from `t1` to `t2`.
pub proof fn lemma_accruals_add(m: Model, k: Seq<char>, t1: u64, t2: u64)
    requires
        m.config.reward_interval > 0,
        m.config.stake_amount > 0,
        m.stakers.contains_key(k),
        m.stakers[k].0 > 0,
        m.stakers[k].2 != 0,
        m.stakers[k].2 / m.config.reward_interval < t1 / m.config.reward_interval,
        t1 / m.config.reward_interval < t2 / m.config.reward_interval,
        m.stakers[k].1 + m.config.daily_reward_amount * ((t1 / m.config.reward_interval) as int - (
        m.stakers[k].2 / m.config.reward_interval) as int) * m.stakers[k].0 / (
        m.config.stake_amount as int) + m.config.daily_reward_amount * ((t2
            / m.config.reward_interval) as int - (t1 / m.config.reward_interval) as int)
            * m.stakers[k].0 / (m.config.stake_amount as int) <= u128::MAX,
    ensures
        m.update_reward(k, t1).update_reward(k, t2).stakers[k].1 == m.stakers[k].1
            + m.config.daily_reward_amount * ((t1 / m.config.reward_interval) as int - (m.stakers[k].2
            / m.config.reward_interval) as int) * m.stakers[k].0 / (m.config.stake_amount as int)
            + m.config.daily_reward_amount * ((t2 / m.config.reward_interval) as int - (t1
            / m.config.reward_interval) as int) * m.stakers[k].0 / (m.config.stake_amount as int),
        m.update_reward(k, t1).update_reward(k, t2).stakers[k].2 == t2,
{
    let ri = m.config.reward_interval;
    let share2 = m.config.daily_reward_amount * ((t2 / ri) as int - (t1 / ri) as int) * m.stakers[k].0
        / (m.config.stake_amount as int);
    assert(share2 >= 0) by (nonlinear_arith)
        requires
            share2 == m.config.daily_reward_amount * ((t2 / ri) as int - (t1 / ri) as int)
                * m.stakers[k].0 / (m.config.stake_amount as int),
            (t2 / ri) as int - (t1 / ri) as int > 0,
            m.config.stake_amount > 0,
    ;
    lemma_update_reward_formula(m, k, t1);
    let mid = m.update_reward(k, t1);
    assert(t1 != 0);
    lemma_update_reward_formula(mid, k, t2);
}

/// Staking first brings the staker's reward up to the block time: the record
/// afterwards is the one that bringing reward up to date gives, with the
/// amount received added to the stake. Other records stay as they were.
pub proof fn lemma_stake_settles_reward_first(
    m: Model,
    now: u64,
    token: Seq<char>,
    amount: u128,
    check: Result<String, String>,
)
    requires
        m.receive(now, token, amount, check) is Ok,
        token == m.config.stake_token_address@,
        (if m.stakers.contains_key(check->Ok_0@) { m.stakers[check->Ok_0@].0 } else { 0 }) + amount
            <= u128::MAX,
        m.config.stake_amount + amount <= u128::MAX,
    ensures
        ({
            let user = check->Ok_0@;
            let settled = m.update_reward(user, now).stakers[user];
            let next = m.receive(now, token, amount, check)->Ok_0.0;
            &&& next.stakers.contains_key(user)
            &&& next.stakers[user].0 == settled.0 + amount
            &&& next.stakers[user].1 == settled.1
            &&& next.stakers[user].2 == settled.2
            &&& next.stakers.remove(user) == m.stakers.remove(user)
            &&& next.config.stake_amount == m.config.stake_amount + amount
        }),
{
    let user = check->Ok_0@;
    let next = m.receive(now, token, amount, check)->Ok_0.0;
    assert(next.stakers.remove(user) =~= m.stakers.remove(user));
}

/// Claiming pays out the reward brought up to the block time, sets it to
/// zero, and takes it off the reward tokens held; the transfer and the
/// `reward_amount` attribute carry that same amount.
pub proof fn lemma_claim_pays_settled_reward(m: Model, now: u64, sender: Seq<char>)
    requires
        m.claim_reward(now, sender) is Ok,
    ensures
        ({
            let settled = m.update_reward(sender, now).stakers[sender];
            let (next, reply) = m.claim_reward(now, sender)->Ok_0;
            &&& settled.1 > 0
            &&& next.stakers[sender] == (settled.0, 0u128, settled.2)
            &&& next.stakers.remove(sender) == m.stakers.remove(sender)
            &&& next.config.reward_amount == m.config.reward_amount - settled.1
            &&& reply.messages == seq![
                (m.config.reward_token_address@, cw20_transfer_json(sender, settled.1)),
            ]
            &&& reply.attributes[2] == ("reward_amount"@, decimal(settled.1 as nat))
        }),
{
    let next = m.claim_reward(now, sender)->Ok_0.0;
    assert(next.stakers.remove(sender) =~= m.stakers.remove(sender));
}

/// A fetch sends a single transfer, of the stake token to the sender, of
/// exactly the amount of the pending unstake at the requested index; that
/// same amount is taken off the stake held and reported, and only that
/// entry leaves the list.
pub proof fn lemma_fetch_pays_entry(m: Model, now: u64, sender: Seq<char>, index: u64)
    requires
        m.fetch_unstake(now, sender, index) is Ok,
    ensures
        ({
            let (next, reply) = m.fetch_unstake(now, sender, index)->Ok_0;
            let list = pending_of(m.unstaking, sender);
            &&& index < list.len()
            &&& reply.messages == seq![
                (m.config.stake_token_address@, cw20_transfer_json(sender, list[index as int].0)),
            ]
            &&& reply.attributes[2] == ("stake_amount"@, decimal(list[index as int].0 as nat))
            &&& next.config.stake_amount == m.config.stake_amount - list[index as int].0
            &&& next.unstaking[sender] == list.remove(index as int)
            &&& next.unstaking.remove(sender) == m.unstaking.remove(sender)
        }),
{
    let next = m.fetch_unstake(now, sender, index)->Ok_0.0;
    assert(next.unstaking.remove(sender) =~= m.unstaking.remove(sender));
}

/// Adding stakers leaves the record of every address not in the list
/// exactly as it was, present with the same value or absent; the
/// configuration and the pending unstakes stay as they were.
pub proof fn lemma_add_stakers_keeps_others(m: Model, owner: Seq<char>, list: Seq<StakerInfo>, k: Seq<char>)
    requires
        m.add_stakers(owner, list) is Ok,
        forall|i: int| 0 <= i < list.len() ==> (#[trigger] list[i]).address@ != k,
    ensures
        ({
            let next = m.add_stakers(owner, list)->Ok_0.0;
            &&& next.stakers.contains_key(k) == m.stakers.contains_key(k)
            &&& m.stakers.contains_key(k) ==> next.stakers[k] == m.stakers[k]
            &&& next.config == m.config
            &&& next.unstaking == m.unstaking
        }),
{
    lemma_insert_all_others(m.stakers, list, k);
}

proof fn lemma_insert_all_others(m: Map<Seq<char>, crate::state::StakeRecord>, list: Seq<StakerInfo>, k: Seq<char>)
    requires
        forall|i: int| 0 <= i < list.len() ==> (#[trigger] list[i]).address@ != k,
    ensures
        insert_all(m, list).contains_key(k) == m.contains_key(k),
        m.contains_key(k) ==> insert_all(m, list)[k] == m[k],
    decreases list.len(),
{
    if list.len() > 0 {
        let prefix = list.drop_last();
        assert forall|i: int| 0 <= i < prefix.len() implies (#[trigger] prefix[i]).address@ != k by {
            assert(prefix[i] == list[i]);
        }
        lemma_insert_all_others(m, prefix, k);
        assert(list[list.len() - 1].address@ != k);
    }
}

/// After a successful constants update the configuration holds exactly the
/// values requested; the owner, the token addresses and the amounts held,
/// the stakers and the pending unstakes stay as they were.
pub proof fn lemma_update_constants_sets(
    m: Model,
    owner: Seq<char>,
    daily_reward_amount: u128,
    apy_prefix: u128,
    reward_interval: u64,
    lock_days: u64,
    enabled: bool,
)
    requires
        m.update_constants(owner, daily_reward_amount, apy_prefix, reward_interval, lock_days, enabled) is Ok,
    ensures
        ({
            let (next, reply) = m.update_constants(
                owner,
                daily_reward_amount,
                apy_prefix,
                reward_interval,
                lock_days,
                enabled,
            )->Ok_0;
            &&& next.config.daily_reward_amount == daily_reward_amount
            &&& next.config.apy_prefix == apy_prefix
            &&& next.config.reward_interval == reward_interval
            &&& next.config.lock_days == lock_days
            &&& next.config.enabled == enabled
            &&& next.config.owner == m.config.owner
            &&& next.config.reward_token_address == m.config.reward_token_address
            &&& next.config.stake_token_address == m.config.stake_token_address
            &&& next.config.reward_amount == m.config.reward_amount
            &&& next.config.stake_amount == m.config.stake_amount
            &&& next.stakers == m.stakers
            &&& next.unstaking == m.unstaking
            &&& reply.attributes == seq![("action"@, "update_constants"@)]
            &&& reply.messages.len() == 0
        }),
{
}

/// Creating an unstake first brings the sender's reward up to the block
/// time, then moves the amount out of the stake into a new pending entry at
/// the end of the sender's list, unlocking `lock_days` days from now; the
/// attribute `stake_amount` reports the stake before the move.
pub proof fn lemma_create_unstake_effect(m: Model, now: u64, sender: Seq<char>, amount: u128)
    requires
        m.create_unstake(now, sender, amount) is Ok,
        now + m.config.lock_days * 86400 <= u64::MAX,
    ensures
        ({
            let settled = m.update_reward(sender, now).stakers[sender];
            let before = if m.unstaking.contains_key(sender) { m.unstaking[sender] } else { Seq::empty() };
            let (next, reply) = m.create_unstake(now, sender, amount)->Ok_0;
            &&& amount > 0
            &&& settled.0 >= amount
            &&& next.stakers[sender] == ((settled.0 - amount) as u128, settled.1, settled.2)
            &&& next.stakers.remove(sender) == m.stakers.remove(sender)
            &&& next.unstaking[sender] == before.push((amount, (now + m.config.lock_days * 86400) as u64))
            &&& next.unstaking.remove(sender) == m.unstaking.remove(sender)
            &&& next.config.stake_amount == m.config.stake_amount - amount
            &&& next.config.reward_amount == m.config.reward_amount
            &&& reply.messages.len() == 0
            &&& reply.attributes == seq![
                ("action"@, "create_unstake"@),
                ("address"@, sender),
                ("stake_amount"@, decimal(settled.0 as nat)),
            ]
        }),
{
    let next = m.create_unstake(now, sender, amount)->Ok_0.0;
    assert(next.stakers.remove(sender) =~= m.stakers.remove(sender));
    assert(next.unstaking.remove(sender) =~= m.unstaking.remove(sender));
}

/// Reward tokens received fund the rewards: the reward tokens held grow by
/// the amount, and nothing else changes.
pub proof fn lemma_fund_effect(m: Model, now: u64, token: Seq<char>, amount: u128, check: Result<String, String>)
    requires
        m.receive(now, token, amount, check) is Ok,
        token != m.config.stake_token_address@,
        m.config.reward_amount + amount <= u128::MAX,
    ensures
        ({
            let (next, reply) = m.receive(now, token, amount, check)->Ok_0;
            &&& token == m.config.reward_token_address@
            &&& next.config.reward_amount == m.config.reward_amount + amount
            &&& next.config.stake_amount == m.config.stake_amount
            &&& next.stakers == m.stakers
            &&& next.unstaking == m.unstaking
            &&& reply.messages.len() == 0
            &&& reply.attributes == seq![
                ("action"@, "fund"@),
                ("address"@, check->Ok_0@),
                ("amount"@, decimal(amount as nat)),
            ]
        }),
{
}

/// Receiving refuses, in this order: a disabled contract, a zero amount, an
/// invalid sender address, and a token that is neither the stake nor the
/// reward token.
pub proof fn lemma_receive_refusals(m: Model, now: u64, token: Seq<char>, amount: u128, check: Result<String, String>)
    ensures
        !m.config.enabled ==> m.receive(now, token, amount, check) == Err::<(Model, ReplyView), ErrorView>(
            ErrorView::Disabled,
        ),
        m.config.enabled && amount == 0 ==> m.receive(now, token, amount, check) == Err::<
            (Model, ReplyView),
            ErrorView,
        >(ErrorView::InvalidInput),
        m.config.enabled && amount != 0 && check is Err ==> m.receive(now, token, amount, check) == Err::<
            (Model, ReplyView),
            ErrorView,
        >(ErrorView::Std(check->Err_0@)),
        m.config.enabled && amount != 0 && check is Ok && token != m.config.stake_token_address@ && token
            != m.config.reward_token_address@ ==> m.receive(now, token, amount, check) == Err::<
            (Model, ReplyView),
            ErrorView,
        >(ErrorView::UnacceptableToken),
        m.config.enabled && amount != 0 && check is Ok && (token == m.config.stake_token_address@ || token
            == m.config.reward_token_address@) ==> m.receive(now, token, amount, check) is Ok,
{
}

/// Claiming is refused, on an enabled contract, exactly when the reward
/// brought up to date is zero (`NoReward`) or more than the reward tokens
/// held (`NotEnoughReward`).
pub proof fn lemma_claim_refusals(m: Model, now: u64, sender: Seq<char>)
    requires
        m.config.enabled,
    ensures
        ({
            let settled = m.update_reward(sender, now).stakers[sender];
            &&& settled.1 == 0 ==> m.claim_reward(now, sender) == Err::<(Model, ReplyView), ErrorView>(
                ErrorView::NoReward,
            )
            &&& settled.1 > 0 && m.config.reward_amount < settled.1 ==> m.claim_reward(now, sender)
                == Err::<(Model, ReplyView), ErrorView>(ErrorView::NotEnoughReward)
            &&& settled.1 > 0 && m.config.reward_amount >= settled.1 ==> m.claim_reward(now, sender) is Ok
        }),
{
}

/// Creating an unstake is refused, on an enabled contract, for a zero amount
/// and for more than the sender's stake or the stake held; otherwise it
/// succeeds.
pub proof fn lemma_create_unstake_refusals(m: Model, now: u64, sender: Seq<char>, amount: u128)
    requires
        m.config.enabled,
    ensures
        ({
            let stake = m.update_reward(sender, now).stakers[sender].0;
            &&& amount == 0 ==> m.create_unstake(now, sender, amount) == Err::<(Model, ReplyView), ErrorView>(
                ErrorView::InvalidInput,
            )
            &&& amount > 0 && (stake < amount || m.config.stake_amount < amount) ==> m.create_unstake(
                now,
                sender,
                amount,
            ) == Err::<(Model, ReplyView), ErrorView>(ErrorView::NotEnoughStake)
            &&& amount > 0 && stake >= amount && m.config.stake_amount >= amount ==> m.create_unstake(
                now,
                sender,
                amount,
            ) is Ok
        }),
{
}

/// Fetching is refused, on an enabled contract, where there is no pending
/// unstake at the index, where it is more than the stake held, or before it
/// unlocks; otherwise it succeeds.
pub proof fn lemma_fetch_refusals(m: Model, now: u64, sender: Seq<char>, index: u64)
    requires
        m.config.enabled,
    ensures
        ({
            let list = if m.unstaking.contains_key(sender) { m.unstaking[sender] } else { Seq::empty() };
            &&& list.len() <= index ==> m.fetch_unstake(now, sender, index) == Err::<
                (Model, ReplyView),
                ErrorView,
            >(ErrorView::NotCreatedUnstaking)
            &&& index < list.len() && m.config.stake_amount < list[index as int].0 ==> m.fetch_unstake(
                now,
                sender,
                index,
            ) == Err::<(Model, ReplyView), ErrorView>(ErrorView::NotEnoughStake)
            &&& index < list.len() && m.config.stake_amount >= list[index as int].0 && list[index as int].1
                > now ==> m.fetch_unstake(now, sender, index) == Err::<(Model, ReplyView), ErrorView>(
                ErrorView::StillLocked,
            )
            &&& index < list.len() && m.config.stake_amount >= list[index as int].0 && list[index as int].1
                <= now ==> m.fetch_unstake(now, sender, index) is Ok
        }),
{
}

/// The owner's withdrawal sends all reward tokens held to the owner and
/// leaves none; nothing else changes.
pub proof fn lemma_withdraw_reward_effect(m: Model, owner: Seq<char>)
    requires
        m.withdraw_reward(owner) is Ok,
    ensures
        ({
            let (next, reply) = m.withdraw_reward(owner)->Ok_0;
            &&& m.config.owner matches Some(o) && o@ == owner
            &&& reply.messages == seq![
                (m.config.reward_token_address@, cw20_transfer_json(owner, m.config.reward_amount)),
            ]
            &&& reply.attributes == seq![
                ("action"@, "reward_withdraw_all"@),
                ("address"@, owner),
                ("reward_amount"@, decimal(m.config.reward_amount as nat)),
            ]
            &&& next.config.reward_amount == 0
            &&& next.config.stake_amount == m.config.stake_amount
            &&& next.stakers == m.stakers
            &&& next.unstaking == m.unstaking
        }),
{
}

/// The owner's withdrawal sends all stake tokens held to the owner and
/// leaves none; nothing else changes.
pub proof fn lemma_withdraw_stake_effect(m: Model, owner: Seq<char>)
    requires
        m.withdraw_stake(owner) is Ok,
    ensures
        ({
            let (next, reply) = m.withdraw_stake(owner)->Ok_0;
            &&& m.config.owner matches Some(o) && o@ == owner
            &&& reply.messages == seq![
                (m.config.stake_token_address@, cw20_transfer_json(owner, m.config.stake_amount)),
            ]
            &&& reply.attributes == seq![
                ("action"@, "stake_withdraw_all"@),
                ("address"@, owner),
                ("stake_amount"@, decimal(m.config.stake_amount as nat)),
            ]
            &&& next.config.stake_amount == 0
            &&& next.config.reward_amount == m.config.reward_amount
            &&& next.stakers == m.stakers
            &&& next.unstaking == m.unstaking
        }),
{
}

/// The owner's configuration update sets the owner to the validated new
/// owner, or to none; nothing else changes.
pub proof fn lemma_update_config_effect(m: Model, owner: Seq<char>, owner_check: Option<Result<String, String>>)
    requires
        m.update_config(owner, owner_check) is Ok,
    ensures
        ({
            let next = m.update_config(owner, owner_check)->Ok_0.0;
            &&& owner_check is None ==> next.config.owner is None
            &&& owner_check matches Some(Ok(a)) ==> next.config.owner == Some(a)
            &&& owner_check matches Some(Err(_)) ==> false
            &&& next.config.reward_amount == m.config.reward_amount
            &&& next.config.stake_amount == m.config.stake_amount
            &&& next.config.daily_reward_amount == m.config.daily_reward_amount
            &&& next.config.enabled == m.config.enabled
            &&& next.stakers == m.stakers
            &&& next.unstaking == m.unstaking
        }),
{
}

/// Removing a staker leaves every other record as it was.
pub proof fn lemma_remove_staker_keeps_others(m: Model, owner: Seq<char>, address: Seq<char>, k: Seq<char>)
    requires
        m.remove_staker(owner, address) is Ok,
        k != address,
    ensures
        ({
            let next = m.remove_staker(owner, address)->Ok_0.0;
            &&& next.stakers.contains_key(k) == m.stakers.contains_key(k)
            &&& m.stakers.contains_key(k) ==> next.stakers[k] == m.stakers[k]
            &&& next.config == m.config
            &&& next.unstaking == m.unstaking
        }),
{
}

/// A new contract is owned by the validated owner, or by the sender where
/// none was asked for; it holds no tokens, is enabled, and takes the tokens
/// and constants from the message.
pub proof fn lemma_initial_config(
    sender: String,
    msg: crate::msg::InstantiateMsg,
    owner_check: Option<Result<String, String>>,
)
    ensures
        ({
            let c = initial_config(sender, msg, owner_check);
            &&& c.owner == Some(
                match owner_check {
                    Some(Ok(a)) => a,
                    _ => sender,
                },
            )
            &&& c.reward_token_address == msg.reward_token_address
            &&& c.stake_token_address == msg.stake_token_address
            &&& c.reward_amount == 0
            &&& c.stake_amount == 0
            &&& c.daily_reward_amount == msg.daily_reward_amount
            &&& c.apy_prefix == msg.apy_prefix
            &&& c.reward_interval == msg.reward_interval
            &&& c.lock_days == msg.lock_days
            &&& c.enabled
        }),
{
}

/// Lookups: the record of an address without one is zeros, its pending
/// list is empty, and a listing holds ten stakers unless asked for more,
/// and never more than thirty.
pub proof fn lemma_lookups(
    stakers: Map<Seq<char>, crate::state::StakeRecord>,
    unstaking: Map<Seq<char>, Seq<crate::state::Unstake>>,
    k: Seq<char>,
    limit: Option<u32>,
)
    ensures
        record_of(stakers, k) == (if stakers.contains_key(k) { stakers[k] } else { (0u128, 0u128, 0u64) }),
        pending_of(unstaking, k) == (if unstaking.contains_key(k) { unstaking[k] } else { Seq::empty() }),
        limit is None ==> page_limit(limit) == 10,
        limit matches Some(l) ==> (l <= 30 ==> page_limit(limit) == l) && (l > 30 ==> page_limit(limit)
            == 30),
{
}

/// The configuration a query reports is the contract's, without `enabled`.
pub proof fn lemma_config_response(c: Config)
    ensures
        ({
            let r = crate::contract::config_response(c);
            &&& r.owner == c.owner
            &&& r.reward_token_address == c.reward_token_address
            &&& r.stake_token_address == c.stake_token_address
            &&& r.reward_amount == c.reward_amount
            &&& r.stake_amount == c.stake_amount
            &&& r.daily_reward_amount == c.daily_reward_amount
            &&& r.apy_prefix == c.apy_prefix
            &&& r.reward_interval == c.reward_interval
            &&& r.lock_days == c.lock_days
        }),
{
}

/// Each message does what its request does.
pub proof fn lemma_execute_dispatch(
    m: Model,
    now: u64,
    sender: Seq<char>,
    msg: ExecuteMsg,
    checked: Option<Result<String, String>>,
)
    ensures
        m.execute(now, sender, msg, checked) == match msg {
            ExecuteMsg::UpdateConfig { .. } => m.update_config(sender, checked),
            ExecuteMsg::UpdateConstants {
                daily_reward_amount,
                apy_prefix,
                reward_interval,
                lock_days,
                enabled,
            } => m.update_constants(sender, daily_reward_amount, apy_prefix, reward_interval, lock_days, enabled),
            ExecuteMsg::Receive(w) => match checked {
                Some(c) => m.receive(now, sender, w.amount, c),
                None => m.execute(now, sender, msg, checked),
            },
            ExecuteMsg::WithdrawReward {} => m.withdraw_reward(sender),
            ExecuteMsg::WithdrawStake {} => m.withdraw_stake(sender),
            ExecuteMsg::ClaimReward {} => m.claim_reward(now, sender),
            ExecuteMsg::CreateUnstake { unstake_amount } => m.create_unstake(now, sender, unstake_amount),
            ExecuteMsg::FetchUnstake { index } => m.fetch_unstake(now, sender, index),
            ExecuteMsg::AddStakers { stakers } => m.add_stakers(sender, stakers@),
            ExecuteMsg::RemoveStaker { address } => m.remove_staker(sender, address@),
            ExecuteMsg::RemoveAllStakers { .. } => m.remove_all_stakers(sender, checked),
        },
{
}

/// The reported yield, while something is staked: the prefix times ten to
/// the twentieth, divided by the stake rate (the supply in units of ten to
/// the tenth, plus ten thousand), is shared by the stake held and rounded
/// down; with nothing staked it is zero.
pub proof fn lemma_apy_value(cfg: Config, supply: u128)
    ensures
        cfg.stake_amount == 0 ==> apy(cfg, supply) == 0,
        cfg.stake_amount > 0 ==> ({
            let scaled = cfg.apy_prefix * 100_000_000_000_000_000_000int / ((supply as int) / 10_000_000_000int
                + 10000);
            &&& apy(cfg, supply) * cfg.stake_amount <= scaled
            &&& scaled < (apy(cfg, supply) + 1) * cfg.stake_amount
        }),
{
    if cfg.stake_amount > 0 {
        let rate = (supply as int) / 10_000_000_000int + 10000;
        assert(stake_rate(supply) == rate);
        assert(cfg.apy_prefix * MULTIPLE * MULTIPLE == cfg.apy_prefix * 100_000_000_000_000_000_000int)
            by (nonlinear_arith)
            requires
                MULTIPLE == 10_000_000_000u128,
        ;
        let scaled = cfg.apy_prefix * 100_000_000_000_000_000_000int / rate;
        let a = apy(cfg, supply);
        assert(a == scaled / (cfg.stake_amount as int));
        let d = cfg.stake_amount as int;
        assert(a * d <= scaled && scaled < (a + 1) * d) by (nonlinear_arith)
            requires
                a == scaled / d,
                d > 0,
        ;
    }
}

} // verus!
