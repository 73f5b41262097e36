use vstd::prelude::*;

use crate::bignat::{lemma_pow10_positive, pow10};
use crate::contract::{
    new_stake_view, rps_update_ok, with_end_time, change_stake_type_spec, create_stake_spec, deposit_check, find_stake, is_first_match, key_of,
    owner_check, set_end_time_check, set_rewards_per_second_check, set_stake_active_spec,
    set_stake_inactive_spec, with_deposit, with_withdrawal, withdraw_amount, ContractView,
};
use crate::errors::StakingError;
use crate::rewards::{
    reward_of, lemma_reward_at_mint_index, minted_above, settle, total_amount, total_rewards, LiquidPayment,
};
use crate::storage::{pool_is_active, RewardView, StakeType, State};
use crate::user::{
    claim_rewards_next, liquid_check, same_token, started, user_stake_check, user_stake_next,
    user_unstake_next,
};

verus! {

/// A pool's id, owner and tokens never change once it exists, and no request
/// but the issue callback adds or removes pools: every other accepted request
/// only replaces the reward state of one pool.
pub proof fn requests_keep_pool_identities(c: ContractView, i: int, n: RewardView)
    requires
        c.well_formed(),
        0 <= i < c.stakes.len(),
    ensures
        c.with_numbers(i, n).well_formed(),
        c.with_numbers(i, n).stakes.len() == c.stakes.len(),
        c.with_numbers(i, n).state == c.state,
        c.with_numbers(i, n).platform_sc == c.platform_sc,
        forall|j: int|
            0 <= j < c.stakes.len() ==> {
                let s = #[trigger] c.with_numbers(i, n).stakes[j];
                &&& s.id == c.stakes[j].id
                &&& s.owner == c.stakes[j].owner
                &&& s.token == c.stakes[j].token
                &&& s.liquid_token == c.stakes[j].liquid_token
                &&& s.reward_token == c.stakes[j].reward_token
            },
{
}

/// While the contract is inactive, every request but the issue callback is
/// refused with `ContractInactive` (and so changes nothing).
pub proof fn inactive_contract_refuses(
    c: ContractView,
    caller: Seq<u8>,
    caller_whitelisted: bool,
    token: Seq<u8>,
    now: u64,
    id: u64,
    rewards_per_second: nat,
    new_end_time: u64,
    new_stake_type: StakeType,
    ps: Seq<LiquidPayment>,
)
    requires
        c.state == State::Inactive,
    ensures
        caller_whitelisted ==> create_stake_spec(c, caller_whitelisted, token) == Err::<Seq<u8>, StakingError>(
            StakingError::ContractInactive,
        ),
        set_stake_active_spec(c, caller, now, id) == Err::<ContractView, StakingError>(
            StakingError::ContractInactive,
        ),
        set_stake_inactive_spec(c, caller, id) == Err::<ContractView, StakingError>(
            StakingError::ContractInactive,
        ),
        change_stake_type_spec(c, caller, id, new_stake_type) == Err::<ContractView, StakingError>(
            StakingError::ContractInactive,
        ),
        set_rewards_per_second_check(c, caller, id, rewards_per_second) == Some(
            StakingError::ContractInactive,
        ),
        set_end_time_check(c, caller, now, id, new_end_time) == Some(StakingError::ContractInactive),
        deposit_check(c, id, token) == Some(StakingError::ContractInactive),
        owner_check(c, caller, id) == Some(StakingError::ContractInactive),
        user_stake_check(c, token) == Err::<int, StakingError>(StakingError::ContractInactive),
        liquid_check(c, ps) == Err::<int, StakingError>(StakingError::ContractInactive),
{
}

/// Only its owner may change a pool: in an active contract, every owner-only
/// request on an existing pool from another caller is refused with
/// `NotStakeOwner` (once its own argument checks pass).
pub proof fn only_owner_changes_pool(
    c: ContractView,
    caller: Seq<u8>,
    now: u64,
    id: u64,
    rewards_per_second: nat,
    new_end_time: u64,
    new_stake_type: StakeType,
)
    requires
        c.state == State::Active,
        id < c.stakes.len(),
        c.stakes[id as int].owner != caller,
    ensures
        set_stake_active_spec(c, caller, now, id) == Err::<ContractView, StakingError>(
            StakingError::NotStakeOwner,
        ),
        set_stake_inactive_spec(c, caller, id) == Err::<ContractView, StakingError>(
            StakingError::NotStakeOwner,
        ),
        change_stake_type_spec(c, caller, id, new_stake_type) == Err::<ContractView, StakingError>(
            StakingError::NotStakeOwner,
        ),
        owner_check(c, caller, id) == Some(StakingError::NotStakeOwner),
        rewards_per_second > 0 ==> set_rewards_per_second_check(c, caller, id, rewards_per_second)
            == Some(StakingError::NotStakeOwner),
        new_end_time > now ==> set_end_time_check(c, caller, now, id, new_end_time) == Some(
            StakingError::NotStakeOwner,
        ),
{
}

/// Withdrawing all the rewards leaves a pool that is not active at any time.
pub proof fn withdrawing_all_deactivates(n: RewardView, now: u64)
    requires
        with_withdrawal(n, withdraw_amount(n, None)) is Ok,
    ensures
        !pool_is_active(with_withdrawal(n, withdraw_amount(n, None))->Ok_0, now),
{
}

/// Withdrawing what was just deposited gives back the reward state before the deposit.
pub proof fn withdraw_undoes_deposit(n: RewardView, amount: nat)
    ensures
        with_withdrawal(with_deposit(n, amount), amount) == Ok::<RewardView, StakingError>(n),
{
}

/// Liquid tokens minted at the current reward index have earned nothing yet:
/// unstaking or claiming them right away pays back their amount and no rewards.
pub proof fn fresh_liquid_tokens_earn_nothing(p: LiquidPayment, decimals: u8)
    ensures
        settle(seq![p], p.attributes.rps@, decimals) == Ok::<(nat, nat), StakingError>(
            (p.amount@, 0),
        ),
{
    let ps = seq![p];
    assert(ps.drop_last() =~= Seq::<LiquidPayment>::empty());
    assert(!minted_above(ps, p.attributes.rps@));
    lemma_reward_at_mint_index(p.amount@, p.attributes.rps@, decimals);
    assert(ps.last() == p);
    assert(total_amount(ps.drop_last()) == 0);
    assert(total_rewards(ps.drop_last(), p.attributes.rps@, decimals) == 0);
}

/// Replacing the reward state of a pool does not change which pool a token leads to.
proof fn lemma_find_ignores_numbers(c: ContractView, j: int, n: RewardView, token: Seq<u8>, liquid: bool)
    requires
        0 <= j < c.stakes.len(),
    ensures
        find_stake(c.with_numbers(j, n).stakes, token, liquid) == find_stake(c.stakes, token, liquid),
{
    let c1 = c.with_numbers(j, n);
    assert forall|m: int| 0 <= m < c.stakes.len() implies key_of(#[trigger] c1.stakes[m], liquid)
        == key_of(c.stakes[m], liquid) by {}
    assert forall|k: int| #[trigger] is_first_match(c1.stakes, token, liquid, k) <==> is_first_match(
        c.stakes,
        token,
        liquid,
        k,
    ) by {
        if 0 <= k < c.stakes.len() {
            if is_first_match(c.stakes, token, liquid, k) {
                assert forall|m: int| 0 <= m < k implies key_of(#[trigger] c1.stakes[m], liquid) != token by {
                    assert(key_of(c.stakes[m], liquid) != token);
                }
            }
            if is_first_match(c1.stakes, token, liquid, k) {
                assert forall|m: int| 0 <= m < k implies key_of(#[trigger] c.stakes[m], liquid) != token by {
                    assert(key_of(c1.stakes[m], liquid) != token);
                }
            }
        }
    }
    if exists|k: int| is_first_match(c.stakes, token, liquid, k) {
        let k = choose|k: int| is_first_match(c.stakes, token, liquid, k);
        assert(is_first_match(c1.stakes, token, liquid, k));
        let k1 = choose|k: int| is_first_match(c1.stakes, token, liquid, k);
        assert(is_first_match(c.stakes, token, liquid, k1));
        assert(k1 == k) by {
            if k1 < k {
                assert(key_of(c.stakes[k1], liquid) != token);
            } else if k1 > k {
                assert(key_of(c.stakes[k], liquid) != token);
            }
        }
    } else {
        assert(!exists|k: int| is_first_match(c1.stakes, token, liquid, k));
    }
}

/// Within one block, withdrawing what was just deposited is accepted and
/// undoes the deposit: the pool is left as the deposit's reward update left
/// it. The withdrawal's update happens at the time the deposit's update
/// recorded, so it changes nothing.
pub proof fn withdraw_undoes_deposit_in_one_block(
    c: ContractView,
    id: u64,
    now: u64,
    owner: Seq<u8>,
    payment_token: Seq<u8>,
    amount: nat,
    u1: (RewardView, bool),
    u2: (RewardView, bool),
)
    requires
        c.well_formed(),
        c.state == State::Active,
        id < c.stakes.len(),
        c.stakes[id as int].owner == owner,
        deposit_check(c, id, payment_token) is None,
        rps_update_ok(c.stakes[id as int].numbers, now, u1),
        rps_update_ok(with_deposit(u1.0, amount), now, u2),
    ensures
        ({
            let c1 = c.with_numbers(id as int, with_deposit(u1.0, amount));
            &&& owner_check(c1, owner, id) is None
            &&& withdraw_amount(u2.0, Some(amount)) == amount
            &&& with_withdrawal(u2.0, amount) == Ok::<RewardView, StakingError>(u1.0)
            &&& c1.with_numbers(id as int, u1.0) == c.with_numbers(id as int, u1.0)
        }),
{
    let c1 = c.with_numbers(id as int, with_deposit(u1.0, amount));
    assert(u2.0 == with_deposit(u1.0, amount));
    assert(c1.with_numbers(id as int, u1.0).stakes =~= c.with_numbers(id as int, u1.0).stakes);
}

/// The reward index of a pool never decreases: after every accepted request
/// it is at least what it was before.
pub proof fn reward_index_never_decreases(
    c: ContractView,
    i: int,
    now: u64,
    amount: nat,
    rewards_per_second: nat,
    new_end_time: u64,
    opt_amount: Option<nat>,
    ps: Seq<LiquidPayment>,
    u: (RewardView, bool),
    us: (RewardView, bool),
)
    requires
        0 <= i < c.stakes.len(),
        rps_update_ok(c.stakes[i].numbers, now, u),
        rps_update_ok(started(c.stakes[i].numbers, now), now, us),
    ensures
        user_stake_next(c, i, now, amount, us) matches Ok(c1) ==> c1.stakes[i].numbers.rps
            >= c.stakes[i].numbers.rps,
        user_unstake_next(c, i, ps, u) matches Ok(c1) ==> c1.stakes[i].numbers.rps
            >= c.stakes[i].numbers.rps,
        claim_rewards_next(c, i, ps, u) matches Ok(c1) ==> c1.stakes[i].numbers.rps
            >= c.stakes[i].numbers.rps,
        with_deposit(u.0, amount).rps >= c.stakes[i].numbers.rps,
        with_withdrawal(u.0, withdraw_amount(u.0, opt_amount)) matches Ok(n) ==> n.rps
            >= c.stakes[i].numbers.rps,
        (RewardView { rewards_per_second, ..u.0 }).rps >= c.stakes[i].numbers.rps,
        with_end_time(u.0, new_end_time).rps >= c.stakes[i].numbers.rps,
{
}

/// Liquid tokens minted by a pool never carry an index above the pool's:
/// every mint carries the index the pool holds right after the request (see
/// `user_stake` and `claim_rewards`), and a pool's index only grows
/// (`reward_index_never_decreases`). So a payment of such tokens is never
/// refused for earning less than nothing, whatever the reward update did
/// since.
pub proof fn minted_tokens_never_earn_below_zero(
    ps: Seq<LiquidPayment>,
    n: RewardView,
    now: u64,
    u: (RewardView, bool),
)
    requires
        forall|j: int| 0 <= j < ps.len() ==> (#[trigger] ps[j]).attributes.rps@ <= n.rps,
        rps_update_ok(n, now, u),
    ensures
        !minted_above(ps, u.0.rps),
        settle(ps, u.0.rps, u.0.token_decimals) is Ok,
{
    assert forall|j: int| 0 <= j < ps.len() implies !(#[trigger] ps[j].attributes.rps@ > u.0.rps) by {
        assert(ps[j].attributes.rps@ <= n.rps);
    }
}

/// The staked amount of a pool moves exactly as its liquid supply does: a
/// stake adds what it mints, an unstake takes away what it burns, a claim
/// burns and mints the same amount and leaves the staked amount alone, and
/// the owner's requests leave it alone.
pub proof fn staked_amount_follows_liquid_supply(
    c: ContractView,
    i: int,
    now: u64,
    amount: nat,
    rewards_per_second: nat,
    new_end_time: u64,
    opt_amount: Option<nat>,
    ps: Seq<LiquidPayment>,
    u: (RewardView, bool),
    us: (RewardView, bool),
)
    requires
        0 <= i < c.stakes.len(),
        rps_update_ok(c.stakes[i].numbers, now, u),
        rps_update_ok(started(c.stakes[i].numbers, now), now, us),
    ensures
        user_stake_next(c, i, now, amount, us) matches Ok(c1) ==> c1.stakes[i].numbers.staked_amount
            == c.stakes[i].numbers.staked_amount + amount,
        user_unstake_next(c, i, ps, u) matches Ok(c1) ==> c1.stakes[i].numbers.staked_amount
            == c.stakes[i].numbers.staked_amount - total_amount(ps),
        claim_rewards_next(c, i, ps, u) matches Ok(c1) ==> c1.stakes[i].numbers.staked_amount
            == c.stakes[i].numbers.staked_amount && settle(ps, u.0.rps, u.0.token_decimals)->Ok_0.0
            == total_amount(ps),
        with_deposit(u.0, amount).staked_amount == c.stakes[i].numbers.staked_amount,
        with_withdrawal(u.0, withdraw_amount(u.0, opt_amount)) matches Ok(n) ==> n.staked_amount
            == c.stakes[i].numbers.staked_amount,
        (RewardView { rewards_per_second, ..u.0 }).staked_amount == c.stakes[i].numbers.staked_amount,
        with_end_time(u.0, new_end_time).staked_amount == c.stakes[i].numbers.staked_amount,
{
}

/// Within one block, unstaking the liquid tokens a stake just minted is
/// accepted (unless the reward update finds the pool out of rewards) and
/// brings the pool back to its state after the stake's own reward update:
/// the unstake returns the amount staked and pays no rewards.
pub proof fn unstake_undoes_stake(
    c: ContractView,
    now: u64,
    stake_token: Seq<u8>,
    amount: nat,
    u: (RewardView, bool),
    u2: (RewardView, bool),
    p: LiquidPayment,
)
    requires
        c.well_formed(),
        user_stake_check(c, stake_token) is Ok,
        rps_update_ok(started(c.stakes[user_stake_check(c, stake_token)->Ok_0].numbers, now), now, u),
        user_stake_next(c, user_stake_check(c, stake_token)->Ok_0, now, amount, u) is Ok,
        rps_update_ok(
            user_stake_next(c, user_stake_check(c, stake_token)->Ok_0, now, amount, u)->Ok_0.stakes[user_stake_check(
                c,
                stake_token,
            )->Ok_0].numbers,
            now,
            u2,
        ),
        u2.1,
        p.token@ == c.stakes[user_stake_check(c, stake_token)->Ok_0].liquid_token,
        find_stake(c.stakes, p.token@, true) == Some(user_stake_check(c, stake_token)->Ok_0),
        p.amount@ == amount,
        p.attributes.rps@ == u.0.rps,
    ensures
        ({
            let i = user_stake_check(c, stake_token)->Ok_0;
            let c1 = user_stake_next(c, i, now, amount, u)->Ok_0;
            &&& liquid_check(c1, seq![p]) == Ok::<int, StakingError>(i)
            &&& user_unstake_next(c1, i, seq![p], u2) == Ok::<ContractView, StakingError>(
                c.with_numbers(i, u.0),
            )
            &&& u.0.staked_amount == c.stakes[i].numbers.staked_amount
            &&& settle(seq![p], u2.0.rps, u2.0.token_decimals) == Ok::<(nat, nat), StakingError>(
                (amount, 0),
            )
        }),
{
    let i = user_stake_check(c, stake_token)->Ok_0;
    let c1 = user_stake_next(c, i, now, amount, u)->Ok_0;
    let n1 = RewardView { staked_amount: u.0.staked_amount + amount, ..u.0 };
    assert(is_first_match(c.stakes, stake_token, false, i));
    assert(c1 == c.with_numbers(i, n1));
    assert(c1.stakes[i].numbers == n1);
    assert(u2.0 == n1);
    fresh_liquid_tokens_earn_nothing(p, n1.token_decimals);
    lemma_find_ignores_numbers(c, i, n1, p.token@, true);
    assert(same_token(seq![p]));
    assert(c1.with_numbers(i, u.0) =~= c.with_numbers(i, u.0)) by {
        assert(c1.with_numbers(i, u.0).stakes =~= c.with_numbers(i, u.0).stakes);
    }
}

/// Within one block, claiming again with the liquid tokens a claim just
/// minted is accepted, pays no rewards, mints the same amount again and
/// leaves the storage as the first claim left it.
pub proof fn second_claim_in_one_block_pays_nothing(
    c: ContractView,
    now: u64,
    ps: Seq<LiquidPayment>,
    u: (RewardView, bool),
    u2: (RewardView, bool),
    p: LiquidPayment,
)
    requires
        c.well_formed(),
        liquid_check(c, ps) is Ok,
        rps_update_ok(c.stakes[liquid_check(c, ps)->Ok_0].numbers, now, u),
        claim_rewards_next(c, liquid_check(c, ps)->Ok_0, ps, u) is Ok,
        rps_update_ok(u.0, now, u2),
        p.token@ == ps[0].token@,
        p.amount@ == settle(ps, u.0.rps, u.0.token_decimals)->Ok_0.0,
        p.attributes.rps@ == u.0.rps,
    ensures
        ({
            let i = liquid_check(c, ps)->Ok_0;
            let c1 = claim_rewards_next(c, i, ps, u)->Ok_0;
            &&& liquid_check(c1, seq![p]) == Ok::<int, StakingError>(i)
            &&& settle(seq![p], u2.0.rps, u2.0.token_decimals) == Ok::<(nat, nat), StakingError>(
                (p.amount@, 0),
            )
            &&& claim_rewards_next(c1, i, seq![p], u2) == Ok::<ContractView, StakingError>(c1)
        }),
{
    let i = liquid_check(c, ps)->Ok_0;
    let c1 = claim_rewards_next(c, i, ps, u)->Ok_0;
    assert(c1 == c.with_numbers(i, u.0));
    assert(u2.0 == u.0);
    fresh_liquid_tokens_earn_nothing(p, u.0.token_decimals);
    lemma_find_ignores_numbers(c, i, u.0, p.token@, true);
    assert(same_token(seq![p]));
    assert(c1.with_numbers(i, u.0) =~= c1) by {
        assert(c1.with_numbers(i, u.0).stakes =~= c1.stakes);
    }
}

/// The rewards of a payment are its amount times the rise of the reward
/// index since it was minted, divided once by one whole staked token and
/// rounded down: `r * 10^d <= amount * (rps - minted_rps) < (r + 1) * 10^d`.
pub proof fn reward_is_the_rounded_down_quotient(amount: nat, rps: nat, minted_rps: nat, decimals: u8)
    requires
        minted_rps <= rps,
    ensures
        reward_of(amount, rps, minted_rps, decimals) * pow10(decimals as nat) <= amount * (rps
            - minted_rps),
        amount * (rps - minted_rps) < (reward_of(amount, rps, minted_rps, decimals) + 1) * pow10(
            decimals as nat,
        ),
{
    lemma_pow10_positive(decimals as nat);
    let d = pow10(decimals as nat) as int;
    let g = rps - minted_rps;
    let p = amount * g;
    assert(p >= 0) by (nonlinear_arith)
        requires
            amount >= 0,
            g >= 0,
            p == amount * g,
    ;
    let q = p / d;
    assert(0 <= q && q * d <= p && p < (q + 1) * d) by (nonlinear_arith)
        requires
            d >= 1,
            p >= 0,
            q == p / d,
    ;
    assert(reward_of(amount, rps, minted_rps, decimals) == q);
}

/// The issue callback stores a pool made of its own arguments: the next id,
/// the caller as owner, the staked token, its decimals, the liquid token that
/// was issued, the reward token and the stake type asked for; the pool starts
/// inactive and empty, and the pools before it are untouched.
pub proof fn new_pool_holds_the_callback_arguments(
    c: ContractView,
    caller: Seq<u8>,
    stake_type: StakeType,
    token: Seq<u8>,
    token_decimals: u8,
    liquid_token: Seq<u8>,
    reward_token: Seq<u8>,
)
    ensures
        ({
            let id = c.stakes.len() as u64;
            let c1 = ContractView {
                stakes: c.stakes.push(
                    new_stake_view(id, caller, stake_type, token, token_decimals, liquid_token, reward_token),
                ),
                ..c
            };
            let s = c1.stakes[c.stakes.len() as int];
            &&& c1.stakes.len() == c.stakes.len() + 1
            &&& forall|j: int| 0 <= j < c.stakes.len() ==> #[trigger] c1.stakes[j] == c.stakes[j]
            &&& s.id == id
            &&& s.owner == caller
            &&& s.token == token
            &&& s.liquid_token == liquid_token
            &&& s.reward_token == reward_token
            &&& s.numbers.stake_type == stake_type
            &&& s.numbers.token_decimals == token_decimals
            &&& s.numbers.state == State::Inactive
            &&& s.numbers.staked_amount == 0
            &&& s.numbers.rewards_amount == 0
            &&& s.numbers.claimable_rewards == 0
            &&& s.numbers.remaining_rewards == 0
            &&& s.numbers.rewards_per_second == 0
            &&& s.numbers.rps == 0
            &&& s.numbers.start_time == 0
            &&& s.numbers.end_time == 0
            &&& s.numbers.remaining_time == 0
            &&& s.numbers.last_rps_update_time == 0
        }),
{
}

/// Moving the end of a pool to `new_end_time` sets its end there and, for a
/// pool that has started and has an end, whatever its stake type, shifts its
/// remaining time by as much as the end moved (modulo 2^64, as `u64`
/// arithmetic wraps): remaining' = remaining + new_end_time - old end. A pool
/// that has not started keeps its remaining time. `n` is the pool before the
/// request and `w` what its reward update answered.
pub proof fn moving_the_end_shifts_remaining_time(
    n: RewardView,
    now: u64,
    w: (RewardView, bool),
    new_end_time: u64,
)
    requires
        rps_update_ok(n, now, w),
    ensures
        ({
            let r = with_end_time(w.0, new_end_time);
            &&& r.end_time == new_end_time
            &&& n.start_time > 0 && n.end_time > 0 ==> r.remaining_time as int == (w.0.remaining_time
                + new_end_time - n.end_time) % 0x1_0000_0000_0000_0000int
            &&& !(n.start_time > 0 && n.end_time > 0) ==> r.remaining_time == w.0.remaining_time
            &&& RewardView { remaining_time: w.0.remaining_time, end_time: w.0.end_time, ..r } == w.0
        }),
{
    let r = with_end_time(w.0, new_end_time);
    if n.start_time > 0 && n.end_time > 0 {
        let x = w.0.remaining_time as int;
        let e = new_end_time as int;
        let o = n.end_time as int;
        let m = 0x1_0000_0000_0000_0000int;
        let a = w.0.remaining_time.wrapping_add(new_end_time) as int;
        assert(a == x + e || a == x + e - m);
        assert(r.remaining_time as int == a - o || r.remaining_time as int == a - o + m);
        let v = r.remaining_time as int;
        assert(0 <= v < m);
        assert(v == (x + e - o) + m || v == x + e - o || v == (x + e - o) - m || v == (x + e - o)
            - 2 * m);
        assert(v == (x + e - o) % m) by (nonlinear_arith)
            requires
                0 <= v < m,
                m > 0,
                v == (x + e - o) + m || v == x + e - o || v == (x + e - o) - m || v == (x + e - o) - 2
                    * m,
        ;
    }
}

/// An active pool has not ended: it is switched on, its end lies after `now`,
/// and it still has rewards to pay, no fewer than it owes.
pub proof fn active_pool_has_not_ended(n: RewardView, now: u64)
    requires
        pool_is_active(n, now),
    ensures
        n.state == State::Active,
        n.end_time > now,
        n.remaining_rewards > 0,
        n.remaining_rewards >= n.claimable_rewards,
{
}

/// A stake at or after the end of its pool is refused, whatever the reward
/// update answered: with `StakeInactive` when the pool still has rewards, and
/// `OutOfRewards` otherwise. A refused stake changes nothing (see `user_stake`).
pub proof fn no_stake_after_the_end(c: ContractView, i: int, now: u64, amount: nat, u: (RewardView, bool))
    requires
        0 <= i < c.stakes.len(),
        c.stakes[i].numbers.end_time <= now,
        rps_update_ok(started(c.stakes[i].numbers, now), now, u),
    ensures
        user_stake_next(c, i, now, amount, u) is Err,
        u.1 ==> user_stake_next(c, i, now, amount, u) == Err::<ContractView, StakingError>(
            StakingError::StakeInactive,
        ),
{
    assert(u.0.end_time == c.stakes[i].numbers.end_time);
    if pool_is_active(u.0, now) {
        active_pool_has_not_ended(u.0, now);
    }
}

/// Switching a pool on makes it active and switching it off makes it
/// inactive, whatever its stake type; changing its stake type sets the one
/// asked for. Each leaves every other field of the pool, and every other
/// pool, as it was.
pub proof fn switching_a_pool_sets_its_state(
    c: ContractView,
    caller: Seq<u8>,
    now: u64,
    id: u64,
    new_stake_type: StakeType,
)
    ensures
        set_stake_active_spec(c, caller, now, id) matches Ok(c1) ==> {
            &&& c1.stakes.len() == c.stakes.len()
            &&& c1.stakes[id as int].numbers.state == State::Active
            &&& (RewardView { state: c.stakes[id as int].numbers.state, ..c1.stakes[id as int].numbers })
                == c.stakes[id as int].numbers
            &&& forall|j: int|
                0 <= j < c.stakes.len() && j != id ==> #[trigger] c1.stakes[j] == c.stakes[j]
        },
        set_stake_inactive_spec(c, caller, id) matches Ok(c1) ==> {
            &&& c1.stakes.len() == c.stakes.len()
            &&& c1.stakes[id as int].numbers.state == State::Inactive
            &&& (RewardView { state: c.stakes[id as int].numbers.state, ..c1.stakes[id as int].numbers })
                == c.stakes[id as int].numbers
            &&& forall|j: int|
                0 <= j < c.stakes.len() && j != id ==> #[trigger] c1.stakes[j] == c.stakes[j]
        },
        change_stake_type_spec(c, caller, id, new_stake_type) matches Ok(c1) ==> {
            &&& c1.stakes.len() == c.stakes.len()
            &&& c1.stakes[id as int].numbers.stake_type == new_stake_type
            &&& (RewardView {
                stake_type: c.stakes[id as int].numbers.stake_type,
                ..c1.stakes[id as int].numbers
            }) == c.stakes[id as int].numbers
            &&& forall|j: int|
                0 <= j < c.stakes.len() && j != id ==> #[trigger] c1.stakes[j] == c.stakes[j]
        },
{
}

} // verus!
