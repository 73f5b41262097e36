use vstd::prelude::*;

use crate::bignat::BigNat;
use crate::contract::{
    find_stake, follows, is_rps_update, updated_by, ContractView, EsdtPayment, TFNTestStakingContract,
    Transfer,
};
use crate::errors::StakingError;
use crate::rewards::{settle, settle_payments, LiquidPayment};
use crate::storage::{pool_is_active, RewardState, RewardView, StakeTokenAttributes, State};
use crate::token::{copy_bytes, same_bytes};

verus! {

/// Liquid tokens minted with `attributes` and sent to `to`.
#[derive(Clone, Debug, PartialEq, Eq)]
pub struct LiquidMint {
    pub to: Vec<u8>,
    pub token: Vec<u8>,
    pub amount: BigNat,
    pub attributes: StakeTokenAttributes,
}

/// Liquid tokens burned.
#[derive(Clone, Debug, PartialEq, Eq)]
pub struct Burn {
    pub token: Vec<u8>,
    pub nonce: u64,
    pub amount: BigNat,
}

/// What an unstake does: burns the liquid tokens paid in, returns the staked
/// tokens, and pays the rewards earned if there are any.
#[derive(Clone, Debug, PartialEq, Eq)]
pub struct UnstakeOutcome {
    pub burns: Vec<Burn>,
    pub returned: Transfer,
    pub rewards: Option<Transfer>,
}

/// What a claim does: burns the liquid tokens paid in, mints as many again
/// at the current reward index, and pays the rewards earned if there are any.
#[derive(Clone, Debug, PartialEq, Eq)]
pub struct ClaimOutcome {
    pub burns: Vec<Burn>,
    pub reminted: LiquidMint,
    pub rewards: Option<Transfer>,
}

/// The checks of a stake, before the pool is touched: the pool is the first
/// one whose staked token is the payment's token.
pub open spec fn user_stake_check(c: ContractView, payment_token: Seq<u8>) -> Result<int, StakingError> {
    if c.state != State::Active {
        Err(StakingError::ContractInactive)
    } else {
        match find_stake(c.stakes, payment_token, false) {
            Some(i) => Ok(i),
            None => Err(StakingError::WrongPaymentToken),
        }
    }
}

/// A pool's reward state once staking has started at `now`: a pool that
/// never started starts now, with the time left until its end (in wrapping
/// `u64` arithmetic, as the deployed contract computes it).
pub open spec fn started(n: RewardView, now: u64) -> RewardView {
    if n.start_time == 0 {
        RewardView {
            start_time: now,
            last_rps_update_time: now,
            remaining_time: n.end_time.wrapping_sub(now),
            ..n
        }
    } else {
        n
    }
}

/// The storage after a stake of `amount` in pool `i`, whose reward update gave `u`.
pub open spec fn user_stake_next(
    c: ContractView,
    i: int,
    now: u64,
    amount: nat,
    u: (RewardView, bool),
) -> Result<ContractView, StakingError> {
    if !u.1 {
        Err(StakingError::OutOfRewards)
    } else if !pool_is_active(u.0, now) {
        Err(StakingError::StakeInactive)
    } else {
        Ok(c.with_numbers(i, RewardView { staked_amount: u.0.staked_amount + amount, ..u.0 }))
    }
}

/// All the payments are in the token of the first.
pub open spec fn same_token(ps: Seq<LiquidPayment>) -> bool {
    forall|j: int| 0 <= j < ps.len() ==> (#[trigger] ps[j]).token@ == ps[0].token@
}

/// The checks of an unstake or a claim, before the pool is touched: the pool
/// is the first one whose liquid token is the payments' token, and it is active.
pub open spec fn liquid_check(c: ContractView, ps: Seq<LiquidPayment>) -> Result<int, StakingError> {
    if c.state != State::Active {
        Err(StakingError::ContractInactive)
    } else if ps.len() == 0 || !same_token(ps) {
        Err(StakingError::WrongPaymentToken)
    } else {
        match find_stake(c.stakes, ps[0].token@, true) {
            None => Err(StakingError::WrongPaymentToken),
            Some(i) => if c.stakes[i].numbers.state != State::Active {
                Err(StakingError::StakeInactive)
            } else {
                Ok(i)
            },
        }
    }
}

/// The storage after an unstake of `ps` from pool `i`, whose reward update gave `u`.
pub open spec fn user_unstake_next(c: ContractView, i: int, ps: Seq<LiquidPayment>, u: (RewardView, bool)) -> Result<
    ContractView,
    StakingError,
> {
    if !u.1 {
        Err(StakingError::OutOfRewards)
    } else {
        match settle(ps, u.0.rps, u.0.token_decimals) {
            Err(e) => Err(e),
            Ok((amount, _rewards)) => if u.0.staked_amount < amount {
                Err(StakingError::SubtractionBelowZero)
            } else {
                Ok(
                    c.with_numbers(
                        i,
                        RewardView { staked_amount: (u.0.staked_amount - amount) as nat, ..u.0 },
                    ),
                )
            },
        }
    }
}

/// The storage after a claim with `ps` in pool `i`, whose reward update gave `u`.
pub open spec fn claim_rewards_next(c: ContractView, i: int, ps: Seq<LiquidPayment>, u: (RewardView, bool)) -> Result<
    ContractView,
    StakingError,
> {
    match settle(ps, u.0.rps, u.0.token_decimals) {
        Err(e) => Err(e),
        Ok(_) => Ok(c.with_numbers(i, u.0)),
    }
}

/// `burns` burns each payment of `ps`, in order, as liquid token `liquid`.
pub open spec fn burns_payments(burns: Seq<Burn>, ps: Seq<LiquidPayment>, liquid: Seq<u8>) -> bool {
    &&& burns.len() == ps.len()
    &&& forall|j: int|
        0 <= j < ps.len() ==> (#[trigger] burns[j]).token@ == liquid && burns[j].nonce == ps[j].nonce
            && burns[j].amount@ == ps[j].amount@
}

/// `t` pays `rewards` of `token` to `to`, and is there only when `rewards` is not zero.
pub open spec fn pays_rewards(t: Option<Transfer>, to: Seq<u8>, token: Seq<u8>, rewards: nat) -> bool {
    match t {
        Some(t) => rewards > 0 && t.to@ == to && t.token@ == token && t.nonce == 0 && t.amount@ == rewards,
        None => rewards == 0,
    }
}

/// The burns of `ps`, as liquid token `liquid`.
fn burns_of(payments: &Vec<LiquidPayment>, liquid: &Vec<u8>) -> (res: Vec<Burn>)
    ensures
        burns_payments(res@, payments@, liquid@),
{
    let mut burns: Vec<Burn> = Vec::new();
    let mut i: usize = 0;
    while i < payments.len()
        invariant
            i <= payments.len(),
            burns@.len() == i,
            forall|j: int|
                0 <= j < i ==> (#[trigger] burns@[j]).token@ == liquid@ && burns@[j].nonce
                    == payments@[j].nonce && burns@[j].amount@ == payments@[j].amount@,
        decreases payments.len() - i,
    {
        burns.push(
            Burn { token: copy_bytes(liquid), nonce: payments[i].nonce, amount: payments[i].amount.copy() },
        );
        i = i + 1;
    }
    burns
}

/// The transfer of `rewards` of `token` to `to`, if `rewards` is not zero.
fn rewards_transfer(to: &Vec<u8>, token: &Vec<u8>, rewards: BigNat) -> (res: Option<Transfer>)
    ensures
        pays_rewards(res, to@, token@, rewards@),
{
    if !rewards.is_zero() {
        Some(Transfer { to: copy_bytes(to), token: copy_bytes(token), nonce: 0, amount: rewards })
    } else {
        None
    }
}

impl TFNTestStakingContract {
    /// Whether every payment is in the token of the first.
    fn payments_share_token(payments: &Vec<LiquidPayment>) -> (res: bool)
        requires
            payments@.len() > 0,
        ensures
            res == same_token(payments@),
    {
        let mut i: usize = 0;
        while i < payments.len()
            invariant
                payments@.len() > 0,
                i <= payments.len(),
                forall|j: int| 0 <= j < i ==> (#[trigger] payments@[j]).token@ == payments@[0].token@,
            decreases payments.len() - i,
        {
            if !same_bytes(&payments[i].token, &payments[0].token) {
                return false;
            }
            i = i + 1;
        }
        true
    }

    /// The checks of `liquid_check`, made on the storage.
    fn check_liquid_payments(&self, payments: &Vec<LiquidPayment>) -> (res: Result<usize, StakingError>)
        requires
            self@.well_formed(),
        ensures
            match liquid_check(self@, payments@) {
                Ok(i) => res matches Ok(j) && j as int == i && i < self@.stakes.len(),
                Err(e) => res == Err::<usize, StakingError>(e),
            },
    {
        if !self.is_contract_active() {
            return Err(StakingError::ContractInactive);
        }
        if payments.len() == 0 {
            return Err(StakingError::WrongPaymentToken);
        }
        if !Self::payments_share_token(payments) {
            return Err(StakingError::WrongPaymentToken);
        }
        let i = match self.find_stake_index(&payments[0].token, true) {
            Some(i) => i,
            None => return Err(StakingError::WrongPaymentToken),
        };
        if self.stake_at(i).state != State::Active {
            return Err(StakingError::StakeInactive);
        }
        Ok(i)
    }

    /// Stakes a payment in the pool of its token: the pool starts if it never
    /// did, its reward index is brought up to `now`, and it must then be
    /// active. The answer is the mint of as many liquid tokens, at the current
    /// index, for the caller.
    pub fn user_stake<F: Fn(RewardState, u64) -> (RewardState, bool)>(
        &mut self,
        caller: &Vec<u8>,
        now: u64,
        payment: &EsdtPayment,
        update_rps: &F,
    ) -> (res: Result<LiquidMint, StakingError>)
        requires
            is_rps_update(*update_rps),
        ensures
            final(self)@.well_formed(),
            match user_stake_check(old(self)@, payment.token@) {
                Err(e) => res == Err::<LiquidMint, StakingError>(e) && final(self)@ == old(self)@,
                Ok(i) => exists|w: (RewardView, bool)|
                    #[trigger] updated_by(*update_rps, started(old(self)@.stakes[i].numbers, now), now, w)
                        && follows(
                        old(self)@,
                        final(self)@,
                        res,
                        user_stake_next(old(self)@, i, now, payment.amount@, w),
                    ) && (res matches Ok(m) ==> m.to@ == caller@ && m.token@ == old(
                        self,
                    )@.stakes[i].liquid_token && m.amount@ == payment.amount@ && m.attributes.rps@
                        == w.0.rps),
            },
    {
        self.well_formed_holds();
        if !self.is_contract_active() {
            return Err(StakingError::ContractInactive);
        }
        let i = match self.find_stake_index(&payment.token, false) {
            Some(i) => i,
            None => return Err(StakingError::WrongPaymentToken),
        };
        let s = self.stake_at(i);
        let mut n = s.numbers();
        if n.start_time == 0 {
            n.start_time = now;
            n.last_rps_update_time = now;
            n.remaining_time = n.end_time.wrapping_sub(now);
        }
        let (mut n, ok) = update_rps(n, now);
        let ghost w = (n@, ok);
        assert(updated_by(*update_rps, started(old(self)@.stakes[i as int].numbers, now), now, w));
        if !ok {
            return Err(StakingError::OutOfRewards);
        }
        if !n.is_active(now) {
            return Err(StakingError::StakeInactive);
        }
        let mint = LiquidMint {
            to: copy_bytes(caller),
            token: copy_bytes(&s.liquid_token),
            amount: payment.amount.copy(),
            attributes: StakeTokenAttributes { rps: n.rps.copy() },
        };
        n.staked_amount = n.staked_amount.add(&payment.amount);
        self.replace_numbers(i, n);
        Ok(mint)
    }

    /// Unstakes liquid tokens, all of one pool's liquid token: the pool's
    /// reward index is brought up to `now`, the liquid tokens are burned, and
    /// the caller gets back the staked tokens with the rewards they earned.
    pub fn user_unstake<F: Fn(RewardState, u64) -> (RewardState, bool)>(
        &mut self,
        caller: &Vec<u8>,
        now: u64,
        payments: &Vec<LiquidPayment>,
        update_rps: &F,
    ) -> (res: Result<UnstakeOutcome, StakingError>)
        requires
            is_rps_update(*update_rps),
        ensures
            final(self)@.well_formed(),
            match liquid_check(old(self)@, payments@) {
                Err(e) => res == Err::<UnstakeOutcome, StakingError>(e) && final(self)@ == old(self)@,
                Ok(i) => exists|w: (RewardView, bool)|
                    #[trigger] updated_by(*update_rps, old(self)@.stakes[i].numbers, now, w) && follows(
                        old(self)@,
                        final(self)@,
                        res,
                        user_unstake_next(old(self)@, i, payments@, w),
                    ) && (res matches Ok(out) ==> {
                        let s = old(self)@.stakes[i];
                        let totals = settle(payments@, w.0.rps, w.0.token_decimals)->Ok_0;
                        &&& burns_payments(out.burns@, payments@, s.liquid_token)
                        &&& out.returned.to@ == caller@ && out.returned.token@ == s.token
                            && out.returned.nonce == 0 && out.returned.amount@ == totals.0
                        &&& pays_rewards(out.rewards, caller@, s.reward_token, totals.1)
                    }),
            },
    {
        self.well_formed_holds();
        let i = match self.check_liquid_payments(payments) {
            Ok(i) => i,
            Err(e) => return Err(e),
        };
        let s = self.stake_at(i);
        let input = s.numbers();
        let (mut n, ok) = update_rps(input, now);
        let ghost w = (n@, ok);
        assert(updated_by(*update_rps, old(self)@.stakes[i as int].numbers, now, w));
        if !ok {
            return Err(StakingError::OutOfRewards);
        }
        let (amount, rewards) = match settle_payments(payments, &n.rps, n.token_decimals) {
            Ok(t) => t,
            Err(e) => return Err(e),
        };
        let staked_left = match n.staked_amount.checked_sub(&amount) {
            Some(v) => v,
            None => return Err(StakingError::SubtractionBelowZero),
        };
        let out = UnstakeOutcome {
            burns: burns_of(payments, &s.liquid_token),
            returned: Transfer { to: copy_bytes(caller), token: copy_bytes(&s.token), nonce: 0, amount },
            rewards: rewards_transfer(caller, &s.reward_token, rewards),
        };
        n.staked_amount = staked_left;
        self.replace_numbers(i, n);
        Ok(out)
    }

    /// Claims the rewards earned by liquid tokens, all of one pool's liquid
    /// token: the pool's reward index is brought up to `now`, the liquid
    /// tokens are burned and minted again at the current index, and the
    /// caller gets the rewards they earned.
    pub fn claim_rewards<F: Fn(RewardState, u64) -> (RewardState, bool)>(
        &mut self,
        caller: &Vec<u8>,
        now: u64,
        payments: &Vec<LiquidPayment>,
        update_rps: &F,
    ) -> (res: Result<ClaimOutcome, StakingError>)
        requires
            is_rps_update(*update_rps),
        ensures
            final(self)@.well_formed(),
            match liquid_check(old(self)@, payments@) {
                Err(e) => res == Err::<ClaimOutcome, StakingError>(e) && final(self)@ == old(self)@,
                Ok(i) => exists|w: (RewardView, bool)|
                    #[trigger] updated_by(*update_rps, old(self)@.stakes[i].numbers, now, w) && follows(
                        old(self)@,
                        final(self)@,
                        res,
                        claim_rewards_next(old(self)@, i, payments@, w),
                    ) && (res matches Ok(out) ==> {
                        let s = old(self)@.stakes[i];
                        let totals = settle(payments@, w.0.rps, w.0.token_decimals)->Ok_0;
                        &&& burns_payments(out.burns@, payments@, s.liquid_token)
                        &&& out.reminted.to@ == caller@ && out.reminted.token@ == s.liquid_token
                            && out.reminted.amount@ == totals.0 && out.reminted.attributes.rps@
                            == w.0.rps
                        &&& pays_rewards(out.rewards, caller@, s.reward_token, totals.1)
                    }),
            },
    {
        self.well_formed_holds();
        let i = match self.check_liquid_payments(payments) {
            Ok(i) => i,
            Err(e) => return Err(e),
        };
        let s = self.stake_at(i);
        let input = s.numbers();
        let (n, ok) = update_rps(input, now);
        let ghost w = (n@, ok);
        assert(updated_by(*update_rps, old(self)@.stakes[i as int].numbers, now, w));
        let (amount, rewards) = match settle_payments(payments, &n.rps, n.token_decimals) {
            Ok(t) => t,
            Err(e) => return Err(e),
        };
        let out = ClaimOutcome {
            burns: burns_of(payments, &s.liquid_token),
            reminted: LiquidMint {
                to: copy_bytes(caller),
                token: copy_bytes(&s.liquid_token),
                amount,
                attributes: StakeTokenAttributes { rps: n.rps.copy() },
            },
            rewards: rewards_transfer(caller, &s.reward_token, rewards),
        };
        self.replace_numbers(i, n);
        Ok(out)
    }
}

} // verus!
