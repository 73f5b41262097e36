use vstd::prelude::*;

use crate::bignat::{pow10, BigNat};
use crate::errors::StakingError;
use crate::storage::StakeTokenAttributes;

verus! {

/// A payment of liquid tokens, with the attributes stored under its nonce.
#[derive(Clone, Debug, PartialEq, Eq)]
pub struct LiquidPayment {
    pub token: Vec<u8>,
    pub nonce: u64,
    pub amount: BigNat,
    pub attributes: StakeTokenAttributes,
}

/// What `amount` liquid tokens minted at reward index `minted_rps` have earned
/// by index `rps`, for a staked token with `decimals` decimals (the index
/// counts rewards per whole staked token).
pub open spec fn reward_of(amount: nat, rps: nat, minted_rps: nat, decimals: u8) -> nat {
    ((amount * (rps - minted_rps)) / (pow10(decimals as nat) as int)) as nat
}

/// The sum of the amounts of `ps`.
pub open spec fn total_amount(ps: Seq<LiquidPayment>) -> nat
    decreases ps.len(),
{
    if ps.len() == 0 {
        0
    } else {
        total_amount(ps.drop_last()) + ps.last().amount@
    }
}

/// The sum of the rewards earned by `ps` at index `rps`.
pub open spec fn total_rewards(ps: Seq<LiquidPayment>, rps: nat, decimals: u8) -> nat
    decreases ps.len(),
{
    if ps.len() == 0 {
        0
    } else {
        total_rewards(ps.drop_last(), rps, decimals) + reward_of(
            ps.last().amount@,
            rps,
            ps.last().attributes.rps@,
            decimals,
        )
    }
}

/// Some payment was minted at an index above `rps`.
pub open spec fn minted_above(ps: Seq<LiquidPayment>, rps: nat) -> bool {
    exists|i: int| 0 <= i < ps.len() && #[trigger] ps[i].attributes.rps@ > rps
}

/// The total amount and the total rewards of `ps` at index `rps`; a payment
/// minted above `rps` would earn less than nothing and is refused.
pub open spec fn settle(ps: Seq<LiquidPayment>, rps: nat, decimals: u8) -> Result<(nat, nat), StakingError> {
    if minted_above(ps, rps) {
        Err(StakingError::SubtractionBelowZero)
    } else {
        Ok((total_amount(ps), total_rewards(ps, rps, decimals)))
    }
}

proof fn lemma_take_step(ps: Seq<LiquidPayment>, i: int)
    requires
        0 <= i < ps.len(),
    ensures
        ps.take(i + 1).drop_last() == ps.take(i),
        ps.take(i + 1).last() == ps[i],
{
    assert(ps.take(i + 1).drop_last() =~= ps.take(i));
}

/// Liquid tokens earn nothing while the reward index stays where they were minted.
pub proof fn lemma_reward_at_mint_index(amount: nat, rps: nat, decimals: u8)
    ensures
        reward_of(amount, rps, rps, decimals) == 0,
{
    crate::bignat::lemma_pow10_positive(decimals as nat);
    let d = pow10(decimals as nat) as int;
    assert(amount * (rps - rps) == 0);
    assert(0int / d == 0) by (nonlinear_arith)
        requires
            d >= 1,
    ;
}

/// What `amount` liquid tokens minted at index `minted_rps` earn by index `rps`.
pub fn payment_reward(amount: &BigNat, rps: &BigNat, minted_rps: &BigNat, decimals: u8) -> (res: BigNat)
    requires
        minted_rps@ <= rps@,
    ensures
        res@ == reward_of(amount@, rps@, minted_rps@, decimals),
{
    let diff = match rps.checked_sub(minted_rps) {
        Some(d) => d,
        None => BigNat::zero(),
    };
    amount.mul(&diff).div_pow10(decimals)
}

/// The total amount and the total rewards of `payments` at index `rps`.
pub fn settle_payments(payments: &Vec<LiquidPayment>, rps: &BigNat, decimals: u8) -> (res: Result<
    (BigNat, BigNat),
    StakingError,
>)
    ensures
        match settle(payments@, rps@, decimals) {
            Ok(totals) => res matches Ok(t) && t.0@ == totals.0 && t.1@ == totals.1,
            Err(e) => res == Err::<(BigNat, BigNat), StakingError>(e),
        },
{
    let ghost ps = payments@;
    let mut i: usize = 0;
    while i < payments.len()
        invariant
            ps == payments@,
            i <= payments.len(),
            forall|j: int| 0 <= j < i ==> !(#[trigger] ps[j].attributes.rps@ > rps@),
        decreases payments.len() - i,
    {
        if !rps.ge(&payments[i].attributes.rps) {
            assert(minted_above(ps, rps@));
            return Err(StakingError::SubtractionBelowZero);
        }
        i = i + 1;
    }
    assert(!minted_above(ps, rps@));
    let mut total_a = BigNat::zero();
    let mut total_r = BigNat::zero();
    let mut i: usize = 0;
    while i < payments.len()
        invariant
            ps == payments@,
            i <= payments.len(),
            !minted_above(ps, rps@),
            total_a@ == total_amount(ps.take(i as int)),
            total_r@ == total_rewards(ps.take(i as int), rps@, decimals),
        decreases payments.len() - i,
    {
        let p = &payments[i];
        proof {
            lemma_take_step(ps, i as int);
            assert(!(ps[i as int].attributes.rps@ > rps@));
        }
        total_a = total_a.add(&p.amount);
        let r = payment_reward(&p.amount, rps, &p.attributes.rps, decimals);
        total_r = total_r.add(&r);
        i = i + 1;
    }
    assert(ps.take(ps.len() as int) =~= ps);
    Ok((total_a, total_r))
}

} // verus!
