use vstd::prelude::*;

use crate::bignat::BigNat;

verus! {

/// Whether the contract, or a single pool, accepts operations.
#[derive(Clone, Copy, PartialEq, Eq, Structural, Debug)]
pub enum State {
    Inactive,
    Active,
}

/// How a pool pays out its rewards.
#[derive(Clone, Copy, PartialEq, Eq, Structural, Debug)]
pub enum StakeType {
    FixedAPR,
    DynamicAPR,
}

/// The plain-number part of a pool: everything but its id, its owner and its tokens.
#[derive(Clone, PartialEq, Eq, Debug)]
pub struct RewardState {
    pub state: State,
    pub stake_type: StakeType,
    pub token_decimals: u8,
    pub staked_amount: BigNat,
    pub rewards_amount: BigNat,
    pub claimable_rewards: BigNat,
    pub remaining_rewards: BigNat,
    pub rewards_per_second: BigNat,
    pub start_time: u64,
    pub end_time: u64,
    pub remaining_time: u64,
    pub rps: BigNat,
    pub last_rps_update_time: u64,
}

/// The reward state of a pool, as values.
pub struct RewardView {
    pub state: State,
    pub stake_type: StakeType,
    pub token_decimals: u8,
    pub staked_amount: nat,
    pub rewards_amount: nat,
    pub claimable_rewards: nat,
    pub remaining_rewards: nat,
    pub rewards_per_second: nat,
    pub start_time: u64,
    pub end_time: u64,
    pub remaining_time: u64,
    pub rps: nat,
    pub last_rps_update_time: u64,
}

impl View for RewardState {
    type V = RewardView;

    open spec fn view(&self) -> RewardView {
        RewardView {
            state: self.state,
            stake_type: self.stake_type,
            token_decimals: self.token_decimals,
            staked_amount: self.staked_amount@,
            rewards_amount: self.rewards_amount@,
            claimable_rewards: self.claimable_rewards@,
            remaining_rewards: self.remaining_rewards@,
            rewards_per_second: self.rewards_per_second@,
            start_time: self.start_time,
            end_time: self.end_time,
            remaining_time: self.remaining_time,
            rps: self.rps@,
            last_rps_update_time: self.last_rps_update_time,
        }
    }
}

impl RewardState {
    /// A copy of this reward state.
    pub fn copy(&self) -> (res: RewardState)
        ensures
            res@ == self@,
    {
        RewardState {
            state: self.state,
            stake_type: self.stake_type,
            token_decimals: self.token_decimals,
            staked_amount: self.staked_amount.copy(),
            rewards_amount: self.rewards_amount.copy(),
            claimable_rewards: self.claimable_rewards.copy(),
            remaining_rewards: self.remaining_rewards.copy(),
            rewards_per_second: self.rewards_per_second.copy(),
            start_time: self.start_time,
            end_time: self.end_time,
            remaining_time: self.remaining_time,
            rps: self.rps.copy(),
            last_rps_update_time: self.last_rps_update_time,
        }
    }

    /// See `pool_is_active`.
    pub fn is_active(&self, current_time: u64) -> (res: bool)
        ensures
            res == pool_is_active(self@, current_time),
    {
        self.state == State::Active && self.end_time > current_time && !self.remaining_rewards.is_zero()
            && self.remaining_rewards.ge(&self.claimable_rewards)
    }
}

/// A pool is active at `now` when it is switched on, has not ended, and still
/// holds rewards that cover what stakers may claim.
pub open spec fn pool_is_active(n: RewardView, now: u64) -> bool {
    &&& n.state == State::Active
    &&& n.end_time > now
    &&& n.remaining_rewards > 0
    &&& n.remaining_rewards >= n.claimable_rewards
}

/// A staking pool.
#[derive(Clone, Debug, PartialEq, Eq)]
pub struct Stake {
    pub id: u64,
    pub owner: Vec<u8>,
    pub state: State,
    pub stake_type: StakeType,
    pub token: Vec<u8>,
    pub token_decimals: u8,
    pub liquid_token: Vec<u8>,
    pub reward_token: Vec<u8>,
    pub staked_amount: BigNat,
    pub rewards_amount: BigNat,
    pub claimable_rewards: BigNat,
    pub remaining_rewards: BigNat,
    pub rewards_per_second: BigNat,
    pub start_time: u64,
    pub end_time: u64,
    pub remaining_time: u64,
    pub rps: BigNat,
    pub last_rps_update_time: u64,
}

/// What a pool is, as values: its identity and its reward state.
pub struct StakeView {
    pub id: u64,
    pub owner: Seq<u8>,
    pub token: Seq<u8>,
    pub liquid_token: Seq<u8>,
    pub reward_token: Seq<u8>,
    pub numbers: RewardView,
}

impl View for Stake {
    type V = StakeView;

    open spec fn view(&self) -> StakeView {
        StakeView {
            id: self.id,
            owner: self.owner@,
            token: self.token@,
            liquid_token: self.liquid_token@,
            reward_token: self.reward_token@,
            numbers: RewardView {
                state: self.state,
                stake_type: self.stake_type,
                token_decimals: self.token_decimals,
                staked_amount: self.staked_amount@,
                rewards_amount: self.rewards_amount@,
                claimable_rewards: self.claimable_rewards@,
                remaining_rewards: self.remaining_rewards@,
                rewards_per_second: self.rewards_per_second@,
                start_time: self.start_time,
                end_time: self.end_time,
                remaining_time: self.remaining_time,
                rps: self.rps@,
                last_rps_update_time: self.last_rps_update_time,
            },
        }
    }
}

impl Stake {
    /// See `pool_is_active`.
    pub fn is_active(&self, current_time: u64) -> (res: bool)
        ensures
            res == pool_is_active(self@.numbers, current_time),
    {
        self.state == State::Active && self.end_time > current_time && !self.remaining_rewards.is_zero()
            && self.remaining_rewards.ge(&self.claimable_rewards)
    }

    /// A copy of the reward state of this pool.
    pub fn numbers(&self) -> (res: RewardState)
        ensures
            res@ == self@.numbers,
    {
        RewardState {
            state: self.state,
            stake_type: self.stake_type,
            token_decimals: self.token_decimals,
            staked_amount: self.staked_amount.copy(),
            rewards_amount: self.rewards_amount.copy(),
            claimable_rewards: self.claimable_rewards.copy(),
            remaining_rewards: self.remaining_rewards.copy(),
            rewards_per_second: self.rewards_per_second.copy(),
            start_time: self.start_time,
            end_time: self.end_time,
            remaining_time: self.remaining_time,
            rps: self.rps.copy(),
            last_rps_update_time: self.last_rps_update_time,
        }
    }

    /// Replaces the reward state of this pool, keeping its identity.
    pub fn set_numbers(&mut self, n: RewardState)
        ensures
            final(self)@ == (StakeView { numbers: n@, ..old(self)@ }),
    {
        self.state = n.state;
        self.stake_type = n.stake_type;
        self.token_decimals = n.token_decimals;
        self.staked_amount = n.staked_amount;
        self.rewards_amount = n.rewards_amount;
        self.claimable_rewards = n.claimable_rewards;
        self.remaining_rewards = n.remaining_rewards;
        self.rewards_per_second = n.rewards_per_second;
        self.start_time = n.start_time;
        self.end_time = n.end_time;
        self.remaining_time = n.remaining_time;
        self.rps = n.rps;
        self.last_rps_update_time = n.last_rps_update_time;
    }
}

/// What a liquid token remembers: the pool's reward index when it was minted.
#[derive(Clone, PartialEq, Eq, Debug)]
pub struct StakeTokenAttributes {
    pub rps: BigNat,
}

/// The storage of the pools; the contract type implements it.
pub trait StorageModule {
}

} // verus!
