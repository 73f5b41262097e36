use vstd::prelude::*;

use crate::errors::StakingError;
use crate::rewards::{settle, settle_payments, LiquidPayment};
use crate::bignat::BigNat;
use crate::storage::{RewardState, RewardView, Stake, StakeType, StakeView, State, StorageModule};
use crate::token::{concat, copy_bytes, same_bytes, spec_ticker, ticker};

verus! {

/// The contract's storage, as values.
#[verifier::ext_equal]
pub struct ContractView {
    pub state: State,
    pub platform_sc: Option<Seq<u8>>,
    /// The pool with id `i` stands at index `i`; the next pool gets id `stakes.len()`.
    pub stakes: Seq<StakeView>,
}

impl ContractView {
    /// Pool `i` has id `i`.
    pub open spec fn well_formed(self) -> bool {
        forall|i: int| 0 <= i < self.stakes.len() ==> #[trigger] self.stakes[i].id == i
    }

    /// The id that the next pool receives.
    pub open spec fn last_stake_id(self) -> nat {
        self.stakes.len()
    }

    /// This storage with the reward state of pool `i` replaced by `n`.
    pub open spec fn with_numbers(self, i: int, n: RewardView) -> ContractView {
        ContractView {
            stakes: self.stakes.update(i, StakeView { numbers: n, ..self.stakes[i] }),
            ..self
        }
    }
}

/// The identifier by which a request looks a pool up: its staked token or its liquid token.
pub open spec fn key_of(s: StakeView, liquid: bool) -> Seq<u8> {
    if liquid {
        s.liquid_token
    } else {
        s.token
    }
}

/// Pool `i` is the first pool whose key is `token`.
pub open spec fn is_first_match(stakes: Seq<StakeView>, token: Seq<u8>, liquid: bool, i: int) -> bool {
    &&& 0 <= i < stakes.len()
    &&& key_of(stakes[i], liquid) == token
    &&& forall|j: int| 0 <= j < i ==> key_of(#[trigger] stakes[j], liquid) != token
}

/// The index of the first pool whose staked token (or, with `liquid`, whose
/// liquid token) is `token`, if there is one.
pub open spec fn find_stake(stakes: Seq<StakeView>, token: Seq<u8>, liquid: bool) -> Option<int> {
    if exists|i: int| is_first_match(stakes, token, liquid, i) {
        Some(choose|i: int| is_first_match(stakes, token, liquid, i))
    } else {
        None
    }
}

/// `res` reports `expected`: on `Ok` the storage became the expected one, on
/// `Err` the same error came back and the storage did not change.
pub open spec fn follows<T>(
    before: ContractView,
    after: ContractView,
    res: Result<T, StakingError>,
    expected: Result<ContractView, StakingError>,
) -> bool {
    match expected {
        Ok(next) => res is Ok && after == next,
        Err(e) => res == Err::<T, StakingError>(e) && after == before,
    }
}

/// The names under which the liquid token of a new pool is issued: each
/// prefix is put before the ticker of the staked token.
pub struct StakeTokenNaming {
    pub display_name_prefix: Vec<u8>,
    pub ticker_prefix: Vec<u8>,
    pub num_decimals: usize,
}

/// The request to issue the liquid token of a new pool, paid with `issue_cost` EGLD.
#[derive(Clone, Debug, PartialEq, Eq)]
pub struct TokenIssueRequest {
    pub issue_cost: BigNat,
    pub display_name: Vec<u8>,
    pub ticker: Vec<u8>,
    pub token_type: IssuedTokenType,
    pub num_decimals: usize,
    /// What `stake_token_issue_callback` receives when the issue ends.
    pub callback: IssueCallbackArgs,
}

/// The kinds of ESDT token the system contract issues.
#[derive(Clone, Copy, PartialEq, Eq, Structural, Debug)]
pub enum IssuedTokenType {
    Fungible,
    NonFungible,
    SemiFungible,
    Meta,
}

/// The arguments carried to the issue callback: who opens the pool, and the
/// pool's stake type, staked token, its decimals and reward token.
#[derive(Clone, Debug, PartialEq, Eq)]
pub struct IssueCallbackArgs {
    pub caller: Vec<u8>,
    pub stake_type: StakeType,
    pub token: Vec<u8>,
    pub token_decimals: u8,
    pub reward_token: Vec<u8>,
}

/// What the issue callback did.
#[derive(Clone, Debug, PartialEq, Eq)]
pub enum CallbackOutcome {
    /// A pool with this id was stored.
    StakeCreated(u64),
    /// The issue failed: this much EGLD goes back to this address.
    IssueCostRefunded { to: Vec<u8>, amount: BigNat },
}

/// A transfer of `amount` of `token` (with `nonce`; 0 for fungible tokens) to `to`.
#[derive(Clone, Debug, PartialEq, Eq)]
pub struct Transfer {
    pub to: Vec<u8>,
    pub token: Vec<u8>,
    pub nonce: u64,
    pub amount: BigNat,
}

pub open spec fn create_stake_spec(
    c: ContractView,
    caller_whitelisted: bool,
    token: Seq<u8>,
) -> Result<Seq<u8>, StakingError> {
    if !caller_whitelisted {
        Err(StakingError::NotWhitelisted)
    } else if c.state != State::Active {
        Err(StakingError::ContractInactive)
    } else if find_stake(c.stakes, token, false) is Some {
        Err(StakingError::StakeExists)
    } else {
        match spec_ticker(token) {
            Some(t) => Ok(t),
            None => Err(StakingError::BadTokenTickerFormat),
        }
    }
}

/// A new pool, inactive and empty.
pub open spec fn new_stake_view(
    id: u64,
    owner: Seq<u8>,
    stake_type: StakeType,
    token: Seq<u8>,
    token_decimals: u8,
    liquid_token: Seq<u8>,
    reward_token: Seq<u8>,
) -> StakeView {
    StakeView {
        id,
        owner,
        token,
        liquid_token,
        reward_token,
        numbers: RewardView {
            state: State::Inactive,
            stake_type,
            token_decimals,
            staked_amount: 0,
            rewards_amount: 0,
            claimable_rewards: 0,
            remaining_rewards: 0,
            rewards_per_second: 0,
            start_time: 0,
            end_time: 0,
            remaining_time: 0,
            rps: 0,
            last_rps_update_time: 0,
        },
    }
}

pub open spec fn set_stake_active_spec(c: ContractView, caller: Seq<u8>, now: u64, id: u64) -> Result<
    ContractView,
    StakingError,
> {
    if c.state != State::Active {
        Err(StakingError::ContractInactive)
    } else if id >= c.stakes.len() {
        Err(StakingError::StakeNotFound)
    } else {
        let s = c.stakes[id as int];
        if s.owner != caller {
            Err(StakingError::NotStakeOwner)
        } else if s.numbers.rewards_per_second == 0 {
            Err(StakingError::ZeroApr)
        } else if s.numbers.rewards_amount == 0 {
            Err(StakingError::NoRewards)
        } else if s.numbers.end_time <= now {
            Err(StakingError::StakeExpired)
        } else {
            Ok(c.with_numbers(id as int, RewardView { state: State::Active, ..s.numbers }))
        }
    }
}

pub open spec fn set_stake_inactive_spec(c: ContractView, caller: Seq<u8>, id: u64) -> Result<
    ContractView,
    StakingError,
> {
    if c.state != State::Active {
        Err(StakingError::ContractInactive)
    } else if id >= c.stakes.len() {
        Err(StakingError::StakeNotFound)
    } else {
        let s = c.stakes[id as int];
        if s.owner != caller {
            Err(StakingError::NotStakeOwner)
        } else {
            Ok(c.with_numbers(id as int, RewardView { state: State::Inactive, ..s.numbers }))
        }
    }
}

pub open spec fn change_stake_type_spec(
    c: ContractView,
    caller: Seq<u8>,
    id: u64,
    new_stake_type: StakeType,
) -> Result<ContractView, StakingError> {
    if c.state != State::Active {
        Err(StakingError::ContractInactive)
    } else if id >= c.stakes.len() {
        Err(StakingError::StakeNotFound)
    } else {
        let s = c.stakes[id as int];
        if s.owner != caller {
            Err(StakingError::NotStakeOwner)
        } else if s.numbers.state != State::Inactive {
            Err(StakingError::StakeActive)
        } else {
            Ok(c.with_numbers(id as int, RewardView { stake_type: new_stake_type, ..s.numbers }))
        }
    }
}


/// One payment of `amount` of `token` (with `nonce`; 0 for fungible tokens).
#[derive(Clone, Debug, PartialEq, Eq)]
pub struct EsdtPayment {
    pub token: Vec<u8>,
    pub nonce: u64,
    pub amount: BigNat,
}

/// What the library asks of one result `u` of the reward-index update on
/// reward state `n` at time `now`: the update accrues rewards, so it leaves
/// the pool's state, stake type, decimals, staked amount, start and end alone;
/// it never lowers the reward index; it records `now` as the time of the last
/// update; and at the time of the last update (no time has passed) it changes
/// nothing.
pub open spec fn rps_update_ok(n: RewardView, now: u64, u: (RewardView, bool)) -> bool {
    &&& u.0.state == n.state
    &&& u.0.stake_type == n.stake_type
    &&& u.0.token_decimals == n.token_decimals
    &&& u.0.staked_amount == n.staked_amount
    &&& u.0.start_time == n.start_time
    &&& u.0.end_time == n.end_time
    &&& u.0.rps >= n.rps
    &&& u.0.last_rps_update_time == now
    &&& n.last_rps_update_time == now ==> u.0 == n
}

/// `update_rps` is a reward-index update: it accepts every reward state and
/// time, and each of its results meets `rps_update_ok`. It answers the new
/// reward state and whether the pool still has rewards.
pub open spec fn is_rps_update<F: Fn(RewardState, u64) -> (RewardState, bool)>(update_rps: F) -> bool {
    &&& forall|n: RewardState, t: u64| #[trigger] update_rps.requires((n, t))
    &&& forall|n: RewardState, t: u64, u: (RewardState, bool)|
        #[trigger] update_rps.ensures((n, t), u) ==> rps_update_ok(n@, t, (u.0@, u.1))
}

/// `w` is, as values, what `update_rps` answered on reward state `input` at `now`.
pub open spec fn updated_by<F: Fn(RewardState, u64) -> (RewardState, bool)>(
    update_rps: F,
    input: RewardView,
    now: u64,
    w: (RewardView, bool),
) -> bool {
    exists|x: RewardState, u: (RewardState, bool)|
        #[trigger] update_rps.ensures((x, now), u) && x@ == input && u.0@ == w.0 && u.1 == w.1
}

/// The checks that the owner of pool `id` passes before the pool is touched.
pub open spec fn owner_check(c: ContractView, caller: Seq<u8>, id: u64) -> Option<StakingError> {
    if c.state != State::Active {
        Some(StakingError::ContractInactive)
    } else if id >= c.stakes.len() {
        Some(StakingError::StakeNotFound)
    } else if c.stakes[id as int].owner != caller {
        Some(StakingError::NotStakeOwner)
    } else {
        None
    }
}

pub open spec fn set_rewards_per_second_check(
    c: ContractView,
    caller: Seq<u8>,
    id: u64,
    rewards_per_second: nat,
) -> Option<StakingError> {
    if c.state != State::Active {
        Some(StakingError::ContractInactive)
    } else if id >= c.stakes.len() {
        Some(StakingError::StakeNotFound)
    } else if rewards_per_second == 0 {
        Some(StakingError::ZeroApr)
    } else if c.stakes[id as int].owner != caller {
        Some(StakingError::NotStakeOwner)
    } else {
        None
    }
}

pub open spec fn set_end_time_check(c: ContractView, caller: Seq<u8>, now: u64, id: u64, new_end_time: u64) -> Option<
    StakingError,
> {
    if c.state != State::Active {
        Some(StakingError::ContractInactive)
    } else if id >= c.stakes.len() {
        Some(StakingError::StakeNotFound)
    } else if new_end_time <= now {
        Some(StakingError::StakeExpired)
    } else if c.stakes[id as int].owner != caller {
        Some(StakingError::NotStakeOwner)
    } else {
        None
    }
}

/// The reward state after moving the end to `new_end_time`: a pool that has
/// started and has an end shifts its remaining time by the same amount (in
/// wrapping `u64` arithmetic, as the deployed contract computes it).
pub open spec fn with_end_time(n: RewardView, new_end_time: u64) -> RewardView {
    let remaining_time = if n.start_time > 0 && n.end_time > 0 {
        n.remaining_time.wrapping_add(new_end_time).wrapping_sub(n.end_time)
    } else {
        n.remaining_time
    };
    RewardView { remaining_time, end_time: new_end_time, ..n }
}

pub open spec fn deposit_check(c: ContractView, id: u64, payment_token: Seq<u8>) -> Option<StakingError> {
    if c.state != State::Active {
        Some(StakingError::ContractInactive)
    } else if id >= c.stakes.len() {
        Some(StakingError::StakeNotFound)
    } else if payment_token != c.stakes[id as int].reward_token {
        Some(StakingError::WrongPaymentToken)
    } else {
        None
    }
}

/// The reward state after a deposit of `amount` reward tokens, both totals growing by it.
pub open spec fn with_deposit(n: RewardView, amount: nat) -> RewardView {
    RewardView {
        rewards_amount: n.rewards_amount + amount,
        remaining_rewards: n.remaining_rewards + amount,
        ..n
    }
}

/// An optional amount, as a value.
pub open spec fn opt_view(a: Option<BigNat>) -> Option<nat> {
    match a {
        Some(v) => Some(v@),
        None => None,
    }
}

/// How much a withdrawal takes: the amount asked for, or all remaining rewards.
pub open spec fn withdraw_amount(n: RewardView, opt_amount: Option<nat>) -> nat {
    match opt_amount {
        Some(a) => a,
        None => n.remaining_rewards,
    }
}

/// The reward state after withdrawing `amount` reward tokens.
pub open spec fn with_withdrawal(n: RewardView, amount: nat) -> Result<RewardView, StakingError> {
    if n.remaining_rewards < amount {
        Err(StakingError::HighAmount)
    } else if n.rewards_amount < amount {
        Err(StakingError::SubtractionBelowZero)
    } else {
        Ok(
            RewardView {
                rewards_amount: (n.rewards_amount - amount) as nat,
                remaining_rewards: (n.remaining_rewards - amount) as nat,
                ..n
            },
        )
    }
}

/// The contract: its state, the platform contract that deployed it, and its pools.
pub struct TFNTestStakingContract {
    state: State,
    platform_sc: Option<Vec<u8>>,
    stakes: Vec<Stake>,
}

impl View for TFNTestStakingContract {
    type V = ContractView;

    closed spec fn view(&self) -> ContractView {
        ContractView {
            state: self.state,
            platform_sc: match self.platform_sc {
                Some(a) => Some(a@),
                None => None,
            },
            stakes: self.stakes@.map_values(|s: Stake| s@),
        }
    }
}

impl TFNTestStakingContract {
    /// Every value of the contract is well formed.
    #[verifier::type_invariant]
    spec fn inv(self) -> bool {
        self@.well_formed()
    }

    /// The storage is well formed.
    pub(crate) fn well_formed_holds(&self)
        ensures
            self@.well_formed(),
    {
        proof {
            use_type_invariant(self);
        }
    }
}

impl StorageModule for TFNTestStakingContract {

}

/// A copy of `s` with its reward state replaced by `n`.
fn stake_with_numbers(s: &Stake, n: RewardState) -> (res: Stake)
    ensures
        res@ == (StakeView { numbers: n@, ..s@ }),
{
    let mut r = Stake {
        id: s.id,
        owner: copy_bytes(&s.owner),
        state: s.state,
        stake_type: s.stake_type,
        token: copy_bytes(&s.token),
        token_decimals: s.token_decimals,
        liquid_token: copy_bytes(&s.liquid_token),
        reward_token: copy_bytes(&s.reward_token),
        staked_amount: BigNat::zero(),
        rewards_amount: BigNat::zero(),
        claimable_rewards: BigNat::zero(),
        remaining_rewards: BigNat::zero(),
        rewards_per_second: BigNat::zero(),
        start_time: 0,
        end_time: 0,
        remaining_time: 0,
        rps: BigNat::zero(),
        last_rps_update_time: 0,
    };
    r.set_numbers(n);
    r
}

impl TFNTestStakingContract {
    /// Deploys the contract. A smart-contract deployer is the platform: it is
    /// recorded and the contract starts active; otherwise the contract starts
    /// inactive with no platform.
    pub fn init(caller: &Vec<u8>, caller_is_smart_contract: bool) -> (res: Self)
        ensures
            res@.well_formed(),
            res@.stakes.len() == 0,
            caller_is_smart_contract ==> res@.state == State::Active && res@.platform_sc
                == Some(caller@),
            !caller_is_smart_contract ==> res@.state == State::Inactive && res@.platform_sc
                is None,
    {
        if caller_is_smart_contract {
            TFNTestStakingContract {
                state: State::Active,
                platform_sc: Some(copy_bytes(caller)),
                stakes: Vec::new(),
            }
        } else {
            TFNTestStakingContract { state: State::Inactive, platform_sc: None, stakes: Vec::new() }
        }
    }

    /// The contract's state.
    pub fn get_state(&self) -> (res: State)
        ensures
            res == self@.state,
    {
        self.state
    }

    /// The platform contract's address, if it deployed this one.
    pub fn get_platform_address(&self) -> (res: Option<Vec<u8>>)
        ensures
            match res {
                Some(a) => self@.platform_sc == Some(a@),
                None => self@.platform_sc is None,
            },
    {
        match &self.platform_sc {
            Some(a) => Some(copy_bytes(a)),
            None => None,
        }
    }

    /// The id that the next pool receives.
    pub fn last_stake_id(&self) -> (res: u64)
        ensures
            res == self@.last_stake_id(),
    {
        proof {
            use_type_invariant(&*self);
        }
        self.stakes.len() as u64
    }

    /// All the pools, by id.
    pub fn get_stakes(&self) -> (res: &Vec<Stake>)
        ensures
            res@.map_values(|s: Stake| s@) == self@.stakes,
    {
        &self.stakes
    }

    /// The pool with this id, if there is one.
    pub fn get_stake(&self, id: u64) -> (res: Option<&Stake>)
        ensures
            match res {
                Some(s) => id < self@.stakes.len() && s@ == self@.stakes[id as int],
                None => id >= self@.stakes.len(),
            },
    {
        if id < self.stakes.len() as u64 {
            Some(&self.stakes[id as usize])
        } else {
            None
        }
    }

    /// Whether the contract is active.
    pub(crate) fn is_contract_active(&self) -> (res: bool)
        ensures
            res == (self@.state == State::Active),
    {
        self.state == State::Active
    }

    /// The pool at index `i`.
    pub(crate) fn stake_at(&self, i: usize) -> (res: &Stake)
        requires
            i < self@.stakes.len(),
        ensures
            res@ == self@.stakes[i as int],
    {
        &self.stakes[i]
    }

    /// The index of the first pool whose staked token (or, with `liquid`,
    /// liquid token) is `token`.
    pub(crate) fn find_stake_index(&self, token: &Vec<u8>, liquid: bool) -> (res: Option<usize>)
        ensures
            match res {
                Some(i) => find_stake(self@.stakes, token@, liquid) == Some(i as int),
                None => find_stake(self@.stakes, token@, liquid) is None,
            },
    {
        let ghost stakes = self@.stakes;
        let mut i: usize = 0;
        while i < self.stakes.len()
            invariant
                stakes == self@.stakes,
                i <= self.stakes.len(),
                forall|j: int| 0 <= j < i ==> key_of(#[trigger] stakes[j], liquid) != token@,
            decreases self.stakes.len() - i,
        {
            let s = &self.stakes[i];
            assert(s@ == stakes[i as int]);
            let key = if liquid {
                &s.liquid_token
            } else {
                &s.token
            };
            if same_bytes(key, token) {
                assert(is_first_match(stakes, token@, liquid, i as int));
                let ghost k = choose|k: int| is_first_match(stakes, token@, liquid, k);
                assert(k == i) by {
                    if k < i {
                        assert(key_of(stakes[k], liquid) != token@);
                    } else if k > i {
                        assert(key_of(stakes[i as int], liquid) != token@);
                    }
                }
                return Some(i);
            }
            i = i + 1;
        }
        assert forall|k: int| !is_first_match(stakes, token@, liquid, k) by {
            if 0 <= k < stakes.len() {
                assert(key_of(stakes[k], liquid) != token@);
            }
        }
        None
    }

    /// The first pool whose staked token is `token`.
    pub fn get_stake_by_token(&self, token: &Vec<u8>) -> (res: Option<&Stake>)
        ensures
            match res {
                Some(s) => exists|i: int|
                    find_stake(self@.stakes, token@, false) == Some(i) && s@ == self@.stakes[i],
                None => find_stake(self@.stakes, token@, false) is None,
            },
    {
        match self.find_stake_index(token, false) {
            Some(i) => Some(&self.stakes[i]),
            None => None,
        }
    }

    /// The first pool whose liquid token is `token`.
    pub fn get_stake_by_liquid_token(&self, token: &Vec<u8>) -> (res: Option<&Stake>)
        ensures
            match res {
                Some(s) => exists|i: int|
                    find_stake(self@.stakes, token@, true) == Some(i) && s@ == self@.stakes[i],
                None => find_stake(self@.stakes, token@, true) is None,
            },
    {
        match self.find_stake_index(token, true) {
            Some(i) => Some(&self.stakes[i]),
            None => None,
        }
    }

    /// Replaces the reward state of pool `i`.
    pub(crate) fn replace_numbers(&mut self, i: usize, n: RewardState)
        requires
            i < old(self)@.stakes.len(),
            old(self)@.well_formed(),
        ensures
            final(self)@ == old(self)@.with_numbers(i as int, n@),
            final(self)@.well_formed(),
    {
        let ghost nv = n@;
        let s = stake_with_numbers(&self.stakes[i], n);
        let mut stakes: Vec<Stake> = Vec::new();
        std::mem::swap(&mut stakes, &mut self.stakes);
        stakes.set(i, s);
        assert(stakes@.map_values(|s: Stake| s@) =~= old(self)@.with_numbers(i as int, nv).stakes);
        self.stakes = stakes;
        assert(self@ =~= old(self)@.with_numbers(i as int, nv));
    }

    /// Decides a request to open a pool for `token`: the caller must be
    /// whitelisted by the platform, the contract active and no pool for
    /// `token` open yet. The answer is the request to issue the pool's liquid
    /// token as a meta-ESDT with all roles, named after the ticker of
    /// `token`, paid with `issue_cost`; the pool itself is stored by
    /// `stake_token_issue_callback`, with the arguments the request carries,
    /// once the token exists.
    pub fn create_stake(
        &self,
        caller: &Vec<u8>,
        caller_whitelisted: bool,
        stake_type: StakeType,
        token: &Vec<u8>,
        token_decimals: u8,
        reward_token: &Vec<u8>,
        issue_cost: BigNat,
        naming: &StakeTokenNaming,
    ) -> (res: Result<TokenIssueRequest, StakingError>)
        ensures
            match create_stake_spec(self@, caller_whitelisted, token@) {
                Ok(t) => res matches Ok(r) && r.issue_cost@ == issue_cost@ && r.display_name@
                    == naming.display_name_prefix@ + t && r.ticker@ == naming.ticker_prefix@ + t
                    && r.token_type == IssuedTokenType::Meta && r.num_decimals == naming.num_decimals
                    && r.callback.caller@ == caller@ && r.callback.stake_type == stake_type
                    && r.callback.token@ == token@ && r.callback.token_decimals == token_decimals
                    && r.callback.reward_token@ == reward_token@,
                Err(e) => res == Err::<TokenIssueRequest, StakingError>(e),
            },
    {
        if !caller_whitelisted {
            return Err(StakingError::NotWhitelisted);
        }
        if !self.is_contract_active() {
            return Err(StakingError::ContractInactive);
        }
        if self.find_stake_index(token, false).is_some() {
            return Err(StakingError::StakeExists);
        }
        match ticker(token) {
            Some(t) => Ok(
                TokenIssueRequest {
                    issue_cost,
                    display_name: concat(&naming.display_name_prefix, &t),
                    ticker: concat(&naming.ticker_prefix, &t),
                    token_type: IssuedTokenType::Meta,
                    num_decimals: naming.num_decimals,
                    callback: IssueCallbackArgs {
                        caller: copy_bytes(caller),
                        stake_type,
                        token: copy_bytes(token),
                        token_decimals,
                        reward_token: copy_bytes(reward_token),
                    },
                },
            ),
            None => Err(StakingError::BadTokenTickerFormat),
        }
    }

    /// Ends the issue of a pool's liquid token. On success a new inactive,
    /// empty pool owned by `caller` is stored under the next id; on failure
    /// the issue cost goes back to `caller`.
    pub fn stake_token_issue_callback(
        &mut self,
        caller: &Vec<u8>,
        stake_type: StakeType,
        token: &Vec<u8>,
        token_decimals: u8,
        reward_token: &Vec<u8>,
        result: Result<Vec<u8>, ()>,
        issue_cost: BigNat,
    ) -> (res: CallbackOutcome)
        ensures
            final(self)@.well_formed(),
            match result {
                Ok(liquid) => {
                    &&& res == CallbackOutcome::StakeCreated(old(self)@.stakes.len() as u64)
                    &&& final(self)@ == (ContractView {
                        stakes: old(self)@.stakes.push(
                            new_stake_view(
                                old(self)@.stakes.len() as u64,
                                caller@,
                                stake_type,
                                token@,
                                token_decimals,
                                liquid@,
                                reward_token@,
                            ),
                        ),
                        ..old(self)@
                    })
                },
                Err(_) => {
                    &&& res matches CallbackOutcome::IssueCostRefunded { to, amount } && to@
                        == caller@ && amount@ == issue_cost@
                    &&& final(self)@ == old(self)@
                },
            },
    {
        proof {
            use_type_invariant(&*self);
        }
        match result {
            Ok(liquid) => {
                let id = self.stakes.len() as u64;
                let stake = Stake {
                    id,
                    owner: copy_bytes(caller),
                    state: State::Inactive,
                    stake_type,
                    token: copy_bytes(token),
                    token_decimals,
                    liquid_token: liquid,
                    reward_token: copy_bytes(reward_token),
                    staked_amount: BigNat::zero(),
                    rewards_amount: BigNat::zero(),
                    claimable_rewards: BigNat::zero(),
                    remaining_rewards: BigNat::zero(),
                    rewards_per_second: BigNat::zero(),
                    start_time: 0,
                    end_time: 0,
                    remaining_time: 0,
                    rps: BigNat::zero(),
                    last_rps_update_time: 0,
                };
                let ghost sv = stake@;
                let mut stakes: Vec<Stake> = Vec::new();
                std::mem::swap(&mut stakes, &mut self.stakes);
                stakes.push(stake);
                assert(stakes@.map_values(|s: Stake| s@) =~= old(self)@.stakes.push(sv));
                self.stakes = stakes;
                assert(self@.stakes =~= old(self)@.stakes.push(sv));
                CallbackOutcome::StakeCreated(id)
            },
            Err(_) => CallbackOutcome::IssueCostRefunded { to: copy_bytes(caller), amount: issue_cost },
        }
    }

    /// Switches pool `id` on: the caller must own it, and it must pay rewards
    /// per second, hold rewards and end in the future.
    pub fn set_stake_active(&mut self, caller: &Vec<u8>, now: u64, id: u64) -> (res: Result<
        (),
        StakingError,
    >)
        ensures
            final(self)@.well_formed(),
            follows(old(self)@, final(self)@, res, set_stake_active_spec(old(self)@, caller@, now, id)),
    {
        proof {
            use_type_invariant(&*self);
        }
        if !self.is_contract_active() {
            return Err(StakingError::ContractInactive);
        }
        if id >= self.stakes.len() as u64 {
            return Err(StakingError::StakeNotFound);
        }
        let i = id as usize;
        let s = self.stake_at(i);
        if !same_bytes(&s.owner, caller) {
            return Err(StakingError::NotStakeOwner);
        }
        if s.rewards_per_second.is_zero() {
            return Err(StakingError::ZeroApr);
        }
        if s.rewards_amount.is_zero() {
            return Err(StakingError::NoRewards);
        }
        if s.end_time <= now {
            return Err(StakingError::StakeExpired);
        }
        let mut n = s.numbers();
        n.state = State::Active;
        self.replace_numbers(i, n);
        Ok(())
    }

    /// Switches pool `id` off; the caller must own it.
    pub fn set_stake_inactive(&mut self, caller: &Vec<u8>, id: u64) -> (res: Result<
        (),
        StakingError,
    >)
        ensures
            final(self)@.well_formed(),
            follows(old(self)@, final(self)@, res, set_stake_inactive_spec(old(self)@, caller@, id)),
    {
        proof {
            use_type_invariant(&*self);
        }
        if !self.is_contract_active() {
            return Err(StakingError::ContractInactive);
        }
        if id >= self.stakes.len() as u64 {
            return Err(StakingError::StakeNotFound);
        }
        let i = id as usize;
        let s = self.stake_at(i);
        if !same_bytes(&s.owner, caller) {
            return Err(StakingError::NotStakeOwner);
        }
        let mut n = s.numbers();
        n.state = State::Inactive;
        self.replace_numbers(i, n);
        Ok(())
    }

    /// Changes how pool `id` pays rewards; the caller must own it and it must be inactive.
    pub fn change_stake_type(
        &mut self,
        caller: &Vec<u8>,
        id: u64,
        new_stake_type: StakeType,
    ) -> (res: Result<(), StakingError>)
        ensures
            final(self)@.well_formed(),
            follows(
                old(self)@,
                final(self)@,
                res,
                change_stake_type_spec(old(self)@, caller@, id, new_stake_type),
            ),
    {
        proof {
            use_type_invariant(&*self);
        }
        if !self.is_contract_active() {
            return Err(StakingError::ContractInactive);
        }
        if id >= self.stakes.len() as u64 {
            return Err(StakingError::StakeNotFound);
        }
        let i = id as usize;
        let s = self.stake_at(i);
        if !same_bytes(&s.owner, caller) {
            return Err(StakingError::NotStakeOwner);
        }
        if s.state != State::Inactive {
            return Err(StakingError::StakeActive);
        }
        let mut n = s.numbers();
        n.stake_type = new_stake_type;
        self.replace_numbers(i, n);
        Ok(())
    }
    /// Sets the rewards per second of pool `id` (the caller must own it),
    /// after bringing its reward index up to `now`.
    pub fn set_stake_rewards_per_second<F: Fn(RewardState, u64) -> (RewardState, bool)>(
        &mut self,
        caller: &Vec<u8>,
        now: u64,
        id: u64,
        rewards_per_second: BigNat,
        update_rps: &F,
    ) -> (res: Result<(), StakingError>)
        requires
            is_rps_update(*update_rps),
        ensures
            final(self)@.well_formed(),
            match set_rewards_per_second_check(old(self)@, caller@, id, rewards_per_second@) {
                Some(e) => res == Err::<(), StakingError>(e) && final(self)@ == old(self)@,
                None => exists|w: (RewardView, bool)|
                    #[trigger] updated_by(*update_rps, old(self)@.stakes[id as int].numbers, now, w)
                        && res is Ok && final(self)@ == old(self)@.with_numbers(
                        id as int,
                        RewardView { rewards_per_second: rewards_per_second@, ..w.0 },
                    ),
            },
    {
        proof {
            use_type_invariant(&*self);
        }
        if !self.is_contract_active() {
            return Err(StakingError::ContractInactive);
        }
        if id >= self.stakes.len() as u64 {
            return Err(StakingError::StakeNotFound);
        }
        if rewards_per_second.is_zero() {
            return Err(StakingError::ZeroApr);
        }
        let i = id as usize;
        let s = self.stake_at(i);
        if !same_bytes(&s.owner, caller) {
            return Err(StakingError::NotStakeOwner);
        }
        let input = s.numbers();
        let (mut n, ok) = update_rps(input, now);
        let ghost w = (n@, ok);
        assert(updated_by(*update_rps, old(self)@.stakes[id as int].numbers, now, w));
        n.rewards_per_second = rewards_per_second;
        self.replace_numbers(i, n);
        Ok(())
    }

    /// Moves the end of pool `id` (the caller must own it) to `new_end_time`,
    /// which must be after `now`, after bringing its reward index up to `now`.
    pub fn set_stake_end_time<F: Fn(RewardState, u64) -> (RewardState, bool)>(
        &mut self,
        caller: &Vec<u8>,
        now: u64,
        id: u64,
        new_end_time: u64,
        update_rps: &F,
    ) -> (res: Result<(), StakingError>)
        requires
            is_rps_update(*update_rps),
        ensures
            final(self)@.well_formed(),
            match set_end_time_check(old(self)@, caller@, now, id, new_end_time) {
                Some(e) => res == Err::<(), StakingError>(e) && final(self)@ == old(self)@,
                None => exists|w: (RewardView, bool)|
                    #[trigger] updated_by(*update_rps, old(self)@.stakes[id as int].numbers, now, w)
                        && res is Ok && final(self)@ == old(self)@.with_numbers(
                        id as int,
                        with_end_time(w.0, new_end_time),
                    ),
            },
    {
        proof {
            use_type_invariant(&*self);
        }
        if !self.is_contract_active() {
            return Err(StakingError::ContractInactive);
        }
        if id >= self.stakes.len() as u64 {
            return Err(StakingError::StakeNotFound);
        }
        if new_end_time <= now {
            return Err(StakingError::StakeExpired);
        }
        let i = id as usize;
        let s = self.stake_at(i);
        if !same_bytes(&s.owner, caller) {
            return Err(StakingError::NotStakeOwner);
        }
        let input = s.numbers();
        let (mut n, ok) = update_rps(input, now);
        let ghost w = (n@, ok);
        assert(updated_by(*update_rps, old(self)@.stakes[id as int].numbers, now, w));
        if n.start_time > 0 && n.end_time > 0 {
            n.remaining_time = n.remaining_time.wrapping_add(new_end_time);
            n.remaining_time = n.remaining_time.wrapping_sub(n.end_time);
        }
        n.end_time = new_end_time;
        self.replace_numbers(i, n);
        Ok(())
    }

    /// Adds a payment of reward tokens to pool `id` (anyone may pay), after
    /// bringing its reward index up to `now`.
    pub fn deposit_rewards<F: Fn(RewardState, u64) -> (RewardState, bool)>(
        &mut self,
        now: u64,
        id: u64,
        payment: &EsdtPayment,
        update_rps: &F,
    ) -> (res: Result<(), StakingError>)
        requires
            is_rps_update(*update_rps),
        ensures
            final(self)@.well_formed(),
            match deposit_check(old(self)@, id, payment.token@) {
                Some(e) => res == Err::<(), StakingError>(e) && final(self)@ == old(self)@,
                None => exists|w: (RewardView, bool)|
                    #[trigger] updated_by(*update_rps, old(self)@.stakes[id as int].numbers, now, w)
                        && res is Ok && final(self)@ == old(self)@.with_numbers(
                        id as int,
                        with_deposit(w.0, payment.amount@),
                    ),
            },
    {
        proof {
            use_type_invariant(&*self);
        }
        if !self.is_contract_active() {
            return Err(StakingError::ContractInactive);
        }
        if id >= self.stakes.len() as u64 {
            return Err(StakingError::StakeNotFound);
        }
        let i = id as usize;
        let s = self.stake_at(i);
        if !same_bytes(&payment.token, &s.reward_token) {
            return Err(StakingError::WrongPaymentToken);
        }
        let input = s.numbers();
        let (mut n, ok) = update_rps(input, now);
        let ghost w = (n@, ok);
        assert(updated_by(*update_rps, old(self)@.stakes[id as int].numbers, now, w));
        n.rewards_amount = n.rewards_amount.add(&payment.amount);
        n.remaining_rewards = n.remaining_rewards.add(&payment.amount);
        self.replace_numbers(i, n);
        Ok(())
    }

    /// Takes reward tokens out of pool `id` (the caller must own it): the
    /// amount asked for, or all remaining rewards, after bringing the reward
    /// index up to `now`. The answer is the transfer to the caller.
    pub fn withdraw_rewards<F: Fn(RewardState, u64) -> (RewardState, bool)>(
        &mut self,
        caller: &Vec<u8>,
        now: u64,
        id: u64,
        opt_amount: Option<BigNat>,
        update_rps: &F,
    ) -> (res: Result<Transfer, StakingError>)
        requires
            is_rps_update(*update_rps),
        ensures
            final(self)@.well_formed(),
            match owner_check(old(self)@, caller@, id) {
                Some(e) => res == Err::<Transfer, StakingError>(e) && final(self)@ == old(self)@,
                None => exists|w: (RewardView, bool)|
                    #[trigger] updated_by(*update_rps, old(self)@.stakes[id as int].numbers, now, w) && {
                        let amount = withdraw_amount(w.0, opt_view(opt_amount));
                        &&& follows(
                            old(self)@,
                            final(self)@,
                            res,
                            match with_withdrawal(w.0, amount) {
                                Ok(n) => Ok(old(self)@.with_numbers(id as int, n)),
                                Err(e) => Err(e),
                            },
                        )
                        &&& res matches Ok(t) ==> t.to@ == caller@ && t.token@ == old(
                            self,
                        )@.stakes[id as int].reward_token && t.nonce == 0 && t.amount@ == amount
                    },
            },
    {
        proof {
            use_type_invariant(&*self);
        }
        if !self.is_contract_active() {
            return Err(StakingError::ContractInactive);
        }
        if id >= self.stakes.len() as u64 {
            return Err(StakingError::StakeNotFound);
        }
        let i = id as usize;
        let s = self.stake_at(i);
        if !same_bytes(&s.owner, caller) {
            return Err(StakingError::NotStakeOwner);
        }
        let input = s.numbers();
        let (mut n, ok) = update_rps(input, now);
        let ghost w = (n@, ok);
        assert(updated_by(*update_rps, old(self)@.stakes[id as int].numbers, now, w));
        let amount = match opt_amount {
            Some(a) => a,
            None => n.remaining_rewards.copy(),
        };
        if !n.remaining_rewards.ge(&amount) {
            return Err(StakingError::HighAmount);
        }
        let rewards_left = match n.rewards_amount.checked_sub(&amount) {
            Some(v) => v,
            None => return Err(StakingError::SubtractionBelowZero),
        };
        let remaining_left = match n.remaining_rewards.checked_sub(&amount) {
            Some(v) => v,
            None => return Err(StakingError::HighAmount),
        };
        n.rewards_amount = rewards_left;
        n.remaining_rewards = remaining_left;
        let transfer = Transfer { to: copy_bytes(caller), token: copy_bytes(&s.reward_token), nonce: 0, amount };
        self.replace_numbers(i, n);
        Ok(transfer)
    }

    /// Switches the contract on; only its owner may.
    pub fn set_state_active(&mut self, caller_is_owner: bool) -> (res: Result<(), StakingError>)
        ensures
            final(self)@.well_formed(),
            follows(
                old(self)@,
                final(self)@,
                res,
                if caller_is_owner {
                    Ok(ContractView { state: State::Active, ..old(self)@ })
                } else {
                    Err(StakingError::NotContractOwner)
                },
            ),
    {
        proof {
            use_type_invariant(&*self);
        }
        if !caller_is_owner {
            return Err(StakingError::NotContractOwner);
        }
        self.state = State::Active;
        assert(self@ =~= ContractView { state: State::Active, ..old(self)@ });
        Ok(())
    }

    /// Switches the contract off; only its owner may.
    pub fn set_state_inactive(&mut self, caller_is_owner: bool) -> (res: Result<(), StakingError>)
        ensures
            final(self)@.well_formed(),
            follows(
                old(self)@,
                final(self)@,
                res,
                if caller_is_owner {
                    Ok(ContractView { state: State::Inactive, ..old(self)@ })
                } else {
                    Err(StakingError::NotContractOwner)
                },
            ),
    {
        proof {
            use_type_invariant(&*self);
        }
        if !caller_is_owner {
            return Err(StakingError::NotContractOwner);
        }
        self.state = State::Inactive;
        assert(self@ =~= ContractView { state: State::Inactive, ..old(self)@ });
        Ok(())
    }

    /// Records the platform contract; only the owner may, and only while no
    /// platform is recorded.
    pub fn set_platform_address(&mut self, caller_is_owner: bool, platform_sc: &Vec<u8>) -> (res: Result<
        (),
        StakingError,
    >)
        ensures
            final(self)@.well_formed(),
            follows(
                old(self)@,
                final(self)@,
                res,
                if !caller_is_owner {
                    Err(StakingError::NotContractOwner)
                } else if old(self)@.platform_sc is Some {
                    Err(StakingError::PlatformAlreadySet)
                } else {
                    Ok(ContractView { platform_sc: Some(platform_sc@), ..old(self)@ })
                },
            ),
    {
        proof {
            use_type_invariant(&*self);
        }
        if !caller_is_owner {
            return Err(StakingError::NotContractOwner);
        }
        if self.platform_sc.is_some() {
            return Err(StakingError::PlatformAlreadySet);
        }
        self.platform_sc = Some(copy_bytes(platform_sc));
        assert(self@ =~= ContractView { platform_sc: Some(platform_sc@), ..old(self)@ });
        Ok(())
    }

    /// The rewards that `staked_tokens` have earned in pool `id` by `now`:
    /// the pool's reward index is brought up to `now` on a copy (nothing is
    /// stored) and the rewards of the liquid tokens are summed at that index.
    pub fn get_user_rewards<F: Fn(RewardState, u64) -> (RewardState, bool)>(
        &self,
        id: u64,
        now: u64,
        staked_tokens: &Vec<LiquidPayment>,
        update_rps: &F,
    ) -> (res: Result<BigNat, StakingError>)
        requires
            is_rps_update(*update_rps),
        ensures
            id >= self@.stakes.len() ==> res == Err::<BigNat, StakingError>(StakingError::StakeNotFound),
            id < self@.stakes.len() ==> exists|w: (RewardView, bool)|
                #[trigger] updated_by(*update_rps, self@.stakes[id as int].numbers, now, w)
                    && match settle(staked_tokens@, w.0.rps, w.0.token_decimals) {
                    Ok(totals) => res matches Ok(r) && r@ == totals.1,
                    Err(e) => res == Err::<BigNat, StakingError>(e),
                },
    {
        if id >= self.stakes.len() as u64 {
            return Err(StakingError::StakeNotFound);
        }
        let s = self.stake_at(id as usize);
        let input = s.numbers();
        let (n, ok) = update_rps(input, now);
        let ghost w = (n@, ok);
        assert(updated_by(*update_rps, self@.stakes[id as int].numbers, now, w));
        match settle_payments(staked_tokens, &n.rps, n.token_decimals) {
            Ok((_amount, rewards)) => Ok(rewards),
            Err(e) => Err(e),
        }
    }
}

} // verus!
