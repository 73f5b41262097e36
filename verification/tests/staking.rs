use tfn_test_staking::contract::{
    CallbackOutcome, IssueCallbackArgs, IssuedTokenType, EsdtPayment, StakeTokenNaming, TFNTestStakingContract, TokenIssueRequest,
    Transfer,
};
use tfn_test_staking::bignat::BigNat;
use tfn_test_staking::errors::StakingError;
use tfn_test_staking::rewards::{payment_reward, settle_payments, LiquidPayment};
use tfn_test_staking::storage::{RewardState, StakeTokenAttributes, StakeType, State};
use tfn_test_staking::token::{same_bytes, ticker};
use tfn_test_staking::user::{Burn, LiquidMint};

fn b(x: u128) -> BigNat {
    BigNat::from_u128(x)
}

fn owner() -> Vec<u8> {
    b"owner-address".to_vec()
}

fn platform() -> Vec<u8> {
    b"platform-sc".to_vec()
}

fn staker() -> Vec<u8> {
    b"staker-address".to_vec()
}

fn stake_token() -> Vec<u8> {
    b"ABC-123456".to_vec()
}

fn liquid_token() -> Vec<u8> {
    b"SABC-abcdef".to_vec()
}

fn reward_token() -> Vec<u8> {
    b"RWD-654321".to_vec()
}

/// A reward update that accrues nothing and records the time.
fn keep(n: RewardState, now: u64) -> (RewardState, bool) {
    let mut m = n;
    m.last_rps_update_time = now;
    (m, true)
}

/// A reward update that finds the pool out of rewards.
fn out_of_rewards(n: RewardState, now: u64) -> (RewardState, bool) {
    let mut m = n;
    m.last_rps_update_time = now;
    (m, false)
}

fn naming() -> StakeTokenNaming {
    StakeTokenNaming {
        display_name_prefix: b"Staked".to_vec(),
        ticker_prefix: b"S".to_vec(),
        num_decimals: 18,
    }
}

/// A deployed contract with pool 0 created by `owner`.
fn with_pool() -> TFNTestStakingContract {
    let mut c = TFNTestStakingContract::init(&platform(), true);
    let out = c.stake_token_issue_callback(
        &owner(),
        StakeType::FixedAPR,
        &stake_token(),
        2,
        &reward_token(),
        Ok(liquid_token()),
        b(50),
    );
    assert_eq!(out, CallbackOutcome::StakeCreated(0));
    c
}

/// Pool 0 with 1000 rewards, 5 per second, ending at 1000, switched on.
fn with_active_pool() -> TFNTestStakingContract {
    let mut c = with_pool();
    assert_eq!(c.set_stake_rewards_per_second(&owner(), 10, 0, b(5), &keep), Ok(()));
    let pay = EsdtPayment { token: reward_token(), nonce: 0, amount: b(1000) };
    assert_eq!(c.deposit_rewards(10, 0, &pay, &keep), Ok(()));
    assert_eq!(c.set_stake_end_time(&owner(), 10, 0, 1000, &keep), Ok(()));
    assert_eq!(c.set_stake_active(&owner(), 10, 0), Ok(()));
    c
}

/// A reward update that raises the index to `rps` and records the time,
/// and changes nothing at the time of the last update.
fn set_rps(n: RewardState, now: u64, rps: u128) -> (RewardState, bool) {
    if now == n.last_rps_update_time {
        return (n, true);
    }
    assert!(b(rps).ge(&n.rps));
    let mut m = n;
    m.rps = b(rps);
    m.last_rps_update_time = now;
    (m, true)
}

#[test]
fn init_by_platform_is_active() {
    let c = TFNTestStakingContract::init(&platform(), true);
    assert_eq!(c.get_state(), State::Active);
    assert_eq!(c.get_platform_address(), Some(platform()));
    assert_eq!(c.last_stake_id(), 0);
    assert!(c.get_stakes().is_empty());
}

#[test]
fn init_by_account_is_inactive() {
    let c = TFNTestStakingContract::init(&owner(), false);
    assert_eq!(c.get_state(), State::Inactive);
    assert_eq!(c.get_platform_address(), None);
}

#[test]
fn ticker_drops_random_suffix() {
    assert_eq!(ticker(&b"ABCDEF-123456".to_vec()), Some(b"ABCDEF".to_vec()));
    assert_eq!(ticker(&b"-123456".to_vec()), Some(Vec::new()));
    assert_eq!(ticker(&b"123456".to_vec()), None);
}

#[test]
fn same_bytes_compares_contents() {
    assert!(same_bytes(&b"ABC".to_vec(), &b"ABC".to_vec()));
    assert!(!same_bytes(&b"ABC".to_vec(), &b"ABD".to_vec()));
    assert!(!same_bytes(&b"ABC".to_vec(), &b"AB".to_vec()));
}

#[test]
fn create_stake_names_liquid_token_after_ticker() {
    let c = TFNTestStakingContract::init(&platform(), true);
    let req = c.create_stake(&owner(), true, StakeType::FixedAPR, &stake_token(), 2, &reward_token(), b(50), &naming());
    assert_eq!(
        req,
        Ok(TokenIssueRequest {
            issue_cost: b(50),
            display_name: b"StakedABC".to_vec(),
            ticker: b"SABC".to_vec(),
            token_type: IssuedTokenType::Meta,
            num_decimals: 18,
            callback: IssueCallbackArgs {
                caller: owner(),
                stake_type: StakeType::FixedAPR,
                token: stake_token(),
                token_decimals: 2,
                reward_token: reward_token(),
            },
        })
    );
}

#[test]
fn create_stake_errors() {
    let c = TFNTestStakingContract::init(&platform(), true);
    assert_eq!(c.create_stake(&owner(), false, StakeType::FixedAPR, &stake_token(), 2, &reward_token(), b(50), &naming()), Err(StakingError::NotWhitelisted));
    assert_eq!(
        c.create_stake(&owner(), true, StakeType::FixedAPR, &b"SHORT".to_vec(), 2, &reward_token(), b(50), &naming()),
        Err(StakingError::BadTokenTickerFormat)
    );
    let inactive = TFNTestStakingContract::init(&owner(), false);
    assert_eq!(
        inactive.create_stake(&owner(), true, StakeType::FixedAPR, &stake_token(), 2, &reward_token(), b(50), &naming()),
        Err(StakingError::ContractInactive)
    );
    let c = with_pool();
    assert_eq!(c.create_stake(&owner(), true, StakeType::FixedAPR, &stake_token(), 2, &reward_token(), b(50), &naming()), Err(StakingError::StakeExists));
}

#[test]
fn callback_creates_inactive_empty_pool_with_next_id() {
    let mut c = with_pool();
    let s = c.get_stake(0).unwrap();
    assert_eq!(s.id, 0);
    assert_eq!(s.owner, owner());
    assert_eq!(s.state, State::Inactive);
    assert_eq!(s.token, stake_token());
    assert_eq!(s.token_decimals, 2);
    assert_eq!(s.liquid_token, liquid_token());
    assert_eq!(s.reward_token, reward_token());
    assert_eq!(s.staked_amount, b(0));
    assert_eq!(s.rps, b(0));
    let out = c.stake_token_issue_callback(
        &owner(),
        StakeType::DynamicAPR,
        &b"XYZ-000000".to_vec(),
        6,
        &reward_token(),
        Ok(b"SXYZ-111111".to_vec()),
        b(50),
    );
    assert_eq!(out, CallbackOutcome::StakeCreated(1));
    assert_eq!(c.last_stake_id(), 2);
    assert_eq!(c.get_stake(1).unwrap().id, 1);
    assert!(c.get_stake(2).is_none());
}

#[test]
fn callback_failure_refunds_issue_cost() {
    let mut c = TFNTestStakingContract::init(&platform(), true);
    let out = c.stake_token_issue_callback(
        &owner(),
        StakeType::FixedAPR,
        &stake_token(),
        2,
        &reward_token(),
        Err(()),
        b(50),
    );
    assert_eq!(out, CallbackOutcome::IssueCostRefunded { to: owner(), amount: b(50) });
    assert_eq!(c.last_stake_id(), 0);
}

#[test]
fn lookups_by_token() {
    let c = with_pool();
    assert_eq!(c.get_stake_by_token(&stake_token()).unwrap().id, 0);
    assert_eq!(c.get_stake_by_liquid_token(&liquid_token()).unwrap().id, 0);
    assert!(c.get_stake_by_token(&liquid_token()).is_none());
    assert!(c.get_stake_by_liquid_token(&stake_token()).is_none());
}

#[test]
fn set_stake_active_errors() {
    let mut c = with_pool();
    assert_eq!(c.set_stake_active(&owner(), 10, 7), Err(StakingError::StakeNotFound));
    assert_eq!(c.set_stake_active(&staker(), 10, 0), Err(StakingError::NotStakeOwner));
    assert_eq!(c.set_stake_active(&owner(), 10, 0), Err(StakingError::ZeroApr));
    c.set_stake_rewards_per_second(&owner(), 10, 0, b(5), &keep).unwrap();
    assert_eq!(c.set_stake_active(&owner(), 10, 0), Err(StakingError::NoRewards));
    let pay = EsdtPayment { token: reward_token(), nonce: 0, amount: b(1000) };
    c.deposit_rewards(10, 0, &pay, &keep).unwrap();
    assert_eq!(c.set_stake_active(&owner(), 10, 0), Err(StakingError::StakeExpired));
    c.set_stake_end_time(&owner(), 10, 0, 1000, &keep).unwrap();
    assert_eq!(c.set_stake_active(&owner(), 1000, 0), Err(StakingError::StakeExpired));
    assert_eq!(c.set_stake_active(&owner(), 999, 0), Ok(()));
    assert_eq!(c.get_stake(0).unwrap().state, State::Active);
}

#[test]
fn inactive_contract_refuses_everything() {
    let mut c = TFNTestStakingContract::init(&owner(), false);
    assert_eq!(c.set_stake_active(&owner(), 10, 0), Err(StakingError::ContractInactive));
    assert_eq!(c.set_stake_inactive(&owner(), 0), Err(StakingError::ContractInactive));
    assert_eq!(
        c.change_stake_type(&owner(), 0, StakeType::DynamicAPR),
        Err(StakingError::ContractInactive)
    );
    assert_eq!(
        c.set_stake_rewards_per_second(&owner(), 10, 0, b(5), &keep),
        Err(StakingError::ContractInactive)
    );
    assert_eq!(c.set_stake_end_time(&owner(), 10, 0, 100, &keep), Err(StakingError::ContractInactive));
    let pay = EsdtPayment { token: reward_token(), nonce: 0, amount: b(1) };
    assert_eq!(c.deposit_rewards(10, 0, &pay, &keep), Err(StakingError::ContractInactive));
    assert_eq!(c.withdraw_rewards(&owner(), 10, 0, None, &keep), Err(StakingError::ContractInactive));
    let sp = EsdtPayment { token: stake_token(), nonce: 0, amount: b(1) };
    assert_eq!(c.user_stake(&staker(), 10, &sp, &keep), Err(StakingError::ContractInactive));
    let lp = vec![LiquidPayment {
        token: liquid_token(),
        nonce: 1,
        amount: b(1),
        attributes: StakeTokenAttributes { rps: b(0) },
    }];
    assert_eq!(c.user_unstake(&staker(), 10, &lp, &keep), Err(StakingError::ContractInactive));
    assert_eq!(c.claim_rewards(&staker(), 10, &lp, &keep), Err(StakingError::ContractInactive));
}

#[test]
fn only_owner_changes_pool() {
    let mut c = with_active_pool();
    assert_eq!(c.set_stake_inactive(&staker(), 0), Err(StakingError::NotStakeOwner));
    assert_eq!(
        c.change_stake_type(&staker(), 0, StakeType::DynamicAPR),
        Err(StakingError::NotStakeOwner)
    );
    assert_eq!(
        c.set_stake_rewards_per_second(&staker(), 10, 0, b(9), &keep),
        Err(StakingError::NotStakeOwner)
    );
    assert_eq!(c.set_stake_end_time(&staker(), 10, 0, 2000, &keep), Err(StakingError::NotStakeOwner));
    assert_eq!(c.withdraw_rewards(&staker(), 10, 0, None, &keep), Err(StakingError::NotStakeOwner));
    assert_eq!(c.get_stake(0).unwrap().rewards_per_second, b(5));
    assert_eq!(c.get_stake(0).unwrap().end_time, 1000);
}

#[test]
fn rewards_per_second_and_end_time_checks() {
    let mut c = with_pool();
    assert_eq!(c.set_stake_rewards_per_second(&owner(), 10, 0, b(0), &keep), Err(StakingError::ZeroApr));
    assert_eq!(c.set_stake_end_time(&owner(), 10, 0, 10, &keep), Err(StakingError::StakeExpired));
    assert_eq!(c.set_stake_end_time(&owner(), 10, 0, 11, &keep), Ok(()));
    assert_eq!(c.get_stake(0).unwrap().end_time, 11);
    // a pool that never started keeps its remaining time
    assert_eq!(c.get_stake(0).unwrap().remaining_time, 0);
}

#[test]
fn end_time_shifts_remaining_time_of_started_pool() {
    let mut c = with_active_pool();
    let sp = EsdtPayment { token: stake_token(), nonce: 0, amount: b(10) };
    c.user_stake(&staker(), 100, &sp, &keep).unwrap();
    assert_eq!(c.get_stake(0).unwrap().start_time, 100);
    assert_eq!(c.get_stake(0).unwrap().remaining_time, 900);
    assert_eq!(c.set_stake_end_time(&owner(), 200, 0, 1500, &keep), Ok(()));
    assert_eq!(c.get_stake(0).unwrap().remaining_time, 1400);
    assert_eq!(c.get_stake(0).unwrap().end_time, 1500);
    assert_eq!(c.set_stake_end_time(&owner(), 200, 0, 1200, &keep), Ok(()));
    assert_eq!(c.get_stake(0).unwrap().remaining_time, 1100);
}

#[test]
fn change_stake_type_needs_inactive_pool() {
    let mut c = with_active_pool();
    assert_eq!(c.change_stake_type(&owner(), 0, StakeType::DynamicAPR), Err(StakingError::StakeActive));
    assert_eq!(c.set_stake_inactive(&owner(), 0), Ok(()));
    assert_eq!(c.get_stake(0).unwrap().state, State::Inactive);
    assert_eq!(c.change_stake_type(&owner(), 0, StakeType::DynamicAPR), Ok(()));
    assert_eq!(c.get_stake(0).unwrap().stake_type, StakeType::DynamicAPR);
}

#[test]
fn deposit_checks_reward_token() {
    let mut c = with_pool();
    let wrong = EsdtPayment { token: stake_token(), nonce: 0, amount: b(10) };
    assert_eq!(c.deposit_rewards(10, 0, &wrong, &keep), Err(StakingError::WrongPaymentToken));
    let pay = EsdtPayment { token: reward_token(), nonce: 0, amount: b(10) };
    assert_eq!(c.deposit_rewards(10, 3, &pay, &keep), Err(StakingError::StakeNotFound));
    assert_eq!(c.deposit_rewards(10, 0, &pay, &keep), Ok(()));
    assert_eq!(c.deposit_rewards(10, 0, &pay, &keep), Ok(()));
    assert_eq!(c.get_stake(0).unwrap().rewards_amount, b(20));
    assert_eq!(c.get_stake(0).unwrap().remaining_rewards, b(20));
}

#[test]
fn deposits_beyond_128_bits_are_kept_whole() {
    let mut c = with_pool();
    let pay = EsdtPayment { token: reward_token(), nonce: 0, amount: b(u128::MAX) };
    assert_eq!(c.deposit_rewards(10, 0, &pay, &keep), Ok(()));
    let one = EsdtPayment { token: reward_token(), nonce: 0, amount: b(1) };
    assert_eq!(c.deposit_rewards(10, 0, &one, &keep), Ok(()));
    let total = c.get_stake(0).unwrap().rewards_amount.clone();
    assert_eq!(total.to_u128(), None);
    assert_eq!(total.checked_sub(&b(u128::MAX)), Some(b(1)));
    let mut bytes = vec![1u8];
    bytes.extend_from_slice(&[0u8; 16]);
    assert_eq!(total.to_be_bytes(), bytes);
    assert_eq!(BigNat::from_be_bytes(&bytes), total);
}

#[test]
fn withdraw_undoes_deposit() {
    let mut c = with_pool();
    let pay = EsdtPayment { token: reward_token(), nonce: 0, amount: b(70) };
    c.deposit_rewards(10, 0, &pay, &keep).unwrap();
    let t = c.withdraw_rewards(&owner(), 10, 0, Some(b(70)), &keep);
    assert_eq!(t, Ok(Transfer { to: owner(), token: reward_token(), nonce: 0, amount: b(70) }));
    assert_eq!(c.get_stake(0).unwrap().rewards_amount, b(0));
    assert_eq!(c.get_stake(0).unwrap().remaining_rewards, b(0));
}

#[test]
fn withdraw_errors() {
    let mut c = with_active_pool();
    assert_eq!(c.withdraw_rewards(&owner(), 10, 0, Some(b(1001)), &keep), Err(StakingError::HighAmount));
    assert_eq!(c.withdraw_rewards(&owner(), 10, 9, None, &keep), Err(StakingError::StakeNotFound));
    // the reward update may leave more remaining than deposited in total
    let grow = |n: RewardState, t: u64| {
        let mut m = n;
        m.last_rps_update_time = t;
        m.remaining_rewards = b(2000);
        (m, true)
    };
    assert_eq!(
        c.withdraw_rewards(&owner(), 10, 0, Some(b(1500)), &grow),
        Err(StakingError::SubtractionBelowZero)
    );
    assert_eq!(c.get_stake(0).unwrap().remaining_rewards, b(1000));
}

#[test]
fn withdrawing_all_deactivates() {
    let mut c = with_active_pool();
    let t = c.withdraw_rewards(&owner(), 10, 0, None, &keep).unwrap();
    assert_eq!(t.amount, b(1000));
    let s = c.get_stake(0).unwrap();
    assert_eq!(s.remaining_rewards, b(0));
    assert!(!s.is_active(10));
    let sp = EsdtPayment { token: stake_token(), nonce: 0, amount: b(5) };
    assert_eq!(c.user_stake(&staker(), 20, &sp, &keep), Err(StakingError::StakeInactive));
}

#[test]
fn is_active_conditions() {
    let c = with_active_pool();
    let s = c.get_stake(0).unwrap();
    assert!(s.is_active(999));
    assert!(!s.is_active(1000));
    let mut t = s.clone();
    t.claimable_rewards = b(1001);
    assert!(!t.is_active(10));
    t.claimable_rewards = b(1000);
    assert!(t.is_active(10));
    t.state = State::Inactive;
    assert!(!t.is_active(10));
}

#[test]
fn user_stake_mints_liquid_tokens() {
    let mut c = with_active_pool();
    let sp = EsdtPayment { token: stake_token(), nonce: 0, amount: b(250) };
    let m = c.user_stake(&staker(), 100, &sp, &|n, t| set_rps(n, t, 7));
    // the first stake starts the pool now, so the update finds no time passed
    assert_eq!(
        m,
        Ok(LiquidMint {
            to: staker(),
            token: liquid_token(),
            amount: b(250),
            attributes: StakeTokenAttributes { rps: b(0) },
        })
    );
    let s = c.get_stake(0).unwrap();
    assert_eq!(s.staked_amount, b(250));
    assert_eq!(s.start_time, 100);
    assert_eq!(s.last_rps_update_time, 100);
    assert_eq!(s.remaining_time, 900);
    assert_eq!(s.rps, b(0));
    let sp2 = EsdtPayment { token: stake_token(), nonce: 0, amount: b(50) };
    let m2 = c.user_stake(&staker(), 150, &sp2, &|n, t| set_rps(n, t, 7)).unwrap();
    assert_eq!(m2.attributes, StakeTokenAttributes { rps: b(7) });
    let s = c.get_stake(0).unwrap();
    assert_eq!(s.staked_amount, b(300));
    assert_eq!(s.start_time, 100);
    assert_eq!(s.last_rps_update_time, 150);
    assert_eq!(s.rps, b(7));
}

#[test]
fn user_stake_errors() {
    let mut c = with_pool();
    let sp = EsdtPayment { token: stake_token(), nonce: 0, amount: b(5) };
    assert_eq!(c.user_stake(&staker(), 10, &sp, &keep), Err(StakingError::StakeInactive));
    let wrong = EsdtPayment { token: reward_token(), nonce: 0, amount: b(5) };
    assert_eq!(c.user_stake(&staker(), 10, &wrong, &keep), Err(StakingError::WrongPaymentToken));
    let mut c = with_active_pool();
    assert_eq!(c.user_stake(&staker(), 10, &sp, &out_of_rewards), Err(StakingError::OutOfRewards));
    assert_eq!(c.get_stake(0).unwrap().start_time, 0);
}

#[test]
fn unstake_returns_stake_and_rewards() {
    let mut c = with_active_pool();
    let sp = EsdtPayment { token: stake_token(), nonce: 0, amount: b(300) };
    c.user_stake(&staker(), 100, &sp, &keep).unwrap();
    let lp = vec![
        LiquidPayment { token: liquid_token(), nonce: 1, amount: b(200), attributes: StakeTokenAttributes { rps: b(0) } },
        LiquidPayment { token: liquid_token(), nonce: 2, amount: b(100), attributes: StakeTokenAttributes { rps: b(50) } },
    ];
    // two decimals: one whole token is 100 units; rps 150 means 1.5 rewards per whole token
    let out = c.user_unstake(&staker(), 200, &lp, &|n, t| set_rps(n, t, 150)).unwrap();
    assert_eq!(
        out.burns,
        vec![
            Burn { token: liquid_token(), nonce: 1, amount: b(200) },
            Burn { token: liquid_token(), nonce: 2, amount: b(100) },
        ]
    );
    assert_eq!(out.returned, Transfer { to: staker(), token: stake_token(), nonce: 0, amount: b(300) });
    // 200 * 150 / 100 + 100 * 100 / 100 = 300 + 100
    assert_eq!(out.rewards, Some(Transfer { to: staker(), token: reward_token(), nonce: 0, amount: b(400) }));
    assert_eq!(c.get_stake(0).unwrap().staked_amount, b(0));
    assert_eq!(c.get_stake(0).unwrap().rps, b(150));
}

#[test]
fn unstake_undoes_stake() {
    let mut c = with_active_pool();
    let before = c.get_stake(0).unwrap().clone();
    let sp = EsdtPayment { token: stake_token(), nonce: 0, amount: b(42) };
    let m = c.user_stake(&staker(), 100, &sp, &keep).unwrap();
    let lp = vec![LiquidPayment { token: m.token.clone(), nonce: 1, amount: m.amount, attributes: m.attributes }];
    let out = c.user_unstake(&staker(), 100, &lp, &keep).unwrap();
    assert_eq!(out.returned.amount, b(42));
    assert_eq!(out.rewards, None);
    let after = c.get_stake(0).unwrap();
    assert_eq!(after.staked_amount, before.staked_amount);
    assert_eq!(after.rps, before.rps);
}

#[test]
fn unstake_errors() {
    let mut c = with_active_pool();
    let sp = EsdtPayment { token: stake_token(), nonce: 0, amount: b(100) };
    c.user_stake(&staker(), 100, &sp, &keep).unwrap();
    c.set_stake_rewards_per_second(&owner(), 120, 0, b(5), &|n, t| set_rps(n, t, 10)).unwrap();
    assert_eq!(c.get_stake(0).unwrap().rps, b(10));
    assert_eq!(c.user_unstake(&staker(), 100, &Vec::new(), &keep), Err(StakingError::WrongPaymentToken));
    let mixed = vec![
        LiquidPayment { token: liquid_token(), nonce: 1, amount: b(1), attributes: StakeTokenAttributes { rps: b(0) } },
        LiquidPayment { token: stake_token(), nonce: 0, amount: b(1), attributes: StakeTokenAttributes { rps: b(0) } },
    ];
    assert_eq!(c.user_unstake(&staker(), 100, &mixed, &keep), Err(StakingError::WrongPaymentToken));
    let unknown = vec![LiquidPayment {
        token: b"OTHER-000000".to_vec(),
        nonce: 1,
        amount: b(1),
        attributes: StakeTokenAttributes { rps: b(0) },
    }];
    assert_eq!(c.user_unstake(&staker(), 100, &unknown, &keep), Err(StakingError::WrongPaymentToken));
    let future = vec![LiquidPayment {
        token: liquid_token(),
        nonce: 1,
        amount: b(1),
        attributes: StakeTokenAttributes { rps: b(11) },
    }];
    assert_eq!(c.user_unstake(&staker(), 100, &future, &keep), Err(StakingError::SubtractionBelowZero));
    let too_much = vec![LiquidPayment {
        token: liquid_token(),
        nonce: 1,
        amount: b(101),
        attributes: StakeTokenAttributes { rps: b(10) },
    }];
    assert_eq!(c.user_unstake(&staker(), 100, &too_much, &keep), Err(StakingError::SubtractionBelowZero));
    let ok = vec![LiquidPayment {
        token: liquid_token(),
        nonce: 1,
        amount: b(100),
        attributes: StakeTokenAttributes { rps: b(10) },
    }];
    assert_eq!(c.user_unstake(&staker(), 100, &ok, &out_of_rewards), Err(StakingError::OutOfRewards));
    c.set_stake_inactive(&owner(), 0).unwrap();
    assert_eq!(c.user_unstake(&staker(), 100, &ok, &keep), Err(StakingError::StakeInactive));
    assert_eq!(c.claim_rewards(&staker(), 100, &ok, &keep), Err(StakingError::StakeInactive));
    assert_eq!(c.get_stake(0).unwrap().staked_amount, b(100));
}

#[test]
fn claim_reminted_and_pays_rewards() {
    let mut c = with_active_pool();
    let sp = EsdtPayment { token: stake_token(), nonce: 0, amount: b(500) };
    c.user_stake(&staker(), 100, &sp, &keep).unwrap();
    let lp = vec![LiquidPayment { token: liquid_token(), nonce: 1, amount: b(500), attributes: StakeTokenAttributes { rps: b(0) } }];
    let out = c.claim_rewards(&staker(), 150, &lp, &|n, t| set_rps(n, t, 40)).unwrap();
    assert_eq!(out.burns, vec![Burn { token: liquid_token(), nonce: 1, amount: b(500) }]);
    assert_eq!(
        out.reminted,
        LiquidMint { to: staker(), token: liquid_token(), amount: b(500), attributes: StakeTokenAttributes { rps: b(40) } }
    );
    assert_eq!(out.rewards, Some(Transfer { to: staker(), token: reward_token(), nonce: 0, amount: b(200) }));
    assert_eq!(c.get_stake(0).unwrap().staked_amount, b(500));
    assert_eq!(c.get_stake(0).unwrap().rps, b(40));
}

#[test]
fn second_claim_in_one_block_pays_nothing() {
    let mut c = with_active_pool();
    let sp = EsdtPayment { token: stake_token(), nonce: 0, amount: b(500) };
    c.user_stake(&staker(), 100, &sp, &keep).unwrap();
    let lp = vec![LiquidPayment { token: liquid_token(), nonce: 1, amount: b(500), attributes: StakeTokenAttributes { rps: b(0) } }];
    let first = c.claim_rewards(&staker(), 150, &lp, &|n, t| set_rps(n, t, 40)).unwrap();
    assert_eq!(first.rewards.map(|t| t.amount), Some(b(200)));
    let again = vec![LiquidPayment {
        token: first.reminted.token.clone(),
        nonce: 2,
        amount: first.reminted.amount,
        attributes: first.reminted.attributes,
    }];
    let before = c.get_stake(0).unwrap().clone();
    let out = c.claim_rewards(&staker(), 150, &again, &|n, t| set_rps(n, t, 90)).unwrap();
    assert_eq!(out.rewards, None);
    assert_eq!(out.reminted.amount, b(500));
    assert_eq!(out.reminted.attributes.rps, b(40));
    assert_eq!(c.get_stake(0).unwrap(), &before);
}

#[test]
fn claim_ignores_out_of_rewards() {
    let mut c = with_active_pool();
    let lp = vec![LiquidPayment { token: liquid_token(), nonce: 1, amount: b(5), attributes: StakeTokenAttributes { rps: b(0) } }];
    assert!(c.claim_rewards(&staker(), 100, &lp, &out_of_rewards).is_ok());
}

#[test]
fn payment_reward_formula() {
    let r = |a: u128, rps: u128, minted: u128, d: u8| payment_reward(&b(a), &b(rps), &b(minted), d);
    assert_eq!(r(1000, 50, 20, 1), b(3000));
    assert_eq!(r(7, 10, 0, 0), b(70));
    assert_eq!(r(999, 1, 0, 3), b(0));
    assert_eq!(r(5, 3, 3, 2), b(0));
    assert_eq!(r(u128::MAX, 1, 0, 200), b(0));
    assert_eq!(r(10u128.pow(38), 3, 0, 38), b(3));
    // 10^30 units at 18 decimals and an index of 10^20: 10^32
    assert_eq!(r(10u128.pow(30), 10u128.pow(20), 0, 18), b(10u128.pow(32)));
    // 2 tokens minted at 0, pool at index 2^128 - 1, no decimals
    let big = r(2, u128::MAX, 0, 0);
    assert_eq!(big.checked_sub(&b(u128::MAX)), Some(b(u128::MAX)));
}

#[test]
fn settle_totals_and_errors() {
    let p = |amount: u128, rps: u128| LiquidPayment {
        token: liquid_token(),
        nonce: 1,
        amount: b(amount),
        attributes: StakeTokenAttributes { rps: b(rps) },
    };
    assert_eq!(settle_payments(&vec![p(100, 0), p(300, 10)], &b(20), 1), Ok((b(400), b(500))));
    assert_eq!(settle_payments(&Vec::new(), &b(20), 1), Ok((b(0), b(0))));
    assert_eq!(
        settle_payments(&vec![p(1, 0), p(1, 21)], &b(20), 1),
        Err(StakingError::SubtractionBelowZero)
    );
    let (total, rewards) = settle_payments(&vec![p(u128::MAX, 20), p(1, 20)], &b(20), 1).unwrap();
    assert_eq!(total.checked_sub(&b(u128::MAX)), Some(b(1)));
    assert_eq!(rewards, b(0));
}

#[test]
fn unstake_pays_rewards_beyond_128_bits() {
    let mut c = with_active_pool();
    let sp = EsdtPayment { token: stake_token(), nonce: 0, amount: b(200) };
    c.user_stake(&staker(), 100, &sp, &keep).unwrap();
    let lp = vec![LiquidPayment { token: liquid_token(), nonce: 1, amount: b(200), attributes: StakeTokenAttributes { rps: b(0) } }];
    let out = c.user_unstake(&staker(), 200, &lp, &|n, t| set_rps(n, t, u128::MAX)).unwrap();
    // two decimals: 200 units are two whole tokens
    let paid = out.rewards.unwrap().amount;
    assert_eq!(paid.checked_sub(&b(u128::MAX)), Some(b(u128::MAX)));
}

#[test]
fn contract_state_is_set_by_owner() {
    let mut c = TFNTestStakingContract::init(&owner(), false);
    assert_eq!(c.set_state_active(false), Err(StakingError::NotContractOwner));
    assert_eq!(c.get_state(), State::Inactive);
    assert_eq!(c.set_state_active(true), Ok(()));
    assert_eq!(c.get_state(), State::Active);
    assert_eq!(c.set_state_inactive(false), Err(StakingError::NotContractOwner));
    assert_eq!(c.set_state_inactive(true), Ok(()));
    assert_eq!(c.get_state(), State::Inactive);
}

#[test]
fn platform_address_is_set_once() {
    let mut c = TFNTestStakingContract::init(&owner(), false);
    assert_eq!(c.set_platform_address(false, &platform()), Err(StakingError::NotContractOwner));
    assert_eq!(c.set_platform_address(true, &platform()), Ok(()));
    assert_eq!(c.get_platform_address(), Some(platform()));
    assert_eq!(c.set_platform_address(true, &owner()), Err(StakingError::PlatformAlreadySet));
    assert_eq!(c.get_platform_address(), Some(platform()));
}

#[test]
fn user_rewards_at_current_index() {
    let mut c = with_active_pool();
    let sp = EsdtPayment { token: stake_token(), nonce: 0, amount: b(300) };
    c.user_stake(&staker(), 100, &sp, &keep).unwrap();
    let lp = vec![
        LiquidPayment { token: liquid_token(), nonce: 1, amount: b(200), attributes: StakeTokenAttributes { rps: b(0) } },
        LiquidPayment { token: liquid_token(), nonce: 2, amount: b(100), attributes: StakeTokenAttributes { rps: b(50) } },
    ];
    assert_eq!(c.get_user_rewards(0, 200, &lp, &|n, t| set_rps(n, t, 150)), Ok(b(400)));
    // nothing was stored
    assert_eq!(c.get_stake(0).unwrap().rps, b(0));
    assert_eq!(c.get_user_rewards(5, 200, &lp, &keep), Err(StakingError::StakeNotFound));
    assert_eq!(c.get_user_rewards(0, 200, &lp, &keep), Err(StakingError::SubtractionBelowZero));
}

#[test]
fn withdraw_undoes_deposit_in_one_block() {
    let mut c = with_active_pool();
    let sp = EsdtPayment { token: stake_token(), nonce: 0, amount: b(10) };
    c.user_stake(&staker(), 100, &sp, &keep).unwrap();
    let before = c.get_stake(0).unwrap().clone();
    let pay = EsdtPayment { token: reward_token(), nonce: 0, amount: b(77) };
    c.deposit_rewards(100, 0, &pay, &|n, t| set_rps(n, t, 9)).unwrap();
    let t = c.withdraw_rewards(&owner(), 100, 0, Some(b(77)), &|n, t| set_rps(n, t, 9)).unwrap();
    assert_eq!(t.amount, b(77));
    assert_eq!(c.get_stake(0).unwrap(), &before);
}

#[test]
fn reward_index_never_decreases() {
    let mut c = with_active_pool();
    let sp = EsdtPayment { token: stake_token(), nonce: 0, amount: b(10) };
    c.user_stake(&staker(), 100, &sp, &keep).unwrap();
    let mut last = c.get_stake(0).unwrap().rps.clone();
    for (t, rps) in [(110u64, 3u128), (120, 3), (130, 8)] {
        let pay = EsdtPayment { token: reward_token(), nonce: 0, amount: b(1) };
        c.deposit_rewards(t, 0, &pay, &|n, now| set_rps(n, now, rps)).unwrap();
        let now = c.get_stake(0).unwrap().rps.clone();
        assert!(now.ge(&last));
        last = now;
    }
    assert_eq!(last, b(8));
}
