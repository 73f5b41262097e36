use vstd::prelude::*;

verus! {

/// Why the contract refuses a request. A refused request changes nothing.
#[derive(Clone, Copy, PartialEq, Eq, Structural, Debug)]
pub enum StakingError {
    /// Only the contract's owner may make this request.
    NotContractOwner,
    /// The platform address is already set.
    PlatformAlreadySet,
    /// The platform contract does not whitelist the caller.
    NotWhitelisted,
    /// The contract is not active.
    ContractInactive,
    /// A pool for this token already exists.
    StakeExists,
    /// No pool has this id.
    StakeNotFound,
    /// The caller does not own the pool.
    NotStakeOwner,
    /// The rewards per second would be zero.
    ZeroApr,
    /// The pool holds no rewards.
    NoRewards,
    /// The end time is not in the future.
    StakeExpired,
    /// The payment is not in the token the request needs.
    WrongPaymentToken,
    /// More rewards are asked for than the pool holds.
    HighAmount,
    /// The pool is active and the request needs it inactive.
    StakeActive,
    /// The pool is not active.
    StakeInactive,
    /// Updating the reward index found the pool out of rewards.
    OutOfRewards,
    /// A token identifier is shorter than its random suffix.
    BadTokenTickerFormat,
    /// An amount would fall below zero.
    SubtractionBelowZero,
}

} // verus!
