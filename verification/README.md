# tfn_test_staking

Staking pools for ESDT tokens on MultiversX, as a verified library.

Pool owners open a pool for a staked token, fund it with a reward token and
switch it on; stakers pay in the staked token and receive liquid tokens whose
attributes remember the pool's reward index (`rps`) at mint time. Unstaking
burns the liquid tokens, returns the staked tokens and pays
`amount * (rps_now - rps_at_mint) / 10^decimals` in rewards; claiming pays the
same rewards and mints the liquid tokens again at the current index.

## Layout

- `src/storage.rs`: pools (`Stake`), their reward state, `is_active`.
- `src/contract.rs`: the contract's storage and the owner requests
  (create, issue callback, activate, deactivate, rewards per second, end
  time, deposit, withdraw, stake type), each with its specification.
- `src/user.rs`: stake, unstake, claim.
- `src/rewards.rs`: the reward formula and the totals over many payments.
- `src/token.rs`: byte strings, token tickers.
- `src/bignat.rs`: natural numbers of any size.
- `src/laws.rs`: properties that span requests.
- `app/`: the codec-carrying storage types, the platform whitelist call, and
  the transfers, mints, burns and attribute reads that the answers ask for.

## Model

Each request takes what the chain supplies (caller, block timestamp,
payments, token attributes) as plain values and answers with the transfers,
mints and burns to perform, or an error; a refused request changes nothing.
Amounts and the reward index are natural numbers of any size (`BigNat`, in
base-2^32 digits with a `nat` view), so no sum or product is ever refused for
its size. Times are `u64` and wrap as in the deployed contract.

The reward-index update (`update_rps`) is a parameter of the requests that
use it: it maps a pool's reward state and the current time to a new reward
state and whether the pool still has rewards. The library asks of it
(`is_rps_update`) that it keeps a pool's state, stake type, decimals, staked
amount, start and end; that it never lowers the index; that it records the
current time as the time of the last update; and that it changes nothing
when no time has passed since the last update. Every contract is
proved for every such update.
