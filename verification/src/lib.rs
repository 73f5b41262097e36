//! Staking pools for ESDT tokens: owners open pools that reward stakers in a
//! reward token; stakers receive liquid tokens that remember the reward index
//! at which they were minted.

pub mod bignat;
pub mod errors;
pub mod storage;
pub mod token;
pub mod contract;
pub mod rewards;
pub mod user;
pub mod laws;
