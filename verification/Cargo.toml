[package]
name = "tfn_test_staking"
version = "0.1.0"
edition = "2021"
publish = false

[dependencies]
multiversx-sc = "=0.66.2"
multiversx-chain-core = "=0.23.1"
