[package]
name = "voting_tally"
version = "0.1.0"
edition = "2021"
publish = false

[dependencies]
alloy-primitives = "*"

[dev-dependencies]
alloy-sol-types = "*"
