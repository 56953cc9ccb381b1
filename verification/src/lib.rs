//! A verifiable vote tally: counts yes/no ballots for one proposal and binds
//! the exact ordered list of votes into a chained keccak-256 digest that any
//! party can recompute from the same inputs.

pub mod digest;
pub mod encoding;
pub mod tally;
pub mod theorems;
pub mod types;
pub mod words;
