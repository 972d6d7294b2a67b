//! Coordinating logic of a proof-of-work mining pool.
//!
//! - `contribute`: admission of a member's solution (signature, minimum
//!   difficulty, digest) and its score `2^difficulty`.
//! - `aggregator`: the round state, first contribution per member, the
//!   running winner, the attestation, and rotation to the next challenge.
//! - `attest`: the line serialization that the attestation hashes.
//! - `bus`: choice of the reward bus to submit to.
//! - `rewards`: apportioning of base and boost rewards among miners, stakers
//!   and the operator.
//! - `address`: member account addresses.
//! - `driver`: the round driver's decisions (cutoff, reset, rotation retries).
//! - `trusted`: the calls into outside crates and what is relied on of them.

pub mod address;
pub mod aggregator;
pub mod attest;
pub mod bus;
pub mod contribute;
pub mod driver;
pub mod model;
pub mod rewards;
pub mod trusted;
pub mod utils;
