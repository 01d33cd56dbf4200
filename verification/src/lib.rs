//! A reputation-weighted voting ledger.
//!
//! An admin-curated set of voters cast weighted votes on one another. Every
//! voter's reputation is kept twice, in a lookup table and in an ordered
//! mirror list, and the ledger keeps the two in agreement. The weight of a
//! vote follows from the caller's share of all the power awarded so far.

pub mod account;
pub mod account_map;
pub mod laws;
pub mod mirror;
pub mod parts;
pub mod round;
pub mod state;
pub mod store;
pub mod types;
pub mod voting;
pub mod votinground;
pub mod votingtraits;
pub mod weight;
