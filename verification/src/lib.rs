//! Verified core of a community ownership-transfer workflow.
//!
//! A community owns an ordered roster of moderators; the member at rank 0
//! is its de-facto owner.  Transferring ownership means: authorize the
//! requester against the current top moderator and the site admin set,
//! promote the target moderator to rank 0 while keeping everyone else's
//! relative order, replace the persisted roster atomically, append an
//! audit record, and return a refreshed projection of the community.

pub mod audit;
pub mod authorize;
pub mod errors;
pub mod roster;
pub mod store;
pub mod transfer;
