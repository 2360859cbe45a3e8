//! Proof-of-Beneficial-Assignment: a matching engine that pairs transport
//! requests with courier offers, a per-slot proposal ledger, an escrow state
//! machine for each matched pair, and the decisions of the worker that binds
//! them together.

pub mod bids;
pub mod contract;
pub mod escrow;
pub mod market;
pub mod matching;
pub mod proposals;
pub mod solver;
pub mod worker;
