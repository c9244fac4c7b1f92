//! Validation and state-advancement core of a decentralized benchmarking
//! protocol.
//!
//! Participants submit optimization algorithms and computational proof of
//! solved work. Submissions pass through deterministic guard pipelines
//! (eligibility, duplicate-transaction and payment checks) into a pending
//! mempool, and are periodically promoted into ordered blocks that every
//! replaying node must reproduce identically. Confirmed proofs can later be
//! challenged by fraud allegations that, if substantiated by independent
//! re-verification, retroactively invalidate them.
//!
//! The crate also carries the pluggable solver collection: pure functions
//! that compute candidate solutions for challenge instances (knapsack
//! packing, vehicle routing). Solvers are swappable collaborators; the
//! protocol core only relies on their shared interface, an optional
//! `Solution` per challenge instance.

pub mod advance;
pub mod context;
pub mod error;
pub mod knapsack;
pub mod model;
pub mod ranking;
pub mod submit_algorithm;
pub mod vehicle_routing;
pub mod verification;
