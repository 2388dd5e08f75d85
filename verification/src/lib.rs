//! A single-owner Raft consensus core: term and vote bookkeeping, election
//! campaigns, the append/commit rules and cluster membership growth.
//!
//! Every transition is a method on a state value that the caller owns
//! exclusively, so the surrounding program decides how transitions are
//! serialized (a lock, or one task that drains a queue of events). Network
//! transport, clocks and randomness stay outside: they hand in plain values
//! and carry plain values away.

pub mod address;
pub mod applied;
pub mod consensus;
pub mod digits;
pub mod election;
pub mod join;
pub mod laws;
pub mod log;
pub mod membership;
pub mod message;
pub mod model;
pub mod node;
pub mod notation;
pub mod reading;
pub mod timer;
