//! A versioned schema migration engine.
//!
//! Units of structural change are ordered by name. A ledger records which of
//! them a store has applied. The planner computes what a run must apply or
//! revert, and a [`runner::Migrator`] hands the steps out one at a time and
//! keeps the ledger in step with what the store committed. Executing the
//! statements against a store is left to the caller.

pub mod error;
pub mod executor;
pub mod ledger;
pub mod name;
pub mod planner;
pub mod runner;
pub mod unit;
