//! Idempotency coordination: claim a logical operation once, record its
//! outcome, and let every later duplicate observe the claim or the outcome
//! instead of running the operation again.

pub mod config;
pub mod database;
pub mod error;
pub mod key;
pub mod memory;
pub mod model;
pub mod record;
