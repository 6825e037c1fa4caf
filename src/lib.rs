//! A claim-drop engine: a single reward campaign with a composite vesting
//! schedule, per-recipient allocations and per-slot claim records, with every
//! mutation gated by an owner / operator / blacklist access lattice.
//!
//! The host (storage, bank queries, address validation, the clock) is kept
//! outside: each handler takes the values it would have read and returns the
//! transfer instructions it wants executed.

pub mod types;
pub mod math;
pub mod schedule;
pub mod calculator;
pub mod address_map;
pub mod validate;
pub mod ledger;
pub mod commands;
pub mod claim;
pub mod laws;
