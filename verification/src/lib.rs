//! A small transaction-processing engine.
//!
//! An ordered stream of financial events (deposits, withdrawals, disputes,
//! resolutions, chargebacks) is routed to per-client accounts, each of which
//! applies its own events strictly in arrival order. Once the stream ends,
//! one final balance snapshot per client is produced.
//!
//! Monetary amounts are integer counts of minor currency units (for example,
//! cents), so all balance arithmetic is exact.

pub mod account;
pub mod engine;
pub mod message;
