//! A single-threaded payments engine with verified business rules.
//!
//! Transactions (deposits, withdrawals, disputes, resolves, chargebacks) are
//! applied in order to per-client accounts. Every rule of the engine, the
//! dispute lifecycle of a deposit, and the conversion of parsed CSV rows into
//! transactions carry contracts checked by Verus.

pub mod amount;
pub mod model;
pub mod store;
pub mod engine;
pub mod io;
pub mod laws;
