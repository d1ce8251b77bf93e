//! An exchange's balance ledger: per-user, per-asset balances held as exact
//! decimals in two states, and the controller that applies each business event at
//! most once.

pub mod asset;
pub mod balance;
pub mod config;
pub mod controller;
pub mod decimal;
pub mod dedup;
pub mod laws;
pub mod message;
pub mod models;
pub mod status;
