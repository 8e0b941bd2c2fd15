//! Prepaid recurring subscriptions settled on a ledger, and the off-ledger side that
//! mirrors the active subscriptions from the ledger's events and routes notifications
//! to each subscriber's channel.
pub mod account;
pub mod account_map;
pub mod billing;
pub mod cli;
pub mod contract;
pub mod laws;
pub mod ledger;
pub mod mirror;
pub mod notify;
