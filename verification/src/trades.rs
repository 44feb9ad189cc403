//! Broker trade records and their reconciliation into sale events.

pub mod input;
pub mod sale;
