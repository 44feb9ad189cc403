//! Unit-safe currency conversion and brokerage trade reconciliation.
//!
//! The crate has two cores: a conversion engine that applies day-resolved
//! exchange rates to dated transactions, with amounts kept as integer minor
//! units so that different currencies can never be mixed silently; and a
//! reconciler that groups a flat list of broker records into sale events,
//! each owning the closed lots that realized it.

pub mod conversions;
pub mod currency;
pub mod date;
pub mod decimal;
pub mod text;
pub mod trades;
