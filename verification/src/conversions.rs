//! The currency conversion engine: units, money, exchange rates, the daily
//! rate table, transactions, and the per-row conversion pipeline.

pub mod currency;
pub mod daily_exchange_rates;
pub mod exchange_rate;
pub mod pipeline;
pub mod transaction;
