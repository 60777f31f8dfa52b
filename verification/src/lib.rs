//! A backtesting kernel: price candles are replayed, in the order in which
//! they happened, through a set of trading models, and the orders that the
//! models place are matched against each candle.
//!
//! The parts, leaves first: the ledger records ([`order`], [`execution`],
//! [`signal`], [`ohlcv`]), the order matching engine
//! ([`market_simulation`]), the [`portfolio`] of active and closed orders,
//! the strategy lifecycle manager ([`strategy`]) and the simulation loop
//! ([`backtester`]). [`util`] reads the fields of candle records and pairs
//! the closed orders for reports.
//!
//! Points in time are [`timestamp::Timestamp`]s, prices are whole numbers of
//! price increments ([`symbol::Price`]). Each type with text in it has a
//! mathematical value, its view, and the contracts are stated over these.

pub mod direction;
pub mod timestamp;
pub mod symbol;
pub mod execution;
pub mod order;
pub mod signal;
pub mod ohlcv;
pub mod market_simulation;
pub mod portfolio;
pub mod strategy;
pub mod model;
pub mod backtester;
pub mod util;
