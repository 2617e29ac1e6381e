//! Verified core of a Polymarket market-data indexer and arbitrage scout.
//!
//! Prices and sizes are kept as fixed-point integers with six decimals
//! (`PriceU32`, `SizeU32`); order books, market/event bookkeeping and the
//! binary-market arbitrage arithmetic are proved against mathematical models.
pub mod fixed;
pub mod levels;
pub mod orderbook;
pub mod constants;
pub mod snapshot;
pub mod strmap;
pub mod adapters;
pub mod text;
pub mod error;
pub mod market;
pub mod event;
pub mod event_manager;
pub mod indexer;
pub mod messages;
pub mod orderbook_manager;
pub mod manager;
pub mod gamma;
pub mod ws;
pub mod scout;
pub mod clob;
