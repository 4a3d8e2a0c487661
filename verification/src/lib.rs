//! A decentralised-exchange aggregator: it keeps one order book per token pair,
//! matches orders against the books, and finds the route of at most three trades
//! that turns one token into the most of another.

pub mod clock;
pub mod dex;
pub mod duration;
pub mod freshness;
pub mod graph;
pub mod health;
pub mod matching;
pub mod metrics;
pub mod orderbook;
pub mod reading;
pub mod routing;
pub mod store;
pub mod takehome;
pub mod text;
pub mod tracker;
pub mod types;
