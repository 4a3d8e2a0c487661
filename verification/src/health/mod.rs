//! The aggregator with health and staleness tracking and counters, without a circuit breaker.
pub mod routing;
pub mod state;
