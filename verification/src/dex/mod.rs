//! The aggregator with health and staleness tracking, a circuit breaker and counters.
pub mod circuit_breaker;
pub mod event_processor;
pub mod request_processor;
pub mod routing;
pub mod state;
