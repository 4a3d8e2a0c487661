//! The plain aggregator: order books, their graph and routing, nothing more.
pub mod event_processor;
pub mod request_processor;
pub mod routing;
pub mod state;
