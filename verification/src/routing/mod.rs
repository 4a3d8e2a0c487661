//! Finding the route that yields the most: what a best route is, the snapshot of the market
//! that a search runs on, and the search.
pub mod chains;
pub mod laws;
pub mod query;
pub mod search;
pub mod snapshot;
