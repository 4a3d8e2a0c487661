//! When an order book was last updated, and whether it may be traded on.
use vstd::prelude::*;

use crate::clock::{age, nanos_between, Nanos};

verus! {

/// Books older than this are left out of routes: thirty seconds.
pub const STALE_TTL: Nanos = 30_000_000_000;

/// What is recorded of an order book beside its levels.
#[derive(Debug, Clone, Copy, PartialEq, Eq)]
pub struct BookMeta {
    /// When the book was last updated.
    pub updated_at: Nanos,
    /// Whether it then had a level to trade on and was not crossed.
    pub healthy: bool,
}

impl BookMeta {
    /// The book was healthy and its last update is no older than `max_age`.
    pub open spec fn usable(self, max_age: Nanos, now: Nanos) -> bool {
        self.healthy && age(self.updated_at, now) <= max_age
    }

    /// Returns whether the book was healthy and its last update is no older than `max_age`.
    pub fn is_usable(&self, max_age: Nanos, now: Nanos) -> (usable: bool)
        ensures
            usable == self.usable(max_age, now),
    {
        self.healthy && nanos_between(self.updated_at, now) <= max_age
    }
}

} // verus!
