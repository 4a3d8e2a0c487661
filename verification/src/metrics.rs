//! Counters of what the aggregator has done. Each wraps around.
use vstd::prelude::*;

verus! {

/// A counter's value after `n` more events.
pub open spec fn counted(counter: u64, n: nat) -> u64 {
    ((counter + n) % 0x1_0000_0000_0000_0000) as u64
}

/// Simple counters.
#[derive(Debug, Clone, Copy, PartialEq, Eq)]
pub struct Metrics {
    /// Order book updates taken in.
    pub events_total: u64,
    /// Order books turned away because they were crossed or empty.
    pub events_invalid: u64,
    /// Swap requests received.
    pub requests_total: u64,
    /// Requests that the circuit breaker refused, or that no acceptable route was found for.
    pub requests_failed: u64,
    /// Requests turned away by the rate limit.
    pub requests_rate_limited: u64,
    /// Routing snapshots taken.
    pub snapshots_taken: u64,
    /// Times that a stale or unhealthy book was passed over while routing.
    pub stale_or_unhealthy_skipped: u64,
}

impl Metrics {
    /// All counters at zero.
    pub open spec fn zero() -> Metrics {
        Metrics {
            events_total: 0,
            events_invalid: 0,
            requests_total: 0,
            requests_failed: 0,
            requests_rate_limited: 0,
            snapshots_taken: 0,
            stale_or_unhealthy_skipped: 0,
        }
    }

    /// The counters after a routing snapshot was taken and a search on it passed over
    /// `skipped` books.
    pub open spec fn routed(self, skipped: nat) -> Metrics {
        Metrics {
            snapshots_taken: counted(self.snapshots_taken, 1),
            stale_or_unhealthy_skipped: counted(self.stale_or_unhealthy_skipped, skipped),
            ..self
        }
    }
}

impl Default for Metrics {
    fn default() -> (metrics: Self)
        ensures
            metrics == Metrics::zero(),
    {
        Metrics {
            events_total: 0,
            events_invalid: 0,
            requests_total: 0,
            requests_failed: 0,
            requests_rate_limited: 0,
            snapshots_taken: 0,
            stale_or_unhealthy_skipped: 0,
        }
    }
}

impl Metrics {
    /// Counts a routing snapshot and the books that a search on it passed over.
    pub(crate) fn count_search(&mut self, skipped: u64, Ghost(n): Ghost<nat>)
        requires
            skipped == counted(0, n),
        ensures
            *final(self) == old(self).routed(n),
    {
        proof {
            lemma_counted_twice(self.stale_or_unhealthy_skipped, n, 0);
        }
        self.snapshots_taken = count(self.snapshots_taken, 1);
        self.stale_or_unhealthy_skipped = count(self.stale_or_unhealthy_skipped, skipped);
    }
}

/// Adds `n` to a counter.
pub(crate) fn count(counter: u64, n: u64) -> (sum: u64)
    ensures
        sum == counted(counter, n as nat),
{
    counter.wrapping_add(n)
}

/// Counting in two steps is counting once.
pub(crate) proof fn lemma_counted_twice(counter: u64, n: nat, m: nat)
    ensures
        counted(counted(counter, n), m) == counted(counter, n + m),
        counted(counter, counted(0, n) as nat) == counted(counter, n),
{
}

/// A counter counts on by as many as there are, as long as it has room.
pub proof fn law_counting(counter: u64, n: nat)
    requires
        counter + n <= u64::MAX,
    ensures
        counted(counter, n) == counter + n,
{
}

} // verus!
