//! The state of the aggregator.
use vstd::prelude::*;

use crate::clock::{Clock, Nanos};
use crate::dex::circuit_breaker::{
    BreakerView, CircuitBreaker, CircuitState, DEFAULT_FAILURE_THRESHOLD, DEFAULT_RECOVERY_TIMEOUT,
};
use crate::freshness::BookMeta;
use crate::graph::{edges_of, GraphEdge};
use crate::metrics::Metrics;
use crate::orderbook::{BookView, OrderbookState};
use crate::tracker::{BookTracker, TrackerView};
use crate::types::{Address, Pair};

verus! {

/// The order books with their graph and health, the counters and the circuit breaker. The books
/// are timed by their tracker's clock, the breaker by its own.
pub struct AggregatorState {
    pub books: BookTracker,
    pub metrics: Metrics,
    pub circuit_breaker: CircuitBreaker,
}

/// What an [`AggregatorState`] holds.
pub struct StateView {
    pub books: TrackerView,
    pub metrics: Metrics,
    pub breaker: BreakerView,
}

impl View for AggregatorState {
    type V = StateView;

    open spec fn view(&self) -> StateView {
        StateView {
            books: self.books@,
            metrics: self.metrics,
            breaker: self.circuit_breaker@,
        }
    }
}

impl StateView {
    /// No books, all counters at zero, and a breaker that has seen nothing.
    pub open spec fn is_fresh(self) -> bool {
        &&& self.books == TrackerView::empty(self.books.clock)
        &&& self.metrics == Metrics::zero()
        &&& self.breaker.is_fresh(DEFAULT_FAILURE_THRESHOLD, DEFAULT_RECOVERY_TIMEOUT)
        &&& self.breaker.changed_at == 0
    }

    /// The clock of the books and that of the breaker.
    pub open spec fn clocks(self) -> (Clock, Clock) {
        (self.books.clock, self.breaker.clock)
    }

    /// After a book came in at `now`.
    pub open spec fn upserted(self, book: BookView, now: Nanos) -> StateView {
        StateView { books: self.books.upserted(book, now), ..self }
    }
}

impl Default for AggregatorState {
    fn default() -> (state: Self)
        ensures
            state@.is_fresh(),
            state@.books.graph.books.dom().is_empty(),
            state@.books.graph.edges.dom().is_empty(),
            state@.books.metas.dom().is_empty(),
            state@.breaker.state == CircuitState::Closed,
            state@.breaker.failures == 0,
            state@.breaker.threshold == 5,
            state@.breaker.timeout == 10_000_000_000,
            state@.metrics.requests_total == 0 && state@.metrics.requests_failed == 0,
    {
        AggregatorState {
            books: BookTracker::new(),
            metrics: Metrics::default(),
            circuit_breaker: CircuitBreaker::default(),
        }
    }
}

impl AggregatorState {
    /// Creates a state without books. Its clocks start now.
    pub fn new() -> (state: Self)
        ensures
            state@.is_fresh(),
            state@.books.graph.books.dom().is_empty(),
            state@.books.graph.edges.dom().is_empty(),
            state@.books.metas.dom().is_empty(),
            state@.breaker.state == CircuitState::Closed,
            state@.breaker.failures == 0,
            state@.breaker.threshold == 5,
            state@.breaker.timeout == 10_000_000_000,
            state@.metrics.requests_total == 0 && state@.metrics.requests_failed == 0,
    {
        AggregatorState::default()
    }

    /// Returns the time on the books' clock.
    pub(crate) fn now(&self) -> (now: Nanos)
        ensures
            self@.books.clock.shows(now),
    {
        self.books.now()
    }

    /// Takes in a book now, in place of any earlier one of its pair.
    pub fn upsert_orderbook(&mut self, book: OrderbookState)
        ensures
            exists|now: Nanos|
                {
                    &&& old(self)@.books.clock.shows(now)
                    &&& final(self)@ == #[trigger] old(self)@.upserted(book@, now)
                },
    {
        let now: Nanos = self.now();
        self.upsert_orderbook_at(book, now);
    }

    /// Takes in a book at `now`, in place of any earlier one of its pair.
    pub fn upsert_orderbook_at(&mut self, book: OrderbookState, now: Nanos)
        ensures
            final(self)@ == old(self)@.upserted(book@, now),
    {
        self.books.upsert_at(book, now);
    }

    /// Returns whether a book has a level to trade on and is not crossed. A book with levels on
    /// one side alone is fine.
    pub fn validate_orderbook(book: &OrderbookState) -> (valid: bool)
        ensures
            valid == book@.healthy(),
    {
        book.is_healthy()
    }

    /// Returns whether the book of a pair is there, healthy and now no older than `max_age`.
    pub fn is_pair_usable(&self, pair: &Pair, max_age: Nanos) -> (usable: bool)
        ensures
            exists|now: Nanos|
                {
                    &&& self@.books.clock.shows(now)
                    &&& usable == #[trigger] self@.books.usable(*pair, max_age, now)
                },
    {
        let now: Nanos = self.now();
        self.is_pair_usable_at(pair, max_age, now)
    }

    /// Returns whether the book of a pair is there, healthy and at `now` no older than
    /// `max_age`.
    pub fn is_pair_usable_at(&self, pair: &Pair, max_age: Nanos, now: Nanos) -> (usable: bool)
        ensures
            usable == self@.books.usable(*pair, max_age, now),
    {
        self.books.is_pair_usable_at(pair, max_age, now)
    }

    /// Returns whether any book trades the token.
    pub fn contains_token(&self, token: Address) -> (known: bool)
        ensures
            known == self@.books.graph.edges.contains_key(token),
    {
        self.books.contains_token(token)
    }

    /// Returns the edges that leave a token, in the order in which their pairs were first seen.
    pub fn neighbors(&self, token: Address) -> (edges: Vec<GraphEdge>)
        ensures
            edges@ == edges_of(self@.books.graph.edges, token),
    {
        self.books.neighbors(token)
    }

    /// Returns the book of a pair.
    pub fn get_orderbook(&self, pair: &Pair) -> (book: Option<OrderbookState>)
        ensures
            book is Some <==> self@.books.graph.books.contains_key(*pair),
            book matches Some(b) ==> b@ == self@.books.graph.books[*pair],
    {
        self.books.get_orderbook(pair)
    }

    /// Returns when the book of a pair was last updated and whether it is healthy.
    pub fn get_meta(&self, pair: &Pair) -> (meta: Option<BookMeta>)
        ensures
            meta is Some <==> self@.books.metas.contains_key(*pair),
            meta matches Some(m) ==> m == self@.books.metas[*pair],
    {
        self.books.get_meta(pair)
    }

    /// Returns the number of books.
    pub fn orderbook_count(&mut self) -> (count: usize)
        ensures
            count == old(self)@.books.graph.books.dom().len(),
            final(self)@ == old(self)@,
    {
        self.books.orderbook_count()
    }

    /// Returns the number of tokens that the books trade.
    pub fn token_count(&mut self) -> (count: usize)
        ensures
            count == old(self)@.books.graph.edges.dom().len(),
            final(self)@ == old(self)@,
    {
        self.books.token_count()
    }
}

} // verus!
