//! The state of the aggregator.
use vstd::prelude::*;

use crate::clock::Nanos;
use crate::freshness::BookMeta;
use crate::graph::{edges_of, GraphEdge};
use crate::metrics::Metrics;
use crate::orderbook::{BookView, OrderbookState};
use crate::tracker::{BookTracker, TrackerView};
use crate::types::{Address, Pair};

verus! {

/// How fresh and valid an order book is, for routing decisions.
#[derive(Debug, Clone, Copy, PartialEq, Eq)]
pub struct OrderbookHealth {
    /// When the book was last updated.
    pub last_updated: Nanos,
    /// Whether it then had a level to trade on and was not crossed.
    pub has_valid_spread: bool,
}

/// The health that a record tells of.
pub open spec fn health_of(meta: BookMeta) -> OrderbookHealth {
    OrderbookHealth { last_updated: meta.updated_at, has_valid_spread: meta.healthy }
}

/// The order books with their graph and health, and the counters.
pub struct AggregatorState {
    pub books: BookTracker,
    pub metrics: Metrics,
}

/// What an [`AggregatorState`] holds.
pub struct StateView {
    pub books: TrackerView,
    pub metrics: Metrics,
}

impl View for AggregatorState {
    type V = StateView;

    open spec fn view(&self) -> StateView {
        StateView { books: self.books@, metrics: self.metrics }
    }
}

impl StateView {
    /// No books, and all counters at zero.
    pub open spec fn is_fresh(self) -> bool {
        &&& self.books == TrackerView::empty(self.books.clock)
        &&& self.metrics == Metrics::zero()
    }

    /// After a book came in at `now`.
    pub open spec fn upserted(self, book: BookView, now: Nanos) -> StateView {
        StateView { books: self.books.upserted(book, now), ..self }
    }
}

impl Default for AggregatorState {
    fn default() -> (state: Self)
        ensures
            state@.is_fresh(),
    {
        AggregatorState { books: BookTracker::new(), metrics: Metrics::default() }
    }
}

impl AggregatorState {
    /// Creates a state without books. Its clock starts now.
    pub fn new() -> (state: Self)
        ensures
            state@.is_fresh(),
    {
        AggregatorState::default()
    }

    /// Takes in a book now, in place of any earlier one of its pair.
    pub fn upsert_orderbook(&mut self, book: OrderbookState)
        ensures
            exists|now: Nanos|
                {
                    &&& old(self)@.books.clock.shows(now)
                    &&& final(self)@ == #[trigger] old(self)@.upserted(book@, now)
                },
    {
        let now: Nanos = self.books.now();
        self.upsert_orderbook_at(book, now);
    }

    /// Takes in a book at `now`, in place of any earlier one of its pair.
    pub fn upsert_orderbook_at(&mut self, book: OrderbookState, now: Nanos)
        ensures
            final(self)@ == old(self)@.upserted(book@, now),
    {
        self.books.upsert_at(book, now);
    }

    /// Returns whether a book has a level to trade on and is not crossed. A book with levels on
    /// one side alone is fine.
    pub fn validate_orderbook(book: &OrderbookState) -> (valid: bool)
        ensures
            valid == book@.healthy(),
    {
        book.is_healthy()
    }

    /// Returns whether the book of a pair is there, healthy and now no older than `max_age`.
    pub fn is_pair_usable(&self, pair: &Pair, max_age: Nanos) -> (usable: bool)
        ensures
            exists|now: Nanos|
                {
                    &&& self@.books.clock.shows(now)
                    &&& usable == #[trigger] self@.books.usable(*pair, max_age, now)
                },
    {
        let now: Nanos = self.books.now();
        self.is_pair_usable_at(pair, max_age, now)
    }

    /// Returns whether the book of a pair is there, healthy and at `now` no older than
    /// `max_age`.
    pub fn is_pair_usable_at(&self, pair: &Pair, max_age: Nanos, now: Nanos) -> (usable: bool)
        ensures
            usable == self@.books.usable(*pair, max_age, now),
    {
        self.books.is_pair_usable_at(pair, max_age, now)
    }

    /// Returns whether any book trades the token.
    pub fn contains_token(&self, token: Address) -> (known: bool)
        ensures
            known == self@.books.graph.edges.contains_key(token),
    {
        self.books.contains_token(token)
    }

    /// Returns the edges that leave a token, in the order in which their pairs were first seen.
    pub fn neighbors(&self, token: Address) -> (edges: Vec<GraphEdge>)
        ensures
            edges@ == edges_of(self@.books.graph.edges, token),
    {
        self.books.neighbors(token)
    }

    /// Returns the book of a pair.
    pub fn get_orderbook(&self, pair: &Pair) -> (book: Option<OrderbookState>)
        ensures
            book is Some <==> self@.books.graph.books.contains_key(*pair),
            book matches Some(b) ==> b@ == self@.books.graph.books[*pair],
    {
        self.books.get_orderbook(pair)
    }

    /// Returns when the book of a pair was last updated and whether it is valid.
    pub fn get_health(&self, pair: &Pair) -> (health: Option<OrderbookHealth>)
        ensures
            health is Some <==> self@.books.metas.contains_key(*pair),
            health matches Some(h) ==> h == health_of(self@.books.metas[*pair]),
            health matches Some(h) ==> h.last_updated == self@.books.metas[*pair].updated_at,
            health matches Some(h) ==> h.has_valid_spread == self@.books.metas[*pair].healthy,
    {
        match self.books.get_meta(pair) {
            Some(meta) => Some(
                OrderbookHealth { last_updated: meta.updated_at, has_valid_spread: meta.healthy },
            ),
            None => None,
        }
    }

    /// Returns the number of books.
    pub fn orderbook_count(&mut self) -> (count: usize)
        ensures
            count == old(self)@.books.graph.books.dom().len(),
            final(self)@ == old(self)@,
    {
        self.books.orderbook_count()
    }

    /// Returns the number of tokens that the books trade.
    pub fn token_count(&mut self) -> (count: usize)
        ensures
            count == old(self)@.books.graph.edges.dom().len(),
            final(self)@ == old(self)@,
    {
        self.books.token_count()
    }
}

} // verus!
