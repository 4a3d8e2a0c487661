//! Taking in order book updates.
use vstd::prelude::*;

use crate::clock::Nanos;
use crate::dex::state::{AggregatorState, StateView};
use crate::graph::{buying_edge, edges_of, selling_edge};
use crate::metrics::{count, counted, Metrics};
use crate::orderbook::{BookView, OrderbookState};
use crate::tracker::{
    law_upsert_keeps_the_tracker_consistent, law_upsert_puts_the_book_in_place,
};
use crate::types::Pair;

verus! {

/// Why an update was turned away.
#[derive(Debug)]
pub enum Error {
    InvalidOrderbook(String),
}

/// Takes in order book updates. Books that are crossed or empty are turned away and counted.
pub struct DexEventProcessor<'a> {
    pub state: &'a mut AggregatorState,
}

impl StateView {
    /// After an update arrived at `now`: a healthy book is taken in, any other turned away.
    pub open spec fn ingested(self, book: BookView, now: Nanos) -> StateView {
        if book.healthy() {
            StateView {
                metrics: Metrics {
                    events_total: counted(self.metrics.events_total, 1),
                    ..self.metrics
                },
                ..self.upserted(book, now)
            }
        } else {
            StateView {
                metrics: Metrics {
                    events_invalid: counted(self.metrics.events_invalid, 1),
                    ..self.metrics
                },
                ..self
            }
        }
    }
}

/// A book is turned away exactly when it is not healthy, with the message that says so.
pub open spec fn ingestion_result(book: BookView, result: Result<(), Error>) -> bool {
    match result {
        Ok(_) => book.healthy(),
        Err(Error::InvalidOrderbook(message)) => !book.healthy() && message@
            == "crossed/empty book"@,
    }
}

impl<'a> DexEventProcessor<'a> {
    /// Creates a processor that updates the given state.
    pub fn new(state: &'a mut AggregatorState) -> (processor: Self)
        ensures
            *processor.state == *old(state),
            *final(processor.state) == *final(state),
    {
        DexEventProcessor { state }
    }

    /// Takes in an update that arrives now.
    pub fn process_orderbook(&mut self, orderbook: OrderbookState) -> (result: Result<(), Error>)
        ensures
            ingestion_result(orderbook@, result),
            result is Ok <==> orderbook@.healthy(),
            result matches Err(Error::InvalidOrderbook(message)) ==> message@
                == "crossed/empty book"@,
            exists|now: Nanos|
                {
                    &&& old(self).state@.books.clock.shows(now)
                    &&& final(self).state@ == #[trigger] old(self).state@.ingested(orderbook@, now)
                },
            *final(final(self).state) == *final(old(self).state),
    {
        let now: Nanos = self.state.now();
        self.process_orderbook_at(orderbook, now)
    }

    /// Takes in an update that arrives at `now`.
    pub fn process_orderbook_at(&mut self, orderbook: OrderbookState, now: Nanos) -> (result: Result<
        (),
        Error,
    >)
        ensures
            ingestion_result(orderbook@, result),
            result is Ok <==> orderbook@.healthy(),
            result matches Err(Error::InvalidOrderbook(message)) ==> message@
                == "crossed/empty book"@,
            final(self).state@ == old(self).state@.ingested(orderbook@, now),
            *final(final(self).state) == *final(old(self).state),
    {
        if !AggregatorState::validate_orderbook(&orderbook) {
            self.state.metrics.events_invalid = count(self.state.metrics.events_invalid, 1);
            return Err(Error::InvalidOrderbook("crossed/empty book".to_string()));
        }
        self.state.upsert_orderbook_at(orderbook, now);
        self.state.metrics.events_total = count(self.state.metrics.events_total, 1);
        Ok(())
    }
}

/// Updates keep the state consistent, and a state whose books are all healthy keeps them so:
/// whatever is crossed or empty never gets in.
pub proof fn law_only_healthy_books_get_in(state: StateView, book: BookView, now: Nanos)
    requires
        state.books.consistent(),
        forall|pair: (u64, u64)| #[trigger]
            state.books.graph.books.contains_key(pair) ==> state.books.graph.books[pair].healthy(),
    ensures
        state.ingested(book, now).books.consistent(),
        forall|pair: (u64, u64)| #[trigger]
            state.ingested(book, now).books.graph.books.contains_key(pair) ==> state.ingested(
                book,
                now,
            ).books.graph.books[pair].healthy(),
        !book.healthy() ==> state.ingested(book, now).books == state.books,
        state.ingested(book, now).breaker == state.breaker,
{
    law_upsert_keeps_the_tracker_consistent(state.books, book, now);
}

/// A healthy book is in place once it has been processed, with the time at which it came, whether
/// or not its pair had a book before; both its edges are there, the other pairs keep their books
/// and records, and the update is counted.
pub proof fn law_healthy_book_takes_its_place(
    state: StateView,
    book: BookView,
    now: Nanos,
    other: Pair,
)
    requires
        state.books.graph.consistent(),
        book.healthy(),
    ensures
        ({
            let after = state.ingested(book, now);
            let pair = (book.base_token, book.quote_token);
            &&& after.books.graph.books.contains_key(pair)
            &&& after.books.graph.books[pair] == book
            &&& after.books.metas.contains_key(pair)
            &&& after.books.metas[pair].updated_at == now
            &&& after.books.metas[pair].healthy
            &&& after.books.graph.edges.contains_key(book.base_token)
            &&& after.books.graph.edges.contains_key(book.quote_token)
            &&& other != pair ==> {
                &&& after.books.graph.books.contains_key(other)
                    == state.books.graph.books.contains_key(other)
                &&& after.books.graph.books[other] == state.books.graph.books[other]
                &&& after.books.metas.contains_key(other) == state.books.metas.contains_key(other)
                &&& after.books.metas[other] == state.books.metas[other]
            }
            &&& state.metrics.events_total < u64::MAX ==> after.metrics == (Metrics {
                events_total: (state.metrics.events_total + 1) as u64,
                ..state.metrics
            })
            &&& after.breaker == state.breaker
        }),
{
    law_upsert_puts_the_book_in_place(state.books, book, now, other);
    let pair = book.pair();
    if state.books.graph.books.contains_key(pair) {
        assert(edges_of(state.books.graph.edges, pair.0).contains(selling_edge(pair)));
        assert(edges_of(state.books.graph.edges, pair.1).contains(buying_edge(pair)));
    }
}

/// A book that is turned away leaves no trace but a count.
pub proof fn law_unhealthy_book_leaves_no_trace(state: StateView, book: BookView, now: Nanos)
    requires
        !book.healthy(),
        state.metrics.events_invalid < u64::MAX,
    ensures
        state.ingested(book, now) == (StateView {
            metrics: Metrics {
                events_invalid: (state.metrics.events_invalid + 1) as u64,
                ..state.metrics
            },
            ..state
        }),
{
}

} // verus!
