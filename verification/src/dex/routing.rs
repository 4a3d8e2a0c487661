//! Routing over the books that are healthy and not stale.
use vstd::prelude::*;

use crate::clock::Nanos;
use crate::dex::state::{AggregatorState, StateView};
use crate::freshness::BookMeta;
use crate::metrics::{counted, Metrics};
use crate::orderbook::BookView;
use crate::routing::query::{runs_on, RouteQuery};
use crate::tracker::law_upsert_puts_the_book_in_place;
use crate::types::{Address, Pair, Quantity, Swap};

verus! {

impl StateView {
    /// After a search for an answer to `query`.
    pub open spec fn searched(self, query: RouteQuery) -> StateView {
        StateView { metrics: self.metrics.routed(query.skips(Seq::empty())), ..self }
    }
}

/// Finds the route of at most three trades that turns an amount of one token into the most of
/// another, over books that are healthy and at most thirty seconds old when the search looks at
/// them. Returns `None` where there is no route.
pub fn find_best_route(
    state: &mut AggregatorState,
    input_token: Address,
    output_token: Address,
    input_amount: Quantity,
) -> (route: Option<Vec<Swap>>)
    ensures
        exists|moment: spec_fn(Seq<int>) -> Nanos|
            {
                let query = #[trigger] old(state)@.books.query_during(
                    input_token,
                    output_token,
                    input_amount,
                    moment,
                );
                &&& runs_on(moment, old(state)@.books.clock)
                &&& query.is_answered_by(route)
                &&& match route {
                    Some(trades) => query.best() == Some(trades@),
                    None => query.best() is None,
                }
                &&& final(state)@ == old(state)@.searched(query)
            },
{
    let (route, skipped) = state.books.best_route(input_token, output_token, input_amount);
    let ghost moment = choose|moment: spec_fn(Seq<int>) -> Nanos|
        {
            let query = #[trigger] state@.books.query_during(
                input_token,
                output_token,
                input_amount,
                moment,
            );
            &&& runs_on(moment, state@.books.clock)
            &&& query.is_answered_by(route)
            &&& skipped == counted(0, query.skips(Seq::empty()))
        };
    let ghost query = state@.books.query_during(input_token, output_token, input_amount, moment);
    state.metrics.count_search(skipped, Ghost(query.skips(Seq::empty())));
    assert(state@ == old(state)@.searched(query));
    route
}

/// Finds the best route, as [`find_best_route`] does, over books that are healthy and at most
/// thirty seconds old at `now`.
pub fn find_best_route_at(
    state: &mut AggregatorState,
    input_token: Address,
    output_token: Address,
    input_amount: Quantity,
    now: Nanos,
) -> (route: Option<Vec<Swap>>)
    ensures
        ({
            let query = old(state)@.books.query(input_token, output_token, input_amount, now);
            &&& query.is_answered_by(route)
            &&& match route {
                Some(trades) => query.best() == Some(trades@),
                None => query.best() is None,
            }
            &&& final(state)@ == old(state)@.searched(query)
        }),
{
    let ghost query = state@.books.query(input_token, output_token, input_amount, now);
    let (route, skipped) = state.books.best_route_at(input_token, output_token, input_amount, now);
    state.metrics.count_search(skipped, Ghost(query.skips(Seq::empty())));
    route
}

/// What a search changes: one more snapshot is counted, and each time that a book was passed over.
pub proof fn law_search_is_counted(state: StateView, query: RouteQuery)
    ensures
        ({
            let skips = query.skips(Seq::empty());
            let after = state.searched(query);
            &&& after.books == state.books
            &&& after.breaker == state.breaker
            &&& state.metrics.snapshots_taken < u64::MAX
                && state.metrics.stale_or_unhealthy_skipped + skips <= u64::MAX ==> after.metrics
                == (Metrics {
                snapshots_taken: (state.metrics.snapshots_taken + 1) as u64,
                stale_or_unhealthy_skipped: (state.metrics.stale_or_unhealthy_skipped
                    + skips) as u64,
                ..state.metrics
            })
        }),
{
}

/// A book that comes in takes the place of the earlier one of its pair, with its time, and leaves
/// the other pairs and the counters alone.
pub proof fn law_upsert_changes_one_pair(state: StateView, book: BookView, now: Nanos, other: Pair)
    ensures
        ({
            let after = state.upserted(book, now);
            let pair = (book.base_token, book.quote_token);
            &&& after.books.graph.books.contains_key(pair)
            &&& after.books.graph.books[pair] == book
            &&& after.books.metas[pair] == (BookMeta { updated_at: now, healthy: book.healthy() })
            &&& after.books.metas.contains_key(pair)
            &&& other != pair ==> {
                &&& after.books.graph.books.contains_key(other)
                    == state.books.graph.books.contains_key(other)
                &&& after.books.graph.books[other] == state.books.graph.books[other]
                &&& after.books.metas.contains_key(other) == state.books.metas.contains_key(other)
                &&& after.books.metas[other] == state.books.metas[other]
            }
            &&& after.metrics == state.metrics
            &&& after.breaker == state.breaker
        }),
{
    law_upsert_puts_the_book_in_place(state.books, book, now, other);
}

} // verus!
