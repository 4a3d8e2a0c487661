//! The order books together with the records of when each was last updated.
use vstd::prelude::*;

use crate::clock::{age, Clock, Nanos, Watch};
use crate::freshness::{BookMeta, STALE_TTL};
use crate::graph::{
    edges_of, law_upsert_keeps_the_graph_consistent, GraphEdge, GraphView, TokenGraph,
};
use crate::metrics::counted;
use crate::orderbook::{BookView, OrderbookState};
use crate::routing::chains::{
    all_told, can_be_made, is_best_trading, is_trading, law_best_trading_is_found,
    law_found_route_is_the_best_trading, law_no_trading_is_missed, open_at, Trading,
};
use crate::routing::laws::law_same_usable_books_give_the_same_route;
use crate::routing::query::{
    asked, lemma_same_places, runs_from, runs_on, MarketView, RouteQuery,
};
use crate::routing::search::{goes_on, goes_on_from_time, search};
use crate::routing::snapshot::RoutingSnapshot;
use crate::store::{metas_in, new_metas, put_meta, read_meta};
use crate::types::{Address, Pair, Quantity, Swap};

verus! {

/// What a [`BookTracker`] holds.
#[verifier::ext_equal]
pub struct TrackerView {
    pub graph: GraphView,
    pub metas: Map<Pair, BookMeta>,
    /// The clock that the times of the records were read on.
    pub clock: Clock,
}

impl TrackerView {
    /// No books yet, to be timed by the clock.
    pub open spec fn empty(clock: Clock) -> TrackerView {
        TrackerView { graph: GraphView::empty(), metas: Map::empty(), clock }
    }

    /// After a book came in at `now`: the graph has it, and its record says when it came and
    /// whether it is healthy. The clock goes on.
    pub open spec fn upserted(self, book: BookView, now: Nanos) -> TrackerView {
        TrackerView {
            graph: self.graph.upserted(book),
            metas: self.metas.insert(
                book.pair(),
                BookMeta { updated_at: now, healthy: book.healthy() },
            ),
            ..self
        }
    }

    /// The graph is consistent, and every book has a record that tells its health.
    pub open spec fn consistent(self) -> bool {
        &&& self.graph.consistent()
        &&& self.metas.dom() == self.graph.books.dom()
        &&& forall|pair: Pair| #[trigger]
            self.graph.books.contains_key(pair) ==> self.metas[pair].healthy
                == self.graph.books[pair].healthy()
    }

    /// The book of a pair is there, healthy and no older than `max_age`.
    pub open spec fn usable(self, pair: Pair, max_age: Nanos, now: Nanos) -> bool {
        self.metas.contains_key(pair) && self.metas[pair].usable(max_age, now)
    }

    /// The question of how to route an amount, with the times at which the edges are looked at.
    pub open spec fn query_during(
        self,
        input_token: Address,
        output_token: Address,
        input_amount: Quantity,
        moment: spec_fn(Seq<int>) -> Nanos,
    ) -> RouteQuery {
        asked(
            MarketView { graph: self.graph, metas: Some(self.metas) },
            input_token,
            output_token,
            input_amount,
            moment,
        )
    }

    /// The question of how to route an amount at `now`.
    pub open spec fn query(
        self,
        input_token: Address,
        output_token: Address,
        input_amount: Quantity,
        now: Nanos,
    ) -> RouteQuery {
        self.query_during(input_token, output_token, input_amount, |steps: Seq<int>| now)
    }
}

/// The order books, the graph of tokens that they connect, and when each was last updated, on
/// the tracker's own clock.
pub struct BookTracker {
    graph: TokenGraph,
    metas: scc::HashMap<Pair, BookMeta>,
    clock: Clock,
}

impl View for BookTracker {
    type V = TrackerView;

    closed spec fn view(&self) -> TrackerView {
        TrackerView { graph: self.graph@, metas: metas_in(self.metas), clock: self.clock }
    }
}

impl BookTracker {
    /// Creates a tracker without books. Its clock starts now.
    pub fn new() -> (tracker: Self)
        ensures
            tracker@ == TrackerView::empty(tracker@.clock),
    {
        BookTracker { graph: TokenGraph::new(), metas: new_metas(), clock: Clock::start() }
    }

    /// Returns the time on the tracker's clock.
    pub(crate) fn now(&self) -> (now: Nanos)
        ensures
            self@.clock.shows(now),
    {
        self.clock.now()
    }

    /// Takes in a book at `now`, in place of any earlier one of its pair.
    pub fn upsert_at(&mut self, book: OrderbookState, now: Nanos)
        ensures
            final(self)@ == old(self)@.upserted(book@, now),
    {
        let pair = book.pair();
        let healthy = book.is_healthy();
        self.graph.upsert(book);
        put_meta(&mut self.metas, pair, BookMeta { updated_at: now, healthy });
    }

    /// Returns whether the book of a pair is there, healthy and no older than `max_age`.
    pub fn is_pair_usable_at(&self, pair: &Pair, max_age: Nanos, now: Nanos) -> (usable: bool)
        ensures
            usable == self@.usable(*pair, max_age, now),
    {
        match read_meta(&self.metas, pair) {
            Some(meta) => meta.is_usable(max_age, now),
            None => false,
        }
    }

    /// Returns the record of a pair.
    pub fn get_meta(&self, pair: &Pair) -> (meta: Option<BookMeta>)
        ensures
            meta is Some <==> self@.metas.contains_key(*pair),
            meta matches Some(m) ==> m == self@.metas[*pair],
    {
        read_meta(&self.metas, pair)
    }

    /// Returns whether any book trades the token.
    pub fn contains_token(&self, token: Address) -> (known: bool)
        ensures
            known == self@.graph.edges.contains_key(token),
    {
        self.graph.contains_token(token)
    }

    /// Returns the edges that leave a token.
    pub fn neighbors(&self, token: Address) -> (edges: Vec<GraphEdge>)
        ensures
            edges@ == edges_of(self@.graph.edges, token),
    {
        self.graph.neighbors(token)
    }

    /// Returns the book of a pair.
    pub fn get_orderbook(&self, pair: &Pair) -> (book: Option<OrderbookState>)
        ensures
            book is Some <==> self@.graph.books.contains_key(*pair),
            book matches Some(b) ==> b@ == self@.graph.books[*pair],
    {
        self.graph.get_orderbook(pair)
    }

    /// Returns the number of books.
    pub fn orderbook_count(&mut self) -> (count: usize)
        ensures
            count == old(self)@.graph.books.dom().len(),
            final(self)@ == old(self)@,
    {
        self.graph.orderbook_count()
    }

    /// Returns the number of tokens that the books trade.
    pub fn token_count(&mut self) -> (count: usize)
        ensures
            count == old(self)@.graph.edges.dom().len(),
            final(self)@ == old(self)@,
    {
        self.graph.token_count()
    }

    /// Takes a snapshot and searches it now for the best route, over books that are usable when
    /// the search looks at them: at each look it reads the tracker's clock. Returns the route with
    /// the number of times that a book was passed over, as a counter that wraps around.
    pub fn best_route(
        &self,
        input_token: Address,
        output_token: Address,
        input_amount: Quantity,
    ) -> (found: (Option<Vec<Swap>>, u64))
        ensures
            exists|moment: spec_fn(Seq<int>) -> Nanos|
                {
                    let query = #[trigger] self@.query_during(
                        input_token,
                        output_token,
                        input_amount,
                        moment,
                    );
                    &&& runs_on(moment, self@.clock)
                    &&& query.is_answered_by(found.0)
                    &&& found.1 == counted(0, query.skips(Seq::empty()))
                },
    {
        let watch = Watch::Running(self.clock);
        let snapshot = RoutingSnapshot::from_state(&self.graph, &self.metas, watch);
        let found = search(&snapshot, input_token, output_token, input_amount);
        proof {
            let moment = choose|moment: spec_fn(Seq<int>) -> Nanos|
                {
                    let query = #[trigger] asked(
                        snapshot.market(),
                        input_token,
                        output_token,
                        input_amount,
                        moment,
                    );
                    &&& forall|steps: Seq<int>| watch.may_show(#[trigger] moment(steps))
                    &&& goes_on(moment, watch)
                    &&& query.is_answered_by(found.0)
                    &&& found.1 == counted(0, query.skips(Seq::empty()))
                };
            let query = self@.query_during(input_token, output_token, input_amount, moment);
            assert(query.is_answered_by(found.0));
            let start = choose|start: Nanos| #[trigger] goes_on_from_time(moment, watch, start);
            assert(runs_from(moment, self@.clock, start)) by {
                assert forall|steps: Seq<int>| self@.clock.shows(#[trigger] moment(steps)) && start
                    <= moment(steps) by {
                    assert(watch.may_show(moment(steps)));
                }
            }
        }
        found
    }

    /// Takes a snapshot and searches it for the best route at `now`, as [`Self::best_route`]
    /// does.
    pub fn best_route_at(
        &self,
        input_token: Address,
        output_token: Address,
        input_amount: Quantity,
        now: Nanos,
    ) -> (found: (Option<Vec<Swap>>, u64))
        ensures
            ({
                let query = self@.query(input_token, output_token, input_amount, now);
                &&& query.is_answered_by(found.0)
                &&& found.1 == counted(0, query.skips(Seq::empty()))
            }),
    {
        let watch = Watch::Stopped(now);
        let snapshot = RoutingSnapshot::from_state(&self.graph, &self.metas, watch);
        let found = search(&snapshot, input_token, output_token, input_amount);
        proof {
            let moment = choose|moment: spec_fn(Seq<int>) -> Nanos|
                {
                    let query = #[trigger] asked(
                        snapshot.market(),
                        input_token,
                        output_token,
                        input_amount,
                        moment,
                    );
                    &&& forall|steps: Seq<int>| watch.may_show(#[trigger] moment(steps))
                    &&& query.is_answered_by(found.0)
                    &&& found.1 == counted(0, query.skips(Seq::empty()))
                };
            assert(moment =~= (|steps: Seq<int>| now));
        }
        found
    }
}

/// Taking in a book keeps the books, the graph and the records consistent with each other, from
/// the empty tracker on.
pub proof fn law_upsert_keeps_the_tracker_consistent(
    tracker: TrackerView,
    book: BookView,
    now: Nanos,
)
    ensures
        TrackerView::empty(tracker.clock).consistent(),
        tracker.consistent() ==> tracker.upserted(book, now).consistent(),
{
    let empty = TrackerView::empty(tracker.clock);
    assert(empty.metas.dom() == empty.graph.books.dom());
    if tracker.consistent() {
        law_upsert_keeps_the_graph_consistent(tracker.graph, book);
        assert(tracker.upserted(book, now).metas.dom() == tracker.upserted(
            book,
            now,
        ).graph.books.dom());
    }
}

/// A healthy book can be used from its update on for as long as it is not older than the limit,
/// and no longer; a book that is not healthy cannot be used at all. Other books stay as usable
/// as they were.
pub proof fn law_usable_while_fresh(
    tracker: TrackerView,
    book: BookView,
    updated: Nanos,
    max_age: Nanos,
    now: Nanos,
    other: Pair,
)
    requires
        other != book.pair(),
    ensures
        tracker.upserted(book, updated).usable(book.pair(), max_age, now) <==> book.healthy() && age(
            updated,
            now,
        ) <= max_age,
        tracker.upserted(book, updated).usable(other, max_age, now) == tracker.usable(
            other,
            max_age,
            now,
        ),
{
}

/// Two searches between which no book is updated and none becomes stale find the same route and
/// pass over as many books.
pub proof fn law_same_route_until_a_book_goes_stale(
    tracker: TrackerView,
    input_token: Address,
    output_token: Address,
    input_amount: Quantity,
    now: Nanos,
    later: Nanos,
)
    requires
        now <= later,
        forall|pair: Pair| #[trigger]
            tracker.metas.contains_key(pair) && age(tracker.metas[pair].updated_at, now)
                <= STALE_TTL ==> age(tracker.metas[pair].updated_at, later) <= STALE_TTL,
    ensures
        ({
            let first = tracker.query(input_token, output_token, input_amount, now);
            let second = tracker.query(input_token, output_token, input_amount, later);
            &&& first.best() == second.best()
            &&& first.skips(Seq::empty()) == second.skips(Seq::empty())
        }),
{
    let first = tracker.query(input_token, output_token, input_amount, now);
    let second = tracker.query(input_token, output_token, input_amount, later);
    assert forall|steps: Seq<int>| steps.len() > 0 implies #[trigger] first.usable(steps)
        == second.usable(steps) by {
        lemma_same_places(first, second, steps);
        let pair = first.last_edge(steps).pair;
        if tracker.metas.contains_key(pair) {
            assert(age(tracker.metas[pair].updated_at, now) <= age(
                tracker.metas[pair].updated_at,
                later,
            ));
        }
    }
    law_same_usable_books_give_the_same_route(first, second);
}

/// What is recorded of a book is when it came in and whether it is healthy, whether or not its pair
/// had a book before; the book itself takes the place of the earlier one, and the other pairs keep
/// theirs.
pub proof fn law_upsert_puts_the_book_in_place(
    tracker: TrackerView,
    book: BookView,
    now: Nanos,
    other: Pair,
)
    ensures
        ({
            let after = tracker.upserted(book, now);
            let pair = (book.base_token, book.quote_token);
            &&& after.graph.books.contains_key(pair)
            &&& after.graph.books[pair] == book
            &&& after.metas.contains_key(pair)
            &&& after.metas[pair].updated_at == now
            &&& after.metas[pair].healthy == book.healthy()
            &&& other != pair ==> {
                &&& after.graph.books.contains_key(other) == tracker.graph.books.contains_key(other)
                &&& after.graph.books[other] == tracker.graph.books[other]
                &&& after.metas.contains_key(other) == tracker.metas.contains_key(other)
                &&& after.metas[other] == tracker.metas[other]
            }
            &&& after.clock == tracker.clock
        }),
{
}

/// A book is usable exactly where it is recorded as healthy and its update lies no further back
/// than the limit.
pub proof fn law_usable_means_healthy_and_recent(
    tracker: TrackerView,
    pair: Pair,
    max_age: Nanos,
    now: Nanos,
)
    ensures
        tracker.usable(pair, max_age, now) <==> {
            &&& tracker.metas.contains_key(pair)
            &&& tracker.metas[pair].healthy
            &&& now <= tracker.metas[pair].updated_at + max_age
        },
{
}

/// What a search of the tracker's books finds is the best trades that can be made on them with
/// the amount, and it finds nothing only where none can be made.
pub proof fn law_search_finds_the_best_trading(
    tracker: TrackerView,
    input_token: Address,
    output_token: Address,
    input_amount: Quantity,
    moment: spec_fn(Seq<int>) -> Nanos,
)
    ensures
        match tracker.query_during(input_token, output_token, input_amount, moment).best() {
            Some(route) => exists|t: Trading|
                {
                    &&& #[trigger] is_best_trading(
                        tracker.graph,
                        Some(tracker.metas),
                        input_token,
                        output_token,
                        input_amount,
                        moment,
                        t,
                    )
                    &&& route == all_told(tracker.graph, input_token, t)
                },
            None => forall|t: Trading|
                !#[trigger] can_be_made(
                    tracker.graph,
                    Some(tracker.metas),
                    input_token,
                    output_token,
                    input_amount,
                    moment,
                    t,
                ),
        },
{
    let query = tracker.query_during(input_token, output_token, input_amount, moment);
    law_found_route_is_the_best_trading(query);
    match query.best() {
        Some(route) => {
            let t = choose|t: Trading|
                {
                    &&& #[trigger] is_best_trading(
                        query.market.graph,
                        query.market.metas,
                        query.input_token,
                        query.output_token,
                        query.input_amount,
                        query.moment,
                        t,
                    )
                    &&& route == all_told(query.market.graph, query.input_token, t)
                };
            assert(is_best_trading(
                tracker.graph,
                Some(tracker.metas),
                input_token,
                output_token,
                input_amount,
                moment,
                t,
            ));
        },
        None => {
            assert forall|t: Trading|
                !#[trigger] can_be_made(
                    tracker.graph,
                    Some(tracker.metas),
                    input_token,
                    output_token,
                    input_amount,
                    moment,
                    t,
                ) by {
                assert(!can_be_made(
                    query.market.graph,
                    query.market.metas,
                    query.input_token,
                    query.output_token,
                    query.input_amount,
                    query.moment,
                    t,
                ));
            }
        },
    }
}

/// No way to trade on the tracker's books is missed: wherever one to three trades can be made, on
/// whichever sides of the books, a search finds a route that yields at least as much. Where the
/// trades are the best, it finds them.
pub proof fn law_search_misses_no_trading(
    tracker: TrackerView,
    input_token: Address,
    output_token: Address,
    input_amount: Quantity,
    moment: spec_fn(Seq<int>) -> Nanos,
    t: Trading,
)
    requires
        can_be_made(
            tracker.graph,
            Some(tracker.metas),
            input_token,
            output_token,
            input_amount,
            moment,
            t,
        ),
    ensures
        ({
            let found = tracker.query_during(
                input_token,
                output_token,
                input_amount,
                moment,
            ).best();
            &&& found is Some
            &&& found->0.last().expected_output_amount >= t.amounts.last()
            &&& is_best_trading(
                tracker.graph,
                Some(tracker.metas),
                input_token,
                output_token,
                input_amount,
                moment,
                t,
            ) ==> found == Some(all_told(tracker.graph, input_token, t))
        }),
{
    let query = tracker.query_during(input_token, output_token, input_amount, moment);
    law_no_trading_is_missed(query, t);
    if is_best_trading(
        tracker.graph,
        Some(tracker.metas),
        input_token,
        output_token,
        input_amount,
        moment,
        t,
    ) {
        law_best_trading_is_found(query, t);
    }
}

/// A search at one moment is one that looks at every book at that moment.
pub proof fn law_search_at_one_moment(
    tracker: TrackerView,
    input_token: Address,
    output_token: Address,
    input_amount: Quantity,
    now: Nanos,
    moment: spec_fn(Seq<int>) -> Nanos,
)
    requires
        forall|steps: Seq<int>| #[trigger] moment(steps) == now,
    ensures
        tracker.query(input_token, output_token, input_amount, now) == tracker.query_during(
            input_token,
            output_token,
            input_amount,
            moment,
        ),
{
    assert(moment =~= (|steps: Seq<int>| now));
}

/// A search that runs on from a reading of the clock trades on no book whose update lay more than
/// thirty seconds before that reading, nor on one that is not healthy.
pub proof fn law_stale_books_are_in_no_route(
    tracker: TrackerView,
    input_token: Address,
    output_token: Address,
    input_amount: Quantity,
    moment: spec_fn(Seq<int>) -> Nanos,
    start: Nanos,
)
    requires
        runs_from(moment, tracker.clock, start),
    ensures
        tracker.query_during(input_token, output_token, input_amount, moment).best() matches Some(
            route,
        ) ==> exists|t: Trading|
            {
                &&& #[trigger] is_trading(
                    tracker.graph,
                    input_token,
                    output_token,
                    input_amount,
                    t,
                )
                &&& route == all_told(tracker.graph, input_token, t)
                &&& forall|k: int|
                    #![trigger t.edges[k]]
                    0 <= k < t.edges.len() ==> {
                        &&& tracker.metas.contains_key(t.edges[k].pair)
                        &&& tracker.metas[t.edges[k].pair].healthy
                        &&& start <= tracker.metas[t.edges[k].pair].updated_at + 30_000_000_000
                    }
            },
{
    let query = tracker.query_during(input_token, output_token, input_amount, moment);
    law_search_finds_the_best_trading(tracker, input_token, output_token, input_amount, moment);
    if query.best() is Some {
        let route = query.best()->0;
        let t = choose|t: Trading|
            {
                &&& #[trigger] is_best_trading(
                    tracker.graph,
                    Some(tracker.metas),
                    input_token,
                    output_token,
                    input_amount,
                    moment,
                    t,
                )
                &&& route == all_told(tracker.graph, input_token, t)
            };
        assert(is_trading(tracker.graph, input_token, output_token, input_amount, t));
        assert forall|k: int| #![trigger t.edges[k]] 0 <= k < t.edges.len() implies {
            &&& tracker.metas.contains_key(t.edges[k].pair)
            &&& tracker.metas[t.edges[k].pair].healthy
            &&& start <= tracker.metas[t.edges[k].pair].updated_at + 30_000_000_000
        } by {
            assert(start <= moment(t.picks.take(k + 1)));
            assert(open_at(Some(tracker.metas), t.edges[k].pair, moment(t.picks.take(k + 1))));
        }
    }
}

} // verus!
