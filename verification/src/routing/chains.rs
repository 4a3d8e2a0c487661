//! Routes as chains of trades on the books, and that the best of them is found.
use vstd::prelude::*;

use crate::clock::Nanos;
use crate::freshness::BookMeta;
use crate::graph::{GraphEdge, GraphView};
use crate::matching::fill;
use crate::orderbook::BookView;
use crate::routing::laws::{
    law_best_route_exists_and_yields_the_most, lemma_order_is_total, lemma_trades_of_walk,
};
use crate::routing::query::{
    comes_before, lemma_before_is_irreflexive, lemma_before_is_transitive, lemma_best_is_unique,
    lemma_start_of_walk, RouteQuery,
};
use crate::types::{Address, Pair, Swap};

verus! {

/// One to three trades, one after the other.
#[verifier::ext_equal]
pub struct Trading {
    /// The edges that are traded over.
    pub edges: Seq<GraphEdge>,
    /// Where each stands among the edges that leave its token.
    pub picks: Seq<int>,
    /// What is put in, and what each trade yields.
    pub amounts: Seq<u64>,
}

/// The token that the `k`th trade puts in.
pub open spec fn token_before(from: Address, edges: Seq<GraphEdge>, k: int) -> Address {
    if k == 0 {
        from
    } else {
        edges[k - 1].target
    }
}

/// The `pick`th edge that leaves a token has a book, and filling `put_in` on it yields
/// `got_out`, which is something.
pub open spec fn is_trade(
    graph: GraphView,
    token: Address,
    edge: GraphEdge,
    pick: int,
    put_in: u64,
    got_out: u64,
) -> bool {
    &&& graph.edges.contains_key(token)
    &&& 0 <= pick < graph.edges[token].len()
    &&& graph.edges[token][pick] == edge
    &&& graph.books.contains_key(edge.pair)
    &&& got_out == fill(graph.books[edge.pair], edge.side, put_in).output_produced
    &&& got_out > 0
}

/// The trades lead from one token to another: each puts in all that the one before it yielded,
/// and the last one alone reaches the other token.
pub open spec fn is_trading(
    graph: GraphView,
    from: Address,
    to: Address,
    amount: u64,
    t: Trading,
) -> bool {
    &&& 1 <= t.edges.len() <= 3
    &&& t.picks.len() == t.edges.len()
    &&& t.amounts.len() == t.edges.len() + 1
    &&& t.amounts[0] == amount
    &&& forall|k: int|
        #![trigger t.edges[k]]
        0 <= k < t.edges.len() ==> {
            &&& is_trade(
                graph,
                token_before(from, t.edges, k),
                t.edges[k],
                t.picks[k],
                t.amounts[k],
                t.amounts[k + 1],
            )
            &&& t.edges[k].target == to <==> k == t.edges.len() - 1
        }
}

/// The book of a pair may be traded on at `now`: it was healthy when it came in, at most thirty
/// seconds ago. Where nothing is recorded of the books, all may.
pub open spec fn open_at(metas: Option<Map<Pair, BookMeta>>, pair: Pair, now: Nanos) -> bool {
    metas matches Some(records) ==> {
        &&& records.contains_key(pair)
        &&& records[pair].healthy
        &&& now <= records[pair].updated_at + 30_000_000_000
    }
}

/// The trades can be made: their books may be traded on when they are looked at.
pub open spec fn can_be_made(
    graph: GraphView,
    metas: Option<Map<Pair, BookMeta>>,
    from: Address,
    to: Address,
    amount: u64,
    moment: spec_fn(Seq<int>) -> Nanos,
    t: Trading,
) -> bool {
    &&& is_trading(graph, from, to, amount, t)
    &&& forall|k: int|
        #![trigger t.edges[k]]
        0 <= k < t.edges.len() ==> open_at(metas, t.edges[k].pair, moment(t.picks.take(k + 1)))
}

/// A trade as it is told to the requester.
pub open spec fn told(book: BookView, token: Address, edge: GraphEdge, put_in: u64) -> Swap {
    Swap {
        input_token: token,
        output_token: edge.target,
        direction: edge.side,
        input_amount: fill(book, edge.side, put_in).input_consumed,
        expected_output_amount: fill(book, edge.side, put_in).output_produced,
    }
}

/// The trades as they are told to the requester.
pub open spec fn all_told(graph: GraphView, from: Address, t: Trading) -> Seq<Swap> {
    Seq::new(
        t.edges.len(),
        |k: int|
            told(
                graph.books[t.edges[k].pair],
                token_before(from, t.edges, k),
                t.edges[k],
                t.amounts[k],
            ),
    )
}

/// The first trades are fewer, or as many and over an earlier edge where they first differ.
pub open spec fn picked_earlier(p: Seq<int>, q: Seq<int>) -> bool {
    p.len() < q.len() || (p.len() == q.len() && exists|k: int|
        {
            &&& 0 <= k < p.len()
            &&& #[trigger] p[k] < q[k]
            &&& forall|j: int| 0 <= j < k ==> p[j] == q[j]
        })
}

/// `t` yields more than `u`, or as much and is not picked later.
pub open spec fn as_good_as(t: Trading, u: Trading) -> bool {
    ||| t.amounts.last() > u.amounts.last()
    ||| t.amounts.last() == u.amounts.last() && !picked_earlier(u.picks, t.picks)
}

/// The trades can be made, and none that can be made are better.
pub open spec fn is_best_trading(
    graph: GraphView,
    metas: Option<Map<Pair, BookMeta>>,
    from: Address,
    to: Address,
    amount: u64,
    moment: spec_fn(Seq<int>) -> Nanos,
    t: Trading,
) -> bool {
    &&& can_be_made(graph, metas, from, to, amount, moment, t)
    &&& forall|u: Trading| #[trigger]
        can_be_made(graph, metas, from, to, amount, moment, u) ==> as_good_as(t, u)
}

/// The trades of the query can be made.
spec fn answers(query: RouteQuery, t: Trading) -> bool {
    can_be_made(
        query.market.graph,
        query.market.metas,
        query.input_token,
        query.output_token,
        query.input_amount,
        query.moment,
        t,
    )
}

/// The trading of a walk.
spec fn trading_of(query: RouteQuery, walk: Seq<int>) -> Trading {
    Trading {
        edges: Seq::new(walk.len(), |k: int| query.last_edge(walk.take(k + 1))),
        picks: walk,
        amounts: Seq::new(walk.len() + 1, |k: int| query.amount_at(walk.take(k))),
    }
}

/// Trades that can be made are those of a walk, as far as `n` of them.
proof fn lemma_trades_are_steps(query: RouteQuery, t: Trading, n: int)
    requires
        answers(query, t),
        0 <= n <= t.edges.len(),
    ensures
        query.is_walk(t.picks.take(n)),
        query.token_at(t.picks.take(n)) == token_before(query.input_token, t.edges, n),
        query.amount_at(t.picks.take(n)) == t.amounts[n],
        n < t.edges.len() ==> query.may_go_on(t.picks.take(n)),
        n > 0 ==> query.last_edge(t.picks.take(n)) == t.edges[n - 1],
    decreases n,
{
    if n > 0 {
        lemma_trades_are_steps(query, t, n - 1);
        let walk = t.picks.take(n);
        assert(walk.drop_last() == t.picks.take(n - 1));
        assert(walk.last() == t.picks[n - 1]);
        let edge = t.edges[n - 1];
        assert(query.market.out_edges(token_before(query.input_token, t.edges, n - 1))[t.picks[n
            - 1]] == edge);
        assert(query.last_edge(walk) == edge);
        assert(open_at(query.market.metas, edge.pair, (query.moment)(t.picks.take(n))));
        assert(query.usable(walk));
    } else {
        assert(t.picks.take(0).len() == 0);
    }
}

/// Trades that can be made are those of a route.
proof fn lemma_trading_is_route(query: RouteQuery, t: Trading)
    requires
        answers(query, t),
    ensures
        query.is_route(t.picks),
        query.amount_at(t.picks) == t.amounts.last(),
        query.swaps(t.picks) == all_told(query.market.graph, query.input_token, t),
{
    let n = t.edges.len() as int;
    lemma_trades_are_steps(query, t, n);
    assert(t.picks.take(n) == t.picks);
    assert(t.edges[n - 1].target == query.output_token);
    lemma_trades_of_walk(query, t.picks);
    let swaps = query.swaps(t.picks);
    let told_swaps = all_told(query.market.graph, query.input_token, t);
    assert forall|k: int| 0 <= k < n implies swaps[k] == told_swaps[k] by {
        lemma_trades_are_steps(query, t, k);
        lemma_trades_are_steps(query, t, k + 1);
        assert(t.picks.take(k + 1).drop_last() == t.picks.take(k));
        assert(swaps[k] == query.last_swap(t.picks.take(k + 1)));
    }
    assert(swaps == told_swaps);
}

/// A route's trades can be made.
proof fn lemma_route_is_trading(query: RouteQuery, walk: Seq<int>)
    requires
        query.is_route(walk),
    ensures
        answers(query, trading_of(query, walk)),
{
    let t = trading_of(query, walk);
    let n = walk.len() as int;
    assert(walk.take(n) == walk);
    lemma_start_of_walk(query, walk, n - 1);
    assert(walk.take(0).len() == 0);
    assert forall|k: int| #![trigger t.edges[k]] 0 <= k < t.edges.len() implies {
        &&& is_trade(
            query.market.graph,
            token_before(query.input_token, t.edges, k),
            t.edges[k],
            t.picks[k],
            t.amounts[k],
            t.amounts[k + 1],
        )
        &&& t.edges[k].target == query.output_token <==> k == t.edges.len() - 1
        &&& open_at(query.market.metas, t.edges[k].pair, (query.moment)(t.picks.take(k + 1)))
    } by {
        lemma_start_of_walk(query, walk, k);
        assert(walk.take(k + 1).drop_last() == walk.take(k));
        assert(walk.take(k + 1).last() == walk[k]);
        if k > 0 {
            lemma_start_of_walk(query, walk, k - 1);
            assert(walk.take(k).drop_last() == walk.take(k - 1));
            assert(walk.take(k).last() == walk[k - 1]);
            assert(query.token_at(walk.take(k)) == t.edges[k - 1].target);
        }
        assert(query.token_at(walk.take(k + 1)) == t.edges[k].target);
        if k < n - 1 {
            lemma_start_of_walk(query, walk, k + 1);
        }
        assert(query.tradable(walk.take(k + 1)));
    }
}

/// A best trading takes the steps of the best route.
proof fn lemma_best_trading_is_best_route(query: RouteQuery, t: Trading)
    requires
        answers(query, t),
        forall|u: Trading| #[trigger] answers(query, u) ==> as_good_as(t, u),
    ensures
        query.is_best(t.picks),
{
    lemma_trading_is_route(query, t);
    assert forall|other: Seq<int>| #[trigger] query.is_route(other) implies query.beats(
        t.picks,
        other,
    ) by {
        lemma_route_is_trading(query, other);
        let u = trading_of(query, other);
        assert(as_good_as(t, u));
        assert(other.take(other.len() as int) == other);
        lemma_order_is_total(t.picks, other);
    }
}

/// The best trades that can be made are the route that is found, in whichever way they trade.
pub proof fn law_best_trading_is_found(query: RouteQuery, t: Trading)
    requires
        is_best_trading(
            query.market.graph,
            query.market.metas,
            query.input_token,
            query.output_token,
            query.input_amount,
            query.moment,
            t,
        ),
    ensures
        query.best() == Some(all_told(query.market.graph, query.input_token, t)),
{
    assert forall|u: Trading| #[trigger] answers(query, u) implies as_good_as(t, u) by {
        assert(can_be_made(
            query.market.graph,
            query.market.metas,
            query.input_token,
            query.output_token,
            query.input_amount,
            query.moment,
            u,
        ));
    }
    lemma_best_trading_is_best_route(query, t);
    lemma_trading_is_route(query, t);
    lemma_best_is_unique(query, t.picks, choose|walk: Seq<int>| query.is_best(walk));
}

/// The route that is found is the best trades that can be made, and nothing is found only where
/// no trades can be made.
pub proof fn law_found_route_is_the_best_trading(query: RouteQuery)
    ensures
        match query.best() {
            Some(route) => exists|t: Trading|
                {
                    &&& #[trigger] is_best_trading(
                        query.market.graph,
                        query.market.metas,
                        query.input_token,
                        query.output_token,
                        query.input_amount,
                        query.moment,
                        t,
                    )
                    &&& route == all_told(query.market.graph, query.input_token, t)
                },
            None => forall|t: Trading|
                !#[trigger] can_be_made(
                    query.market.graph,
                    query.market.metas,
                    query.input_token,
                    query.output_token,
                    query.input_amount,
                    query.moment,
                    t,
                ),
        },
{
    law_best_route_exists_and_yields_the_most(query);
    if query.best() is Some {
        let walk = choose|walk: Seq<int>| query.is_best(walk);
        let t = trading_of(query, walk);
        lemma_route_is_trading(query, walk);
        lemma_trading_is_route(query, t);
        assert(walk.take(walk.len() as int) == walk);
        assert forall|u: Trading| #[trigger]
            can_be_made(
                query.market.graph,
                query.market.metas,
                query.input_token,
                query.output_token,
                query.input_amount,
                query.moment,
                u,
            ) implies as_good_as(t, u) by {
            lemma_trading_is_route(query, u);
            assert(query.beats(walk, u.picks));
            if picked_earlier(u.picks, walk) {
                assert(comes_before(u.picks, walk));
                lemma_before_is_irreflexive(walk);
                if walk != u.picks && comes_before(walk, u.picks) {
                    lemma_before_is_transitive(walk, u.picks, walk);
                }
            }
        }
        assert(is_best_trading(
            query.market.graph,
            query.market.metas,
            query.input_token,
            query.output_token,
            query.input_amount,
            query.moment,
            t,
        ));
    } else {
        assert forall|t: Trading|
            !#[trigger] can_be_made(
                query.market.graph,
                query.market.metas,
                query.input_token,
                query.output_token,
                query.input_amount,
                query.moment,
                t,
            ) by {
            if answers(query, t) {
                lemma_trading_is_route(query, t);
            }
        }
    }
}

/// No way to trade is missed: wherever one to three trades can be made, on whichever sides of the
/// books, a route is found that yields at least as much.
pub proof fn law_no_trading_is_missed(query: RouteQuery, t: Trading)
    requires
        can_be_made(
            query.market.graph,
            query.market.metas,
            query.input_token,
            query.output_token,
            query.input_amount,
            query.moment,
            t,
        ),
    ensures
        query.best() is Some,
        query.best()->0.last().expected_output_amount >= t.amounts.last(),
        query.best()->0.len() > t.edges.len() ==> query.best()->0.last().expected_output_amount
            > t.amounts.last(),
{
    law_found_route_is_the_best_trading(query);
    let route = query.best()->0;
    let b = choose|b: Trading|
        {
            &&& #[trigger] is_best_trading(
                query.market.graph,
                query.market.metas,
                query.input_token,
                query.output_token,
                query.input_amount,
                query.moment,
                b,
            )
            &&& route == all_told(query.market.graph, query.input_token, b)
        };
    assert(as_good_as(b, t));
    let n = b.edges.len() as int;
    assert(b.edges[n - 1].target == query.output_token);
    assert(route.last().expected_output_amount == b.amounts[n]);
}

} // verus!
