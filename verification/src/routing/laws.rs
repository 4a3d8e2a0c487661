//! What holds of every best route.
use vstd::prelude::*;

use crate::matching::law_fill_stays_within_the_input;
use crate::routing::query::{
    comes_before, lemma_best_is_unique, lemma_one_more_step, lemma_start_of_walk, RouteQuery,
    MAX_HOPS,
};
use crate::types::Swap;

verus! {

/// The trades form a chain of at most [`MAX_HOPS`] from the query's input to its output: each
/// starts with the token that the one before it yielded, puts in no more than that one
/// yielded, and yields something; the output token is reached by the last trade alone.
pub open spec fn is_chain(query: RouteQuery, trades: Seq<Swap>) -> bool {
    &&& 1 <= trades.len() <= MAX_HOPS
    &&& trades[0].input_token == query.input_token
    &&& trades[0].input_amount <= query.input_amount
    &&& trades.last().output_token == query.output_token
    &&& forall|k: int|
        0 <= k < trades.len() ==> (#[trigger] trades[k]).expected_output_amount > 0
    &&& forall|j: int, k: int|
        #![trigger trades[j], trades[k]]
        0 <= j < trades.len() - 1 && k == j + 1 ==> {
            &&& trades[k].input_token == trades[j].output_token
            &&& trades[k].input_amount <= trades[j].expected_output_amount
            &&& trades[j].output_token != query.output_token
        }
}

/// The trade is what putting `amount` in gives over some edge that leaves its input token.
pub open spec fn is_backed(query: RouteQuery, trade: Swap, amount: u64) -> bool {
    exists|steps: Seq<int>| #[trigger] trades_over(query, steps, amount, trade)
}

/// The trade is what putting `amount` in gives over the last edge of the steps, which leaves the
/// trade's input token, and whose book is there and usable when it is looked at.
pub open spec fn trades_over(
    query: RouteQuery,
    steps: Seq<int>,
    amount: u64,
    trade: Swap,
) -> bool {
    let edge = query.last_edge(steps);
    &&& steps.len() > 0
    &&& query.token_at(steps.drop_last()) == trade.input_token
    &&& 0 <= steps.last() < query.market.out_edges(trade.input_token).len()
    &&& query.usable(steps)
    &&& query.market.graph.books.contains_key(edge.pair)
    &&& trade.output_token == edge.target
    &&& trade.direction == edge.side
    &&& trade.input_amount == query.market.traded(edge, amount).input_consumed
    &&& trade.expected_output_amount == query.market.traded(edge, amount).output_produced
}

/// The amount that is put into the `k`th trade: all that the one before it yielded.
pub open spec fn put_in(query: RouteQuery, trades: Seq<Swap>, k: int) -> u64 {
    if k == 0 {
        query.input_amount
    } else {
        trades[k - 1].expected_output_amount
    }
}

/// The trades of a walk are the last trades of its starts.
pub(crate) proof fn lemma_trades_of_walk(query: RouteQuery, walk: Seq<int>)
    ensures
        query.swaps(walk).len() == walk.len(),
        forall|k: int|
            #![trigger query.swaps(walk)[k]]
            0 <= k < walk.len() ==> query.swaps(walk)[k] == query.last_swap(walk.take(k + 1)),
    decreases walk.len(),
{
    if walk.len() > 0 {
        let start = walk.drop_last();
        lemma_trades_of_walk(query, start);
        assert forall|k: int| #![trigger query.swaps(walk)[k]] 0 <= k < walk.len() implies query.swaps(
            walk,
        )[k] == query.last_swap(walk.take(k + 1)) by {
            if k < start.len() {
                assert(query.swaps(walk)[k] == query.swaps(start)[k]);
                assert(start.take(k + 1) == walk.take(k + 1));
            } else {
                assert(walk.take(k + 1) == walk);
            }
        }
    }
}

/// What holds of the `k`th trade of a walk.
proof fn lemma_kth_trade(query: RouteQuery, walk: Seq<int>, k: int)
    requires
        query.is_walk(walk),
        0 <= k < walk.len(),
    ensures
        ({
            let trade = query.last_swap(walk.take(k + 1));
            let amount = query.amount_at(walk.take(k));
            &&& trade.input_token == query.token_at(walk.take(k))
            &&& trade.output_token == query.token_at(walk.take(k + 1))
            &&& trade.expected_output_amount == query.amount_at(walk.take(k + 1))
            &&& trade.expected_output_amount > 0
            &&& trade.input_amount <= amount
            &&& k > 0 ==> query.token_at(walk.take(k)) != query.output_token
            &&& is_backed(query, trade, amount)
        }),
{
    let start = walk.take(k);
    lemma_start_of_walk(query, walk, k);
    assert(walk.take(k + 1).drop_last() == start);
    assert(walk.take(k + 1).last() == walk[k]);
    let edge = query.market.out_edges(query.token_at(start))[walk[k]];
    assert(query.last_edge(walk.take(k + 1)) == edge);
    law_fill_stays_within_the_input(
        query.market.graph.books[edge.pair],
        edge.side,
        query.amount_at(start),
    );
    let trade = query.last_swap(walk.take(k + 1));
    assert(trades_over(query, walk.take(k + 1), query.amount_at(start), trade));
    assert(is_backed(query, trade, query.amount_at(start)));
}

/// A route's trades form a chain from the input to the output of at most three, each of them
/// on a usable book with all that the one before it yielded.
pub proof fn law_route_is_a_chain_of_usable_trades(query: RouteQuery, walk: Seq<int>)
    requires
        query.is_route(walk),
    ensures
        is_chain(query, query.swaps(walk)),
        query.swaps(walk).last().expected_output_amount == query.amount_at(walk),
        forall|k: int|
            0 <= k < query.swaps(walk).len() ==> is_backed(
                query,
                #[trigger] query.swaps(walk)[k],
                put_in(query, query.swaps(walk), k),
            ),
{
    let trades = query.swaps(walk);
    let n = walk.len() as int;
    lemma_trades_of_walk(query, walk);
    assert(walk.take(0).len() == 0);
    assert(walk.take(n) == walk);
    assert forall|k: int| 0 <= k < n implies (#[trigger] trades[k]).expected_output_amount > 0
        && is_backed(query, trades[k], put_in(query, trades, k)) by {
        lemma_kth_trade(query, walk, k);
        if k > 0 {
            lemma_kth_trade(query, walk, k - 1);
            assert(trades[k - 1] == query.last_swap(walk.take(k)));
        }
    }
    assert forall|j: int, k: int|
        #![trigger trades[j], trades[k]]
        0 <= j < n - 1 && k == j + 1 implies {
        &&& trades[k].input_token == trades[j].output_token
        &&& trades[k].input_amount <= trades[j].expected_output_amount
        &&& trades[j].output_token != query.output_token
    } by {
        lemma_kth_trade(query, walk, j);
        lemma_kth_trade(query, walk, k);
        assert(trades[j] == query.last_swap(walk.take(k)));
        assert(trades[k] == query.last_swap(walk.take(k + 1)));
    }
    lemma_kth_trade(query, walk, 0);
    lemma_kth_trade(query, walk, n - 1);
    assert(trades[0] == query.last_swap(walk.take(1)));
    assert(trades[n - 1] == query.last_swap(walk.take(n)));
}

/// Among the routes that yield as much as `walk` one comes first.
proof fn lemma_first_of_equals(query: RouteQuery, walk: Seq<int>) -> (first: Seq<int>)
    requires
        query.is_route(walk),
    ensures
        query.is_route(first),
        query.amount_at(first) == query.amount_at(walk),
        forall|other: Seq<int>| #[trigger]
            query.is_route(other) && query.amount_at(other) == query.amount_at(first) ==> !comes_before(
                other,
                first,
            ),
    decreases
            walk.len(),
            if walk.len() > 0 {
                walk[0]
            } else {
                0
            },
            if walk.len() > 1 {
                walk[1]
            } else {
                0
            },
            if walk.len() > 2 {
                walk[2]
            } else {
                0
            },
{
    if exists|other: Seq<int>| #[trigger]
        query.is_route(other) && query.amount_at(other) == query.amount_at(walk) && comes_before(
            other,
            walk,
        ) {
        let other = choose|other: Seq<int>| #[trigger]
            query.is_route(other) && query.amount_at(other) == query.amount_at(walk)
                && comes_before(other, walk);
        lemma_steps_are_positions(query, walk);
        lemma_steps_are_positions(query, other);
        lemma_first_of_equals(query, other)
    } else {
        walk
    }
}

/// Every step of a walk is a position in a list.
proof fn lemma_steps_are_positions(query: RouteQuery, walk: Seq<int>)
    requires
        query.is_walk(walk),
    ensures
        walk.len() <= MAX_HOPS,
        forall|k: int| 0 <= k < walk.len() ==> #[trigger] walk[k] >= 0,
{
    assert forall|k: int| 0 <= k < walk.len() implies #[trigger] walk[k] >= 0 by {
        lemma_start_of_walk(query, walk, k);
    }
}

/// Among the routes one yields at least as much as any.
proof fn lemma_largest(query: RouteQuery, walk: Seq<int>) -> (largest: Seq<int>)
    requires
        query.is_route(walk),
    ensures
        query.is_route(largest),
        forall|other: Seq<int>| #[trigger]
            query.is_route(other) ==> query.amount_at(other) <= query.amount_at(largest),
    decreases u64::MAX - query.amount_at(walk),
{
    if exists|other: Seq<int>| #[trigger]
        query.is_route(other) && query.amount_at(other) > query.amount_at(walk) {
        let other = choose|other: Seq<int>| #[trigger]
            query.is_route(other) && query.amount_at(other) > query.amount_at(walk);
        lemma_largest(query, other)
    } else {
        walk
    }
}

/// Of two different walks of routes one comes before the other.
pub(crate) proof fn lemma_order_is_total(v: Seq<int>, w: Seq<int>)
    ensures
        v == w || comes_before(v, w) || comes_before(w, v),
{
    if v.len() == w.len() && v != w {
        let d = lemma_first_difference(v, w, 0);
        if v[d] < w[d] {
            assert(comes_before(v, w));
        } else {
            assert(w[d] < v[d]);
            assert(comes_before(w, v));
        }
    }
}

/// Where two sequences that agree up to `from` first differ.
proof fn lemma_first_difference(v: Seq<int>, w: Seq<int>, from: int) -> (d: int)
    requires
        v.len() == w.len(),
        v != w,
        0 <= from <= v.len(),
        forall|j: int| 0 <= j < from ==> v[j] == w[j],
    ensures
        0 <= d < v.len(),
        v[d] != w[d],
        forall|j: int| 0 <= j < d ==> v[j] == w[j],
    decreases v.len() - from,
{
    if from == v.len() {
        assert(v == w);
        from
    } else if v[from] != w[from] {
        from
    } else {
        lemma_first_difference(v, w, from + 1)
    }
}

/// Where there is a route there is a best one, and only there; no route yields more than the
/// best one does.
pub proof fn law_best_route_exists_and_yields_the_most(query: RouteQuery)
    ensures
        query.best() is Some <==> exists|walk: Seq<int>| query.is_route(walk),
        query.best() matches Some(trades) ==> {
            &&& is_chain(query, trades)
            &&& forall|walk: Seq<int>| #[trigger]
                query.is_route(walk) ==> query.amount_at(walk)
                    <= trades.last().expected_output_amount
            &&& forall|k: int|
                0 <= k < trades.len() ==> is_backed(
                    query,
                    #[trigger] trades[k],
                    put_in(query, trades, k),
                )
        },
{
    if exists|walk: Seq<int>| query.is_route(walk) {
        let some = choose|walk: Seq<int>| query.is_route(walk);
        let largest = lemma_largest(query, some);
        let first = lemma_first_of_equals(query, largest);
        assert forall|other: Seq<int>| #[trigger] query.is_route(other) implies query.beats(
            first,
            other,
        ) by {
            lemma_order_is_total(first, other);
        }
        assert(query.is_best(first));
        let chosen = choose|walk: Seq<int>| query.is_best(walk);
        lemma_best_is_unique(query, first, chosen);
        law_route_is_a_chain_of_usable_trades(query, first);
    }
}

/// Where no book is usable whenever it is looked at there is no route, and the search passes
/// over every edge that leaves the input token.
pub proof fn law_unusable_books_are_passed_over(query: RouteQuery)
    requires
        forall|steps: Seq<int>| steps.len() > 0 ==> !#[trigger] query.usable(steps),
    ensures
        query.best() is None,
        query.skips(Seq::empty()) == query.market.out_edges(query.input_token).len(),
{
    assert forall|walk: Seq<int>| !query.is_route(walk) by {
        if query.is_route(walk) {
            assert(query.usable(walk));
        }
    }
    law_best_route_exists_and_yields_the_most(query);
    lemma_every_edge_is_passed_over(query, query.market.out_edges(query.input_token).len());
}

/// Where no book is usable, each edge that leaves the input token is passed over once.
proof fn lemma_every_edge_is_passed_over(query: RouteQuery, n: nat)
    requires
        forall|steps: Seq<int>| steps.len() > 0 ==> !#[trigger] query.usable(steps),
    ensures
        query.skips_among(Seq::empty(), n) == n,
    decreases n,
{
    if n > 0 {
        lemma_every_edge_is_passed_over(query, (n - 1) as nat);
        assert(!query.usable(Seq::<int>::empty().push(n - 1)));
    }
}

/// The two queries ask the same of the same books, and the same ones are usable when they are
/// looked at.
pub open spec fn same_usable_books(a: RouteQuery, b: RouteQuery) -> bool {
    &&& a.market.graph == b.market.graph
    &&& a.input_token == b.input_token
    &&& a.output_token == b.output_token
    &&& a.input_amount == b.input_amount
    &&& forall|steps: Seq<int>| steps.len() > 0 ==> #[trigger] a.usable(steps) == b.usable(steps)
}

/// Walks are the same for both queries.
proof fn lemma_same_walk(a: RouteQuery, b: RouteQuery, walk: Seq<int>)
    requires
        same_usable_books(a, b),
    ensures
        a.token_at(walk) == b.token_at(walk),
        a.amount_at(walk) == b.amount_at(walk),
        a.swaps(walk) == b.swaps(walk),
        a.may_go_on(walk) == b.may_go_on(walk),
        a.is_walk(walk) == b.is_walk(walk),
        a.is_route(walk) == b.is_route(walk),
    decreases walk.len(),
{
    if walk.len() > 0 {
        lemma_same_walk(a, b, walk.drop_last());
        assert(a.usable(walk) == b.usable(walk));
    }
}

/// A best route of one query is one of the other.
proof fn lemma_same_best(a: RouteQuery, b: RouteQuery, walk: Seq<int>)
    requires
        same_usable_books(a, b),
        a.is_best(walk),
    ensures
        b.is_best(walk),
{
    lemma_same_walk(a, b, walk);
    assert forall|other: Seq<int>| #[trigger] b.is_route(other) implies b.beats(walk, other) by {
        lemma_same_walk(a, b, other);
        assert(a.is_route(other));
    }
}

/// Both searches pass over as many books.
proof fn lemma_same_skips(a: RouteQuery, b: RouteQuery, walk: Seq<int>, n: nat)
    requires
        same_usable_books(a, b),
    ensures
        a.skips_among(walk, n) == b.skips_among(walk, n),
    decreases MAX_HOPS - walk.len(), n,
{
    lemma_same_walk(a, b, walk);
    if n > 0 && walk.len() < MAX_HOPS {
        let child = walk.push(n - 1);
        lemma_same_skips(a, b, walk, (n - 1) as nat);
        assert(a.usable(child) == b.usable(child));
        assert(child.drop_last() == walk);
        lemma_same_walk(a, b, child);
        lemma_same_skips(a, b, child, a.market.out_edges(a.token_at(child)).len());
        assert(a.skips(child) == b.skips(child));
    }
}

/// Only which books are usable matters, not the moments: two searches of the same books, with
/// the same ones usable, find the same route and pass over as many books.
pub proof fn law_same_usable_books_give_the_same_route(a: RouteQuery, b: RouteQuery)
    requires
        same_usable_books(a, b),
    ensures
        a.best() == b.best(),
        a.skips(Seq::empty()) == b.skips(Seq::empty()),
{
    assert(same_usable_books(b, a)) by {
        assert forall|steps: Seq<int>| steps.len() > 0 implies #[trigger] b.usable(steps)
            == a.usable(steps) by {
            assert(a.usable(steps) == b.usable(steps));
        }
    }
    if exists|walk: Seq<int>| a.is_best(walk) {
        let first = choose|walk: Seq<int>| a.is_best(walk);
        lemma_same_best(a, b, first);
        let second = choose|walk: Seq<int>| b.is_best(walk);
        lemma_best_is_unique(b, first, second);
        lemma_same_walk(a, b, first);
    }
    if exists|walk: Seq<int>| b.is_best(walk) {
        lemma_same_best(b, a, choose|walk: Seq<int>| b.is_best(walk));
    }
    let start = Seq::<int>::empty();
    lemma_same_walk(a, b, start);
    lemma_same_skips(a, b, start, a.market.out_edges(a.token_at(start)).len());
}

/// The last of the steps leads from the end of a walk that may go on over an edge whose book is
/// not usable.
pub open spec fn meets_unusable(query: RouteQuery, steps: Seq<int>) -> bool {
    &&& steps.len() > 0
    &&& query.is_walk(steps.drop_last())
    &&& query.may_go_on(steps.drop_last())
    &&& 0 <= steps.last() < query.market.out_edges(query.token_at(steps.drop_last())).len()
    &&& !query.usable(steps)
}

/// Such steps that lead on from `walk` over one of the first `n` edges that leave its end.
spec fn unusable_among(query: RouteQuery, walk: Seq<int>, n: nat) -> Set<Seq<int>> {
    Set::new(
        |steps: Seq<int>|
            meets_unusable(query, steps) && walk.is_prefix_of(steps) && walk.len() < steps.len()
                && steps[walk.len() as int] < n,
    )
}

/// Steps that lead on from a walk take one of the edges that leave its end, and where there are
/// more of them, one that can be traded over.
proof fn lemma_steps_lead_on(query: RouteQuery, walk: Seq<int>, steps: Seq<int>)
    requires
        meets_unusable(query, steps),
        walk.is_prefix_of(steps),
        walk.len() < steps.len(),
    ensures
        ({
            let i = steps[walk.len() as int];
            &&& query.may_go_on(walk)
            &&& 0 <= i < query.market.out_edges(query.token_at(walk)).len()
            &&& walk.push(i).is_prefix_of(steps)
            &&& steps.len() == walk.len() + 1 ==> steps == walk.push(i)
            &&& steps.len() > walk.len() + 1 ==> query.tradable(walk.push(i))
        }),
{
    let n = walk.len() as int;
    let earlier = steps.drop_last();
    assert(steps.take(n) == walk);
    assert(walk.push(steps[n]) == steps.take(n + 1));
    if steps.len() == n + 1 {
        assert(earlier == walk);
        assert(steps == walk.push(steps[n]));
    } else {
        assert(earlier.take(n) == walk);
        lemma_start_of_walk(query, earlier, n);
        assert(earlier.take(n + 1) == steps.take(n + 1));
    }
}

/// A search from the end of a walk passes over a book once for each such step.
proof fn lemma_skips_are_steps(query: RouteQuery, walk: Seq<int>, n: nat)
    requires
        query.is_walk(walk),
        query.may_go_on(walk),
        n <= query.market.out_edges(query.token_at(walk)).len(),
    ensures
        unusable_among(query, walk, n).finite(),
        unusable_among(query, walk, n).len() == query.skips_among(walk, n),
    decreases MAX_HOPS - walk.len(), n,
{
    let all = unusable_among(query, walk, n);
    if n == 0 {
        assert forall|steps: Seq<int>| !all.contains(steps) by {
            if all.contains(steps) {
                lemma_steps_lead_on(query, walk, steps);
            }
        }
        assert(all == Set::<Seq<int>>::empty());
    } else {
        let i = n - 1;
        let child = walk.push(i);
        let before = unusable_among(query, walk, i as nat);
        lemma_skips_are_steps(query, walk, i as nat);
        lemma_one_more_step(query, walk, i);
        if !query.usable(child) {
            assert forall|steps: Seq<int>| all.contains(steps) implies #[trigger] before.insert(
                child,
            ).contains(steps) by {
                lemma_steps_lead_on(query, walk, steps);
            }
            assert(meets_unusable(query, child));
            assert(all == before.insert(child));
            assert(child[walk.len() as int] == i);
        } else if query.tradable(child) {
            let out = query.market.out_edges(query.token_at(child)).len();
            let behind = unusable_among(query, child, out);
            assert(query.skips(child) == if query.may_go_on(child) {
                query.skips_among(child, out)
            } else {
                0
            });
            if query.may_go_on(child) {
                lemma_skips_are_steps(query, child, out);
            } else {
                assert forall|steps: Seq<int>| !behind.contains(steps) by {
                    if behind.contains(steps) {
                        lemma_steps_lead_on(query, child, steps);
                    }
                }
                assert(behind == Set::<Seq<int>>::empty());
            }
            assert forall|steps: Seq<int>| #[trigger] all.contains(steps) <==> before.contains(steps)
                || behind.contains(steps) by {
                if all.contains(steps) {
                    lemma_steps_lead_on(query, walk, steps);
                    if steps[walk.len() as int] == i && steps.len() > child.len() {
                        lemma_steps_lead_on(query, child, steps);
                    }
                }
                if behind.contains(steps) {
                    assert(child[walk.len() as int] == steps[walk.len() as int]);
                    assert(walk.is_prefix_of(steps)) by {
                        assert(walk == child.take(walk.len() as int));
                    }
                }
            }
            assert forall|steps: Seq<int>| #[trigger] before.contains(steps) implies !behind.contains(
                steps,
            ) by {
                if behind.contains(steps) {
                    assert(child[walk.len() as int] == steps[walk.len() as int]);
                }
            }
            assert(before.disjoint(behind));
            assert(all == before + behind);
            vstd::set_lib::lemma_set_disjoint_lens(before, behind);
        } else {
            assert forall|steps: Seq<int>| all.contains(steps) implies #[trigger] before.contains(
                steps,
            ) by {
                lemma_steps_lead_on(query, walk, steps);
            }
            assert(all == before);
        }
    }
}

/// A search passes over a book exactly where a walk meets an edge whose book is not usable, once
/// for each such meeting.
pub proof fn law_each_meeting_is_passed_over_once(query: RouteQuery)
    ensures
        ({
            let meetings = Set::new(|steps: Seq<int>| meets_unusable(query, steps));
            &&& meetings.finite()
            &&& query.skips(Seq::empty()) == meetings.len()
        }),
        query.skips(Seq::empty()) > 0 <==> exists|steps: Seq<int>| meets_unusable(query, steps),
{
    let start = Seq::<int>::empty();
    let out = query.market.out_edges(query.token_at(start)).len();
    let meetings = Set::new(|steps: Seq<int>| meets_unusable(query, steps));
    lemma_skips_are_steps(query, start, out);
    assert forall|steps: Seq<int>| #[trigger] meetings.contains(steps) implies unusable_among(
        query,
        start,
        out,
    ).contains(steps) by {
        assert(start.is_prefix_of(steps));
        lemma_steps_lead_on(query, start, steps);
    }
    assert(meetings == unusable_among(query, start, out));
    if meetings.len() > 0 {
        assert(meetings.contains(meetings.choose()));
    }
    if exists|steps: Seq<int>| meets_unusable(query, steps) {
        let steps = choose|steps: Seq<int>| meets_unusable(query, steps);
        assert(meetings.contains(steps));
    }
}

} // verus!
