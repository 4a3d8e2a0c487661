//! What a route is, and which of several routes is the best one.
//!
//! A walk through the market is written as the positions of the edges that it takes, each
//! in the list of edges that leave the token reached so far.
use vstd::prelude::*;

use crate::clock::{Clock, Nanos};
use crate::freshness::{BookMeta, STALE_TTL};
use crate::graph::{edges_of, GraphEdge, GraphView};
use crate::matching::{fill, MatchResult};
use crate::types::{Address, Pair, Quantity, Swap};

verus! {

/// The most trades that a route may have.
pub const MAX_HOPS: usize = 3;

/// The market as a search sees it.
#[verifier::ext_equal]
pub struct MarketView {
    pub graph: GraphView,
    /// When each book was last updated. Where this is `None`, every book may be traded on.
    pub metas: Option<Map<Pair, BookMeta>>,
}

impl MarketView {
    /// The edges that leave a token.
    pub open spec fn out_edges(self, token: Address) -> Seq<GraphEdge> {
        edges_of(self.graph.edges, token)
    }

    /// The book of a pair is healthy and at `now` not stale.
    pub open spec fn usable(self, pair: Pair, now: Nanos) -> bool {
        match self.metas {
            None => true,
            Some(metas) => metas.contains_key(pair) && metas[pair].usable(STALE_TTL, now),
        }
    }

    /// What trading `amount` over an edge gives.
    pub open spec fn traded(self, edge: GraphEdge, amount: u64) -> MatchResult {
        fill(self.graph.books[edge.pair], edge.side, amount)
    }
}

/// Whether `v` comes before `w` when fewer steps come first and, among walks of the same
/// number of steps, the one that takes the earlier edge where they first differ.
pub open spec fn comes_before(v: Seq<int>, w: Seq<int>) -> bool {
    v.len() < w.len() || (v.len() == w.len() && exists|k: int|
        {
            &&& 0 <= k < v.len()
            &&& #[trigger] v[k] < w[k]
            &&& forall|j: int| 0 <= j < k ==> v[j] == w[j]
        })
}

/// A question: how to turn an amount of one token into the most of another.
pub struct RouteQuery {
    pub market: MarketView,
    pub input_token: Address,
    pub output_token: Address,
    pub input_amount: u64,
    /// When the search looks at the last edge of some steps: time goes on while it searches.
    pub moment: spec_fn(Seq<int>) -> Nanos,
}

impl RouteQuery {
    /// The token that a walk ends at.
    pub open spec fn token_at(self, walk: Seq<int>) -> Address
        decreases walk.len(),
    {
        if walk.len() == 0 {
            self.input_token
        } else {
            self.market.out_edges(self.token_at(walk.drop_last()))[walk.last()].target
        }
    }

    /// The last edge of a walk that has a step.
    pub open spec fn last_edge(self, walk: Seq<int>) -> GraphEdge {
        self.market.out_edges(self.token_at(walk.drop_last()))[walk.last()]
    }

    /// How much of that token the walk ends with: each trade puts in all that the one before
    /// it yielded.
    pub open spec fn amount_at(self, walk: Seq<int>) -> u64
        decreases walk.len(),
    {
        if walk.len() == 0 {
            self.input_amount
        } else {
            self.market.traded(
                self.last_edge(walk),
                self.amount_at(walk.drop_last()),
            ).output_produced
        }
    }

    /// The last trade of a walk that has a step.
    pub open spec fn last_swap(self, walk: Seq<int>) -> Swap {
        let edge = self.last_edge(walk);
        let result = self.market.traded(edge, self.amount_at(walk.drop_last()));
        Swap {
            input_token: self.token_at(walk.drop_last()),
            output_token: edge.target,
            direction: edge.side,
            input_amount: result.input_consumed,
            expected_output_amount: result.output_produced,
        }
    }

    /// The trades of a walk.
    pub open spec fn swaps(self, walk: Seq<int>) -> Seq<Swap>
        decreases walk.len(),
    {
        if walk.len() == 0 {
            Seq::empty()
        } else {
            self.swaps(walk.drop_last()).push(self.last_swap(walk))
        }
    }

    /// The book of the last edge is healthy and not stale when the search looks at it.
    pub open spec fn usable(self, steps: Seq<int>) -> bool {
        self.market.usable(self.last_edge(steps).pair, (self.moment)(steps))
    }

    /// The last edge leads over a usable book, and trading over it all that the steps before it
    /// yielded yields something.
    pub open spec fn tradable(self, steps: Seq<int>) -> bool {
        let edge = self.last_edge(steps);
        &&& self.usable(steps)
        &&& self.market.graph.books.contains_key(edge.pair)
        &&& self.market.traded(edge, self.amount_at(steps.drop_last())).output_produced > 0
    }

    /// The walk has arrived: it has a step and ends at the wanted token.
    pub open spec fn arrived(self, walk: Seq<int>) -> bool {
        walk.len() > 0 && self.token_at(walk) == self.output_token
    }

    /// The walk may go on: it has not arrived and has steps left.
    pub open spec fn may_go_on(self, walk: Seq<int>) -> bool {
        !self.arrived(walk) && walk.len() < MAX_HOPS
    }

    /// Every step takes an edge that is there and can be traded over, and none follows the
    /// arrival or the last step allowed.
    pub open spec fn is_walk(self, walk: Seq<int>) -> bool
        decreases walk.len(),
    {
        walk.len() == 0 || {
            let start = walk.drop_last();
            &&& self.is_walk(start)
            &&& self.may_go_on(start)
            &&& 0 <= walk.last() < self.market.out_edges(self.token_at(start)).len()
            &&& self.tradable(walk)
        }
    }

    /// A walk that arrives.
    pub open spec fn is_route(self, walk: Seq<int>) -> bool {
        self.is_walk(walk) && self.arrived(walk)
    }

    /// `walk` yields more than `other`, or as much and is not behind it.
    pub open spec fn beats(self, walk: Seq<int>, other: Seq<int>) -> bool {
        ||| self.amount_at(walk) > self.amount_at(other)
        ||| {
            &&& self.amount_at(walk) == self.amount_at(other)
            &&& walk == other || comes_before(walk, other)
        }
    }

    /// A route that no other route beats: none yields more, and of those that yield as much
    /// it comes first.
    pub open spec fn is_best(self, walk: Seq<int>) -> bool {
        &&& self.is_route(walk)
        &&& forall|other: Seq<int>| #[trigger] self.is_route(other) ==> self.beats(walk, other)
    }

    /// The trades of the best route, if there is a route at all.
    pub open spec fn best(self) -> Option<Seq<Swap>> {
        if exists|walk: Seq<int>| self.is_best(walk) {
            Some(self.swaps(choose|walk: Seq<int>| self.is_best(walk)))
        } else {
            None
        }
    }

    /// What was found is the best route, or nothing where there is no route.
    pub open spec fn is_answered_by(self, found: Option<Vec<Swap>>) -> bool {
        match found {
            Some(route) => self.best() == Some(route@),
            None => self.best() is None && forall|walk: Seq<int>| !self.is_route(walk),
        }
    }

    /// How often a search from the end of `walk` passes over a book that is not usable.
    pub open spec fn skips(self, walk: Seq<int>) -> nat
        decreases MAX_HOPS - walk.len(), self.market.out_edges(self.token_at(walk)).len() + 1,
    {
        if self.may_go_on(walk) {
            self.skips_among(walk, self.market.out_edges(self.token_at(walk)).len())
        } else {
            0
        }
    }

    /// How often that happens among the first `n` edges that leave the end of `walk` and
    /// behind them.
    pub open spec fn skips_among(self, walk: Seq<int>, n: nat) -> nat
        decreases MAX_HOPS - walk.len(), n,
    {
        if n == 0 || walk.len() >= MAX_HOPS {
            0
        } else {
            let steps = walk.push(n - 1);
            self.skips_among(walk, (n - 1) as nat) + if !self.usable(steps) {
                1
            } else if self.tradable(steps) {
                self.skips(steps)
            } else {
                0
            }
        }
    }
}

/// The times are readings of the clock, none of them before one that was taken first.
pub open spec fn runs_on(moment: spec_fn(Seq<int>) -> Nanos, clock: Clock) -> bool {
    exists|start: Nanos| #[trigger] runs_from(moment, clock, start)
}

/// The times are readings of the clock, none of them before the reading `start`.
pub open spec fn runs_from(
    moment: spec_fn(Seq<int>) -> Nanos,
    clock: Clock,
    start: Nanos,
) -> bool {
    &&& clock.shows(start)
    &&& forall|steps: Seq<int>| clock.shows(#[trigger] moment(steps)) && start <= moment(steps)
}

/// The question of how to turn an amount of one token into the most of another in a market, with
/// the times at which the edges are looked at.
pub open spec fn asked(
    market: MarketView,
    input_token: Address,
    output_token: Address,
    input_amount: Quantity,
    moment: spec_fn(Seq<int>) -> Nanos,
) -> RouteQuery {
    RouteQuery { market, input_token, output_token, input_amount, moment }
}

/// The order of walks is transitive.
pub(crate) proof fn lemma_before_is_transitive(a: Seq<int>, b: Seq<int>, c: Seq<int>)
    requires
        comes_before(a, b),
        comes_before(b, c),
    ensures
        comes_before(a, c),
{
    if a.len() == b.len() && b.len() == c.len() {
        let i = choose|k: int|
            0 <= k < a.len() && #[trigger] a[k] < b[k] && forall|j: int| 0 <= j < k ==> a[j] == b[j];
        let j = choose|k: int|
            0 <= k < b.len() && #[trigger] b[k] < c[k] && forall|j: int| 0 <= j < k ==> b[j] == c[j];
        let k = if i <= j {
            i
        } else {
            j
        };
        assert(a[k] < c[k]);
    }
}

/// No walk comes before itself.
pub(crate) proof fn lemma_before_is_irreflexive(a: Seq<int>)
    ensures
        !comes_before(a, a),
{
}

/// Of two children the one of the earlier parent comes first.
pub(crate) proof fn lemma_children_keep_order(child: Seq<int>, parent: Seq<int>, i: int)
    requires
        child.len() > 0,
        comes_before(child.drop_last(), parent),
    ensures
        comes_before(child, parent.push(i)),
{
    let other = parent.push(i);
    let earlier = child.drop_last();
    if earlier.len() == parent.len() {
        let k = choose|k: int|
            {
                &&& 0 <= k < earlier.len()
                &&& #[trigger] earlier[k] < parent[k]
                &&& forall|j: int| 0 <= j < k ==> earlier[j] == parent[j]
            };
        assert(child[k] < other[k]);
        assert forall|j: int| 0 <= j < k implies child[j] == other[j] by {
            assert(earlier[j] == parent[j]);
        }
    }
}

/// Of two children of one parent the one over the earlier edge comes first.
pub(crate) proof fn lemma_siblings_keep_order(parent: Seq<int>, i: int, j: int)
    requires
        i < j,
    ensures
        comes_before(parent.push(i), parent.push(j)),
{
    let k = parent.len() as int;
    assert(parent.push(i)[k] < parent.push(j)[k]);
}

/// What comes before another walk is another walk, and a walk that something of at least its
/// length comes before has a step.
pub(crate) proof fn lemma_later_walk_has_steps(a: Seq<int>, b: Seq<int>)
    requires
        comes_before(a, b),
    ensures
        b.len() > 0,
        a != b,
{
}

/// Taking one more edge leads to that edge's target.
pub(crate) proof fn lemma_one_more_step(query: RouteQuery, walk: Seq<int>, i: int)
    requires
        query.is_walk(walk),
        query.may_go_on(walk),
        0 <= i < query.market.out_edges(query.token_at(walk)).len(),
    ensures
        walk.push(i).drop_last() == walk,
        query.last_edge(walk.push(i)) == query.market.out_edges(query.token_at(walk))[i],
        query.token_at(walk.push(i)) == query.market.out_edges(query.token_at(walk))[i].target,
        query.amount_at(walk.push(i)) == query.market.traded(
            query.market.out_edges(query.token_at(walk))[i],
            query.amount_at(walk),
        ).output_produced,
        query.is_walk(walk.push(i)) <==> query.tradable(walk.push(i)),
{
    assert(walk.push(i).drop_last() == walk);
}

/// Any start of a walk is a walk, and goes on where the walk is longer.
pub(crate) proof fn lemma_start_of_walk(query: RouteQuery, walk: Seq<int>, n: int)
    requires
        query.is_walk(walk),
        0 <= n <= walk.len(),
    ensures
        query.is_walk(walk.take(n)),
        n < walk.len() ==> query.may_go_on(walk.take(n)),
        n < walk.len() ==> walk.take(n + 1) == walk.take(n).push(walk[n]),
        n < walk.len() ==> 0 <= walk[n] < query.market.out_edges(
            query.token_at(walk.take(n)),
        ).len(),
        n < walk.len() ==> query.tradable(walk.take(n + 1)),
    decreases walk.len(),
{
    if n == walk.len() {
        assert(walk.take(n) == walk);
    } else {
        let start = walk.drop_last();
        lemma_start_of_walk(query, start, n);
        assert(start.take(n) == walk.take(n));
        assert(walk.take(n + 1) == walk.take(n).push(walk[n]));
        if n == start.len() {
            assert(walk.take(n) == start);
            assert(walk.take(n + 1) == walk);
        } else {
            assert(start.take(n + 1) == walk.take(n + 1));
        }
    }
}

/// There is at most one best route.
pub(crate) proof fn lemma_best_is_unique(query: RouteQuery, v: Seq<int>, w: Seq<int>)
    requires
        query.is_best(v),
        query.is_best(w),
    ensures
        v == w,
{
    assert(query.beats(v, w));
    assert(query.beats(w, v));
    if v != w {
        lemma_before_is_transitive(v, w, v);
        lemma_before_is_irreflexive(v);
    }
}

/// Where a walk leads does not depend on when its edges are looked at.
pub(crate) proof fn lemma_same_places(a: RouteQuery, b: RouteQuery, walk: Seq<int>)
    requires
        a.market.graph == b.market.graph,
        a.input_token == b.input_token,
        a.output_token == b.output_token,
        a.input_amount == b.input_amount,
    ensures
        a.token_at(walk) == b.token_at(walk),
        a.amount_at(walk) == b.amount_at(walk),
        a.may_go_on(walk) == b.may_go_on(walk),
        a.arrived(walk) == b.arrived(walk),
        walk.len() > 0 ==> a.last_edge(walk) == b.last_edge(walk),
        walk.len() > 0 ==> a.last_swap(walk) == b.last_swap(walk),
    decreases walk.len(),
{
    if walk.len() > 0 {
        lemma_same_places(a, b, walk.drop_last());
    }
}

} // verus!
