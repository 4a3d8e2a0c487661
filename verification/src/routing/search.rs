//! The breadth-first search for the best route.
use std::collections::VecDeque;

use vstd::prelude::*;

use crate::clock::{Nanos, Watch};
use crate::matching::match_order;
use crate::metrics::{count, counted, lemma_counted_twice};
use crate::routing::query::{
    asked, comes_before, lemma_before_is_irreflexive, lemma_before_is_transitive, lemma_best_is_unique,
    lemma_children_keep_order, lemma_later_walk_has_steps, lemma_one_more_step, lemma_same_places,
    lemma_siblings_keep_order, lemma_start_of_walk, MarketView, RouteQuery, MAX_HOPS,
};
use crate::routing::snapshot::RoutingSnapshot;
use crate::types::{Address, Quantity, Swap};

verus! {

/// A trade that the search has made. The trades of a path are linked from the last to the
/// first, so that paths share their beginnings.
struct PathNode {
    swap: Swap,
    /// Where the trade before this one stands, if there is one.
    parent: Option<usize>,
}

/// A place that the search has reached and not yet looked at.
struct Visit {
    token: Address,
    amount: u64,
    hops: usize,
    /// Where the trade that led here stands, if there is one.
    parent: Option<usize>,
}

/// Every node's parent stands before it.
spec fn linked(arena: Seq<PathNode>) -> bool {
    forall|i: int|
        #![trigger arena[i]]
        0 <= i < arena.len() ==> (arena[i].parent matches Some(p) ==> p < i)
}

/// The trades of the path that ends with a node, first to last.
spec fn path_to(arena: Seq<PathNode>, i: int) -> Seq<Swap>
    decreases i,
{
    match arena[i].parent {
        Some(p) if 0 <= p < i => path_to(arena, p as int).push(arena[i].swap),
        _ => seq![arena[i].swap],
    }
}

/// The nodes are the last trades of walks, and each walk's start is the walk of its node's
/// parent.
spec fn arena_ok(query: RouteQuery, arena: Seq<PathNode>, walks: Seq<Seq<int>>) -> bool {
    &&& arena.len() == walks.len()
    &&& forall|i: int|
        #![trigger arena[i]]
        #![trigger walks[i]]
        0 <= i < arena.len() ==> {
            &&& query.is_walk(walks[i])
            &&& walks[i].len() > 0
            &&& arena[i].swap == query.last_swap(walks[i])
            &&& match arena[i].parent {
                Some(p) => p < i && walks[p as int] == walks[i].drop_last(),
                None => walks[i].len() == 1,
            }
        }
}

/// A visit is at the end of its walk, which the arena has.
spec fn visit_ok(query: RouteQuery, visit: Visit, walk: Seq<int>, walks: Seq<Seq<int>>) -> bool {
    &&& query.is_walk(walk)
    &&& visit.token == query.token_at(walk)
    &&& visit.amount == query.amount_at(walk)
    &&& visit.hops == walk.len()
    &&& match visit.parent {
        Some(p) => p < walks.len() && walks[p as int] == walk,
        None => walk.len() == 0,
    }
}

/// The waiting visits are those at the ends of the frontier's walks.
spec fn queue_ok(
    query: RouteQuery,
    queue: Seq<Visit>,
    frontier: Seq<Seq<int>>,
    walks: Seq<Seq<int>>,
) -> bool {
    &&& queue.len() == frontier.len()
    &&& forall|i: int|
        #![trigger queue[i]]
        #![trigger frontier[i]]
        0 <= i < queue.len() ==> visit_ok(query, queue[i], frontier[i], walks)
}

/// The frontier is in order.
spec fn in_order(frontier: Seq<Seq<int>>) -> bool {
    forall|i: int, j: int|
        0 <= i < j < frontier.len() ==> comes_before(#[trigger] frontier[i], #[trigger] frontier[j])
}

/// What the frontier's walks were made from comes before all of them.
spec fn parents_are_past(frontier: Seq<Seq<int>>) -> bool {
    forall|i: int, j: int|
        0 <= i < frontier.len() && 0 <= j < frontier.len() && (#[trigger] frontier[i]).len() > 0
            ==> comes_before(frontier[i].drop_last(), #[trigger] frontier[j])
}

/// The walks of the frontier come after `walk`, and each was made from something before it or
/// from `walk` itself over one of its first `n` edges.
spec fn children_of(frontier: Seq<Seq<int>>, walk: Seq<int>, n: int) -> bool {
    forall|i: int|
        #![trigger frontier[i]]
        0 <= i < frontier.len() ==> {
            &&& comes_before(walk, frontier[i])
            &&& frontier[i].len() > 0
            &&& comes_before(frontier[i].drop_last(), walk) || (frontier[i].drop_last() == walk
                && frontier[i].last() < n)
        }
}

/// Some walk of the frontier is the start of `walk`.
spec fn leads_to(frontier: Seq<Seq<int>>, walk: Seq<int>) -> bool {
    exists|i: int| 0 <= i < frontier.len() && (#[trigger] frontier[i]).is_prefix_of(walk)
}

/// The best route so far, if there is one, comes before the frontier.
spec fn best_ok(
    query: RouteQuery,
    best: Option<Seq<int>>,
    best_output: u64,
    frontier: Seq<Seq<int>>,
) -> bool {
    match best {
        None => best_output == 0,
        Some(route) => {
            &&& query.is_route(route)
            &&& best_output == query.amount_at(route)
            &&& forall|i: int| 0 <= i < frontier.len() ==> comes_before(route, #[trigger] frontier[i])
        },
    }
}

/// The best route so far beats `walk`.
spec fn beaten(query: RouteQuery, best: Option<Seq<int>>, walk: Seq<int>) -> bool {
    best matches Some(route) && query.beats(route, walk)
}

/// The number of places that a search from the end of `walk` visits.
spec fn visits(query: RouteQuery, walk: Seq<int>) -> nat
    decreases MAX_HOPS - walk.len(), query.market.out_edges(query.token_at(walk)).len() + 1,
{
    if query.may_go_on(walk) {
        1 + visits_among(query, walk, query.market.out_edges(query.token_at(walk)).len())
    } else {
        1
    }
}

/// The number of those behind the first `n` edges that leave the end of `walk`.
spec fn visits_among(query: RouteQuery, walk: Seq<int>, n: nat) -> nat
    decreases MAX_HOPS - walk.len(), n,
{
    if n == 0 || walk.len() >= MAX_HOPS {
        0
    } else {
        visits_among(query, walk, (n - 1) as nat) + if query.tradable(walk.push(n - 1)) {
            visits(query, walk.push(n - 1))
        } else {
            0
        }
    }
}

/// The visits still to come from the whole frontier.
spec fn all_visits(query: RouteQuery, frontier: Seq<Seq<int>>) -> nat
    decreases frontier.len(),
{
    if frontier.len() == 0 {
        0
    } else {
        all_visits(query, frontier.drop_last()) + visits(query, frontier.last())
    }
}

/// The books still to be passed over from the whole frontier.
spec fn all_skips(query: RouteQuery, frontier: Seq<Seq<int>>) -> nat
    decreases frontier.len(),
{
    if frontier.len() == 0 {
        0
    } else {
        all_skips(query, frontier.drop_last()) + query.skips(frontier.last())
    }
}

/// Taking the first walk away takes its share away.
proof fn lemma_first_share(query: RouteQuery, frontier: Seq<Seq<int>>)
    requires
        frontier.len() > 0,
    ensures
        all_visits(query, frontier) == visits(query, frontier[0]) + all_visits(
            query,
            frontier.drop_first(),
        ),
        all_skips(query, frontier) == query.skips(frontier[0]) + all_skips(
            query,
            frontier.drop_first(),
        ),
    decreases frontier.len(),
{
    let rest = frontier.drop_last();
    if rest.len() > 0 {
        lemma_first_share(query, rest);
        assert(rest[0] == frontier[0]);
        assert(frontier.drop_first().drop_last() == rest.drop_first());
        assert(frontier.drop_first().last() == frontier.last());
    } else {
        assert(all_visits(query, rest) == 0 && all_skips(query, rest) == 0);
        assert(frontier.drop_first() == rest);
    }
}

/// Adding a walk adds its share.
proof fn lemma_added_share(query: RouteQuery, frontier: Seq<Seq<int>>, walk: Seq<int>)
    ensures
        all_visits(query, frontier.push(walk)) == all_visits(query, frontier) + visits(query, walk),
        all_skips(query, frontier.push(walk)) == all_skips(query, frontier) + query.skips(walk),
{
    assert(frontier.push(walk).drop_last() == frontier);
}

/// A child over the next edge goes to the end of the frontier.
proof fn lemma_child_goes_last(frontier: Seq<Seq<int>>, walk: Seq<int>, n: int)
    requires
        in_order(frontier),
        children_of(frontier, walk, n),
    ensures
        in_order(frontier.push(walk.push(n))),
        children_of(frontier.push(walk.push(n)), walk, n + 1),
{
    let child = walk.push(n);
    let longer = frontier.push(child);
    assert(child.drop_last() == walk);
    assert forall|i: int| 0 <= i < frontier.len() implies comes_before(
        #[trigger] frontier[i],
        child,
    ) by {
        if comes_before(frontier[i].drop_last(), walk) {
            lemma_children_keep_order(frontier[i], walk, n);
        } else {
            lemma_siblings_keep_order(walk, frontier[i].last(), n);
            assert(frontier[i] == walk.push(frontier[i].last()));
        }
    }
    assert forall|i: int, j: int| 0 <= i < j < longer.len() implies comes_before(
        #[trigger] longer[i],
        #[trigger] longer[j],
    ) by {
        if j < frontier.len() {
            assert(comes_before(frontier[i], frontier[j]));
        } else {
            assert(comes_before(frontier[i], child));
        }
    }
    assert forall|i: int| #![trigger longer[i]] 0 <= i < longer.len() implies {
        &&& comes_before(walk, longer[i])
        &&& longer[i].len() > 0
        &&& comes_before(longer[i].drop_last(), walk) || (longer[i].drop_last() == walk
            && longer[i].last() < n + 1)
    } by {
        if i < frontier.len() {
            assert(longer[i] == frontier[i]);
        }
    }
}

/// When the first walk is taken away, what is left comes after it.
proof fn lemma_first_is_past(frontier: Seq<Seq<int>>)
    requires
        frontier.len() > 0,
        in_order(frontier),
        parents_are_past(frontier),
    ensures
        in_order(frontier.drop_first()),
        parents_are_past(frontier.drop_first()),
        children_of(frontier.drop_first(), frontier[0], 0),
{
    let rest = frontier.drop_first();
    assert forall|i: int| #![trigger rest[i]] 0 <= i < rest.len() implies {
        &&& comes_before(frontier[0], rest[i])
        &&& rest[i].len() > 0
        &&& comes_before(rest[i].drop_last(), frontier[0])
    } by {
        assert(rest[i] == frontier[i + 1]);
        assert(comes_before(frontier[0], frontier[i + 1]));
        lemma_later_walk_has_steps(frontier[0], rest[i]);
        assert(comes_before(frontier[i + 1].drop_last(), frontier[0]));
    }
    assert forall|i: int, j: int| 0 <= i < j < rest.len() implies comes_before(
        #[trigger] rest[i],
        #[trigger] rest[j],
    ) by {
        assert(comes_before(frontier[i + 1], frontier[j + 1]));
    }
    assert forall|i: int, j: int|
        0 <= i < rest.len() && 0 <= j < rest.len() && (#[trigger] rest[i]).len() > 0 implies comes_before(
        rest[i].drop_last(),
        #[trigger] rest[j],
    ) by {
        assert(comes_before(frontier[i + 1].drop_last(), frontier[j + 1]));
    }
}

/// Children of a walk that everything comes after have parents that are past.
proof fn lemma_parents_are_past(frontier: Seq<Seq<int>>, walk: Seq<int>, n: int)
    requires
        children_of(frontier, walk, n),
    ensures
        parents_are_past(frontier),
{
    assert forall|i: int, j: int|
        0 <= i < frontier.len() && 0 <= j < frontier.len() && (#[trigger] frontier[i]).len()
            > 0 implies comes_before(frontier[i].drop_last(), #[trigger] frontier[j]) by {
        if comes_before(frontier[i].drop_last(), walk) {
            lemma_before_is_transitive(frontier[i].drop_last(), walk, frontier[j]);
        }
    }
}

/// The nodes' links lead along the walks.
proof fn lemma_path_is_walk(query: RouteQuery, arena: Seq<PathNode>, walks: Seq<Seq<int>>, i: int)
    requires
        arena_ok(query, arena, walks),
        0 <= i < arena.len(),
    ensures
        path_to(arena, i) == query.swaps(walks[i]),
    decreases i,
{
    let walk = walks[i];
    assert(arena[i].swap == query.last_swap(walk));
    match arena[i].parent {
        Some(p) => {
            lemma_path_is_walk(query, arena, walks, p as int);
        },
        None => {
            assert(walk.drop_last().len() == 0);
            assert(query.swaps(walk.drop_last()) == Seq::<Swap>::empty());
            assert(query.swaps(walk) == seq![arena[i].swap]);
        },
    }
}

/// Returns the trades of the path that ends with a node, first to last.
fn reconstruct_path(arena: &Vec<PathNode>, end: usize) -> (path: Vec<Swap>)
    requires
        linked(arena@),
        end < arena.len(),
    ensures
        path@ == path_to(arena@, end as int),
{
    let mut backwards: Vec<Swap> = Vec::with_capacity(MAX_HOPS);
    let mut at: usize = end;
    loop
        invariant_except_break
            linked(arena@),
            at < arena.len(),
            path_to(arena@, end as int) == path_to(arena@, at as int) + backwards@.reverse(),
        ensures
            path_to(arena@, end as int) == backwards@.reverse(),
        decreases at,
    {
        let node = &arena[at];
        let ghost tail = backwards@;
        backwards.push(node.swap);
        assert(backwards@.reverse() == seq![node.swap] + tail.reverse());
        match node.parent {
            Some(parent) => {
                proof {
                    let start = path_to(arena@, parent as int);
                    assert(start.push(node.swap) + tail.reverse() == start + (seq![node.swap]
                        + tail.reverse()));
                }
                at = parent;
            },
            None => {
                break;
            },
        }
    }
    let mut path: Vec<Swap> = Vec::with_capacity(MAX_HOPS);
    let ghost all = backwards@;
    while backwards.len() > 0
        invariant
            all.reverse() == path@ + backwards@.reverse(),
        decreases backwards@.len(),
    {
        let ghost before = backwards@;
        match backwards.pop() {
            Some(swap) => {
                assert(before.reverse() == seq![swap] + backwards@.reverse());
                path.push(swap);
            },
            None => {},
        }
    }
    path
}

/// `other` is longer than `walk`, starts with it and then takes the `n`th edge or a later one.
spec fn goes_on_from(walk: Seq<int>, other: Seq<int>, n: int) -> bool {
    walk.is_prefix_of(other) && walk.len() < other.len() && other[walk.len() as int] >= n
}

/// A walk that does not go on can be settled: the routes that it was the start of are the walk
/// itself, if that.
proof fn lemma_settled(
    query: RouteQuery,
    whole: Seq<Seq<int>>,
    best_before: Option<Seq<int>>,
    output_before: u64,
    best: Option<Seq<int>>,
    output: u64,
)
    requires
        whole.len() > 0,
        in_order(whole),
        query.is_walk(whole[0]),
        !query.may_go_on(whole[0]),
        best_ok(query, best_before, output_before, whole),
        forall|walk: Seq<int>| #[trigger]
            query.is_route(walk) ==> leads_to(whole, walk) || beaten(query, best_before, walk),
        if query.arrived(whole[0]) && query.amount_at(whole[0]) > output_before {
            best == Some(whole[0]) && output == query.amount_at(whole[0])
        } else {
            best == best_before && output == output_before
        },
    ensures
        best_ok(query, best, output, whole.drop_first()),
        forall|walk: Seq<int>| #[trigger]
            query.is_route(walk) ==> leads_to(whole.drop_first(), walk) || beaten(
                query,
                best,
                walk,
            ),
{
    let first = whole[0];
    let rest = whole.drop_first();
    assert forall|i: int| 0 <= i < rest.len() implies #[trigger] rest[i] == whole[i + 1] by {}
    assert forall|walk: Seq<int>| #[trigger] query.is_route(walk) implies leads_to(rest, walk)
        || beaten(query, best, walk) by {
        if leads_to(whole, walk) {
            let i = choose|i: int|
                0 <= i < whole.len() && (#[trigger] whole[i]).is_prefix_of(walk);
            if i > 0 {
                assert(rest[i - 1].is_prefix_of(walk));
            } else {
                let n = first.len() as int;
                assert(walk.take(n) == first);
                if n < walk.len() {
                    lemma_start_of_walk(query, walk, n);
                } else {
                    assert(walk == first);
                }
            }
        }
    }
}

/// A route that starts with a walk that has not arrived goes on from it.
proof fn lemma_where_routes_go(
    query: RouteQuery,
    whole: Seq<Seq<int>>,
    best: Option<Seq<int>>,
    other: Seq<int>,
)
    requires
        whole.len() > 0,
        !query.arrived(whole[0]),
        query.is_route(other),
        leads_to(whole, other) || beaten(query, best, other),
    ensures
        leads_to(whole.drop_first(), other) || beaten(query, best, other) || goes_on_from(
            whole[0],
            other,
            0,
        ),
{
    if leads_to(whole, other) {
        let i = choose|i: int| 0 <= i < whole.len() && (#[trigger] whole[i]).is_prefix_of(other);
        if i > 0 {
            assert(whole.drop_first()[i - 1].is_prefix_of(other));
        } else {
            let n = whole[0].len() as int;
            assert(other.take(n) == whole[0]);
            if n < other.len() {
                lemma_start_of_walk(query, other, n);
            } else {
                assert(other == whole[0]);
            }
        }
    }
}

/// Once an edge has been looked at, the routes over it are led to by the child that it gave.
proof fn lemma_next_edge(
    query: RouteQuery,
    before: Seq<Seq<int>>,
    after: Seq<Seq<int>>,
    walk: Seq<int>,
    i: int,
    other: Seq<int>,
)
    requires
        query.is_walk(walk),
        query.may_go_on(walk),
        0 <= i < query.market.out_edges(query.token_at(walk)).len(),
        if query.tradable(walk.push(i)) {
            after == before.push(walk.push(i))
        } else {
            after == before
        },
        query.is_route(other),
        leads_to(before, other) || goes_on_from(walk, other, i),
    ensures
        leads_to(after, other) || goes_on_from(walk, other, i + 1),
{
    if leads_to(before, other) {
        let k = choose|k: int| 0 <= k < before.len() && (#[trigger] before[k]).is_prefix_of(other);
        assert(after[k].is_prefix_of(other));
    } else if other[walk.len() as int] == i {
        let n = walk.len() as int;
        assert(other.take(n) == walk);
        lemma_start_of_walk(query, other, n);
        assert(walk.push(i) == other.take(n + 1));
        assert(after[before.len() as int].is_prefix_of(other));
    }
}

/// How far a search has come.
struct Progress {
    arena: Seq<PathNode>,
    /// The walks that the arena's nodes end.
    walks: Seq<Seq<int>>,
    queue: Seq<Visit>,
    /// The walks that the waiting visits end.
    frontier: Seq<Seq<int>>,
    /// The best route so far.
    best: Option<Seq<int>>,
    best_output: u64,
    /// How often a book was passed over.
    skipped: nat,
}

/// Between two visits: every route is led to from the frontier or beaten by the best so far, and
/// the books still to be passed over are those that the frontier leads to.
spec fn between_visits(query: RouteQuery, p: Progress) -> bool {
    &&& arena_ok(query, p.arena, p.walks)
    &&& queue_ok(query, p.queue, p.frontier, p.walks)
    &&& best_ok(query, p.best, p.best_output, p.frontier)
    &&& forall|walk: Seq<int>| #[trigger]
        query.is_route(walk) ==> leads_to(p.frontier, walk) || beaten(query, p.best, walk)
    &&& p.skipped + all_skips(query, p.frontier) == query.skips(Seq::empty())
}

/// During a visit, when the first `n` edges have been looked at.
spec fn during_visit(query: RouteQuery, p: Progress, visit: Visit, walk: Seq<int>, n: nat) -> bool {
    &&& visit_ok(query, visit, walk, p.walks)
    &&& query.may_go_on(walk)
    &&& arena_ok(query, p.arena, p.walks)
    &&& queue_ok(query, p.queue, p.frontier, p.walks)
    &&& best_ok(query, p.best, p.best_output, p.frontier)
    &&& p.best matches Some(route) ==> comes_before(route, walk)
    &&& forall|other: Seq<int>| #[trigger]
        query.is_route(other) ==> {
            ||| leads_to(p.frontier, other)
            ||| beaten(query, p.best, other)
            ||| goes_on_from(walk, other, n as int)
        }
    &&& p.skipped + all_skips(query, p.frontier) + query.skips(walk) == query.skips(Seq::empty())
        + query.skips_among(walk, n)
}

/// After the first visit was taken from the queue.
spec fn without_first(p: Progress) -> Progress {
    Progress { queue: p.queue.drop_first(), frontier: p.frontier.drop_first(), ..p }
}

/// Taking the first visit from the queue leaves the others as they were.
proof fn lemma_others_wait(query: RouteQuery, p: Progress)
    requires
        queue_ok(query, p.queue, p.frontier, p.walks),
        p.frontier.len() > 0,
    ensures
        queue_ok(query, p.queue.drop_first(), p.frontier.drop_first(), p.walks),
        visit_ok(query, p.queue[0], p.frontier[0], p.walks),
{
    let queue = p.queue.drop_first();
    let frontier = p.frontier.drop_first();
    assert forall|i: int|
        #![trigger queue[i]]
        #![trigger frontier[i]]
        0 <= i < queue.len() implies visit_ok(query, queue[i], frontier[i], p.walks) by {
        assert(queue[i] == p.queue[i + 1]);
        assert(frontier[i] == p.frontier[i + 1]);
    }
}

/// A visit that does not go on is over when it has been weighed against the best so far.
proof fn lemma_end_of_walk(query: RouteQuery, p: Progress, best: Option<Seq<int>>, best_output: u64)
    requires
        between_visits(query, p),
        p.frontier.len() > 0,
        in_order(p.frontier),
        !query.may_go_on(p.frontier[0]),
        if query.arrived(p.frontier[0]) && query.amount_at(p.frontier[0]) > p.best_output {
            best == Some(p.frontier[0]) && best_output == query.amount_at(p.frontier[0])
        } else {
            best == p.best && best_output == p.best_output
        },
    ensures
        between_visits(query, (Progress { best, best_output, ..without_first(p) })),
{
    lemma_others_wait(query, p);
    lemma_first_share(query, p.frontier);
    lemma_settled(query, p.frontier, p.best, p.best_output, best, best_output);
}

/// A visit that goes on begins.
proof fn lemma_start_of_visit(query: RouteQuery, p: Progress)
    requires
        between_visits(query, p),
        p.frontier.len() > 0,
        query.may_go_on(p.frontier[0]),
    ensures
        during_visit(query, without_first(p), p.queue[0], p.frontier[0], 0),
{
    let rest = p.frontier.drop_first();
    lemma_others_wait(query, p);
    lemma_first_share(query, p.frontier);
    assert forall|other: Seq<int>| #[trigger] query.is_route(other) implies {
        ||| leads_to(rest, other)
        ||| beaten(query, p.best, other)
        ||| goes_on_from(p.frontier[0], other, 0)
    } by {
        lemma_where_routes_go(query, p.frontier, p.best, other);
    }
    assert(best_ok(query, p.best, p.best_output, rest)) by {
        assert forall|k: int| 0 <= k < rest.len() implies #[trigger] rest[k] == p.frontier[k + 1] by {}
    }
}

/// After one more edge, reached by the steps `child`, was looked at: it was passed over, led to a
/// new visit, or led nowhere.
spec fn after_edge(query: RouteQuery, p: Progress, visit: Visit, child: Seq<int>) -> Progress {
    if !query.usable(child) {
        Progress { skipped: p.skipped + 1, ..p }
    } else if query.tradable(child) {
        Progress {
            arena: p.arena.push(PathNode { swap: query.last_swap(child), parent: visit.parent }),
            walks: p.walks.push(child),
            queue: p.queue.push(
                Visit {
                    token: query.token_at(child),
                    amount: query.amount_at(child),
                    hops: child.len() as usize,
                    parent: Some(p.arena.len() as usize),
                },
            ),
            frontier: p.frontier.push(child),
            ..p
        }
    } else {
        p
    }
}

/// Looking at one more edge.
proof fn lemma_one_more_edge(query: RouteQuery, p: Progress, visit: Visit, walk: Seq<int>, n: nat)
    requires
        during_visit(query, p, visit, walk, n),
        n < query.market.out_edges(query.token_at(walk)).len(),
        p.arena.len() <= usize::MAX,
    ensures
        during_visit(
            query,
            after_edge(query, p, visit, walk.push(n as int)),
            visit,
            walk,
            n + 1,
        ),
{
    let child = walk.push(n as int);
    let after = after_edge(query, p, visit, child);
    lemma_one_more_step(query, walk, n as int);
    if query.tradable(child) {
        lemma_added_share(query, p.frontier, child);
        if p.best is Some {
            lemma_before_is_transitive(p.best->0, walk, child);
        }
        assert forall|i: int|
            #![trigger after.queue[i]]
            #![trigger after.frontier[i]]
            0 <= i < after.queue.len() implies visit_ok(
            query,
            after.queue[i],
            after.frontier[i],
            after.walks,
        ) by {
            if i < p.queue.len() {
                assert(after.queue[i] == p.queue[i] && after.frontier[i] == p.frontier[i]);
            }
        }
    }
    assert forall|other: Seq<int>| #[trigger] query.is_route(other) implies {
        ||| leads_to(after.frontier, other)
        ||| beaten(query, after.best, other)
        ||| goes_on_from(walk, other, n as int + 1)
    } by {
        if !beaten(query, p.best, other) {
            lemma_next_edge(query, p.frontier, after.frontier, walk, n as int, other);
        }
    }
    assert(query.skips_among(walk, n + 1) == query.skips_among(walk, n) + if !query.usable(child) {
        1
    } else if query.tradable(child) {
        query.skips(child)
    } else {
        0
    });
}

/// When all edges have been looked at the visit is over.
proof fn lemma_end_of_visit(query: RouteQuery, p: Progress, visit: Visit, walk: Seq<int>, n: nat)
    requires
        during_visit(query, p, visit, walk, n),
        n == query.market.out_edges(query.token_at(walk)).len(),
    ensures
        between_visits(query, p),
{
    assert forall|other: Seq<int>| #[trigger] query.is_route(other) implies leads_to(
        p.frontier,
        other,
    ) || beaten(query, p.best, other) by {
        if goes_on_from(walk, other, n as int) {
            lemma_start_of_walk(query, other, walk.len() as int);
            assert(other.take(walk.len() as int) == walk);
        }
    }
}

/// The query is `base` with some times, among them those at which the search has looked so far.
spec fn agrees(query: RouteQuery, base: RouteQuery, seen: Map<Seq<int>, Nanos>) -> bool {
    &&& query == (RouteQuery { moment: query.moment, ..base })
    &&& forall|steps: Seq<int>| #[trigger]
        seen.contains_key(steps) ==> (query.moment)(steps) == seen[steps]
}

/// `base` with the times at which the search has looked so far, and `other` for the rest.
spec fn completed(base: RouteQuery, seen: Map<Seq<int>, Nanos>, other: Nanos) -> RouteQuery {
    RouteQuery {
        moment: |steps: Seq<int>|
            if seen.contains_key(steps) {
                seen[steps]
            } else {
                other
            },
        ..base
    }
}

/// The edges looked at so far left walks that come before all of the frontier.
spec fn looked_before(seen: Map<Seq<int>, Nanos>, frontier: Seq<Seq<int>>) -> bool {
    forall|steps: Seq<int>, i: int|
        seen.contains_key(steps) && 0 <= i < frontier.len() ==> comes_before(
            steps.drop_last(),
            #[trigger] frontier[i],
        ) && #[trigger] seen.contains_key(steps)
}

/// The edges looked at so far left walks before `walk`, or are among the first `n` that leave its
/// end.
spec fn looked_up_to(seen: Map<Seq<int>, Nanos>, walk: Seq<int>, n: int) -> bool {
    forall|steps: Seq<int>| #[trigger]
        seen.contains_key(steps) ==> comes_before(steps.drop_last(), walk) || (steps.drop_last()
            == walk && steps.last() < n)
}

/// None of the times is before the time `start` that the watch showed first.
pub(crate) open spec fn goes_on_from_time(
    moment: spec_fn(Seq<int>) -> Nanos,
    watch: Watch,
    start: Nanos,
) -> bool {
    watch.may_show(start) && forall|steps: Seq<int>| start <= #[trigger] moment(steps)
}

/// None of the times is before one that the watch showed first.
pub(crate) open spec fn goes_on(moment: spec_fn(Seq<int>) -> Nanos, watch: Watch) -> bool {
    exists|start: Nanos| #[trigger] goes_on_from_time(moment, watch, start)
}

/// Searches a snapshot for the best route. Returns it with the number of times that a book was
/// passed over because it was not usable, as a counter that wraps around.
///
/// The search goes breadth first, so that it reaches the walks in their order; the first route
/// to yield as much as any is therefore the first of the best. Each time that it looks at an edge
/// it reads the snapshot's watch.
pub(crate) fn search(
    snapshot: &RoutingSnapshot,
    input_token: Address,
    output_token: Address,
    input_amount: Quantity,
) -> (found: (Option<Vec<Swap>>, u64))
    requires
        snapshot.wf(),
    ensures
        exists|moment: spec_fn(Seq<int>) -> Nanos|
            {
                let query = #[trigger] asked(
                    snapshot.market(),
                    input_token,
                    output_token,
                    input_amount,
                    moment,
                );
                &&& forall|steps: Seq<int>| snapshot.watch().may_show(#[trigger] moment(steps))
                &&& goes_on(moment, snapshot.watch())
                &&& query.is_answered_by(found.0)
                &&& found.1 == counted(0, query.skips(Seq::empty()))
            },
{
    let start: Nanos = snapshot.time();
    let ghost base = asked(
        snapshot.market(),
        input_token,
        output_token,
        input_amount,
        |steps: Seq<int>| 0,
    );
    // The same question with every book usable bounds the search.
    let ghost reach = RouteQuery {
        market: MarketView { metas: None, ..snapshot.market() },
        ..base
    };
    let mut arena: Vec<PathNode> = Vec::new();
    let mut queue: VecDeque<Visit> = VecDeque::new();
    queue.push_back(Visit { token: input_token, amount: input_amount, hops: 0, parent: None });
    let mut best_output: u64 = 0;
    let mut best_path_end: Option<usize> = None;
    let mut skipped: u64 = 0;
    let ghost mut seen: Map<Seq<int>, Nanos> = Map::empty();
    let ghost mut p = Progress {
        arena: arena@,
        walks: Seq::empty(),
        queue: queue@,
        frontier: seq![Seq::<int>::empty()],
        best: None,
        best_output,
        skipped: 0,
    };
    proof {
        assert(p.frontier == Seq::<Seq<int>>::empty().push(Seq::<int>::empty()));
        assert forall|query: RouteQuery| #[trigger] agrees(query, base, seen) implies between_visits(
            query,
            p,
        ) by {
            lemma_added_share(query, Seq::empty(), Seq::empty());
            assert forall|walk: Seq<int>| #[trigger] query.is_route(walk) implies leads_to(
                p.frontier,
                walk,
            ) by {
                assert(p.frontier[0].is_prefix_of(walk));
            }
        }
    }
    while queue.len() > 0
        invariant
            snapshot.wf(),
            snapshot.watch().may_show(start),
            base == asked(
                snapshot.market(),
                input_token,
                output_token,
                input_amount,
                base.moment,
            ),
            reach == (RouteQuery {
                market: MarketView { metas: None, ..snapshot.market() },
                ..base
            }),
            p.arena == arena@,
            p.queue == queue@,
            p.queue.len() == p.frontier.len(),
            p.arena.len() == p.walks.len(),
            p.best_output == best_output,
            skipped == counted(0, p.skipped),
            match best_path_end {
                Some(end) => end < p.walks.len() && p.best == Some(p.walks[end as int]),
                None => p.best is None,
            },
            in_order(p.frontier),
            parents_are_past(p.frontier),
            looked_before(seen, p.frontier),
            forall|steps: Seq<int>| #[trigger]
                seen.contains_key(steps) ==> snapshot.watch().may_show(seen[steps])
                    && start <= seen[steps],
            forall|query: RouteQuery| #[trigger]
                agrees(query, base, seen) ==> between_visits(query, p),
        decreases all_visits(reach, p.frontier),
    {
        let ghost walk = p.frontier[0];
        let ghost before = p;
        let ghost now_known = completed(base, seen, 0);
        proof {
            lemma_first_share(reach, p.frontier);
            lemma_first_is_past(p.frontier);
            assert(agrees(now_known, base, seen));
            lemma_others_wait(now_known, p);
            lemma_same_places(now_known, base, walk);
            lemma_same_places(reach, base, walk);
            p = without_first(p);
        }
        match queue.pop_front() {
            Some(visit) => {
                assert(visit == before.queue[0]);
                assert(queue@ == before.queue.drop_first());
                let arrived = visit.token == output_token && visit.parent.is_some();
                assert(arrived == base.arrived(walk));
                if arrived || visit.hops >= MAX_HOPS {
                    if arrived && visit.amount > best_output {
                        best_output = visit.amount;
                        best_path_end = visit.parent;
                        proof {
                            p = Progress { best: Some(walk), best_output, ..p };
                        }
                    }
                    proof {
                        assert forall|query: RouteQuery| #[trigger] agrees(
                            query,
                            base,
                            seen,
                        ) implies between_visits(query, p) by {
                            lemma_same_places(query, base, walk);
                            lemma_end_of_walk(query, before, p.best, p.best_output);
                        }
                        assert(looked_before(seen, p.frontier)) by {
                            assert forall|i: int| 0 <= i < p.frontier.len() implies #[trigger] p.frontier[i]
                                == before.frontier[i + 1] by {}
                        }
                    }
                } else {
                    let edges = snapshot.neighbors(&visit.token);
                    let ghost rest = p.frontier;
                    let mut i: usize = 0;
                    proof {
                        assert forall|query: RouteQuery| #[trigger] agrees(
                            query,
                            base,
                            seen,
                        ) implies during_visit(query, p, visit, walk, 0) by {
                            lemma_same_places(query, base, walk);
                            lemma_start_of_visit(query, before);
                        }
                        assert forall|steps: Seq<int>| #[trigger] seen.contains_key(
                            steps,
                        ) implies comes_before(steps.drop_last(), walk) by {
                            assert(before.frontier[0] == walk);
                        }
                    }
                    while i < edges.len()
                        invariant
                            snapshot.wf(),
                            snapshot.watch().may_show(start),
                            base == asked(
                                snapshot.market(),
                                input_token,
                                output_token,
                                input_amount,
                                base.moment,
                            ),
                            reach == (RouteQuery {
                                market: MarketView { metas: None, ..snapshot.market() },
                                ..base
                            }),
                            p.arena == arena@,
                            p.queue == queue@,
                            p.queue.len() == p.frontier.len(),
                            p.arena.len() == p.walks.len(),
                            p.best_output == best_output,
                            skipped == counted(0, p.skipped),
                            match best_path_end {
                                Some(end) => end < p.walks.len() && p.best == Some(
                                    p.walks[end as int],
                                ),
                                None => p.best is None,
                            },
                            base.may_go_on(walk),
                            visit.token == base.token_at(walk),
                            visit.amount == base.amount_at(walk),
                            visit.hops == walk.len(),
                            edges@ == base.market.out_edges(visit.token),
                            i <= edges@.len(),
                            in_order(p.frontier),
                            children_of(p.frontier, walk, i as int),
                            looked_up_to(seen, walk, i as int),
                            forall|steps: Seq<int>| #[trigger]
                                seen.contains_key(steps) ==> snapshot.watch().may_show(seen[steps])
                    && start <= seen[steps],
                            forall|query: RouteQuery| #[trigger]
                                agrees(query, base, seen) ==> during_visit(
                                    query,
                                    p,
                                    visit,
                                    walk,
                                    i as nat,
                                ),
                            all_visits(reach, p.frontier) <= all_visits(reach, rest) + visits_among(
                                reach,
                                walk,
                                i as nat,
                            ),
                        decreases edges@.len() - i,
                    {
                        let edge = edges[i];
                        let ghost child = walk.push(i as int);
                        let ghost earlier = seen;
                        let ghost before = p;
                        let (usable, looked) = snapshot.is_usable(&edge.pair, start);
                        proof {
                            assert(before.arena.len() == arena.len());
                            assert(child.drop_last() == walk);
                            lemma_same_places(reach, base, child);
                            lemma_same_places(reach, base, walk);
                            lemma_before_is_irreflexive(walk);
                            assert(!seen.contains_key(child));
                            seen = seen.insert(child, looked@);
                            assert forall|query: RouteQuery| #[trigger] agrees(
                                query,
                                base,
                                seen,
                            ) implies agrees(query, base, earlier) && query.usable(child) == usable by {
                                assert forall|steps: Seq<int>| #[trigger] earlier.contains_key(
                                    steps,
                                ) implies (query.moment)(steps) == earlier[steps] by {
                                    assert(seen.contains_key(steps));
                                }
                                assert(seen.contains_key(child));
                                lemma_same_places(query, base, child);
                                lemma_same_places(query, base, walk);
                            }
                        }
                        if !usable {
                            proof {
                                lemma_counted_twice(0, p.skipped, 1);
                                p = Progress { skipped: p.skipped + 1, ..p };
                            }
                            skipped = count(skipped, 1);
                        } else {
                            match snapshot.get_orderbook(&edge.pair) {
                                None => {},
                                Some(book) => {
                                    let result = match_order(book, edge.side, visit.amount);
                                    if result.output_produced > 0 {
                                        let node_idx: usize = arena.len();
                                        arena.push(
                                            PathNode {
                                                swap: Swap {
                                                    input_token: visit.token,
                                                    output_token: edge.target,
                                                    direction: edge.side,
                                                    input_amount: result.input_consumed,
                                                    expected_output_amount: result.output_produced,
                                                },
                                                parent: visit.parent,
                                            },
                                        );
                                        queue.push_back(
                                            Visit {
                                                token: edge.target,
                                                amount: result.output_produced,
                                                hops: visit.hops + 1,
                                                parent: Some(node_idx),
                                            },
                                        );
                                        proof {
                                            lemma_child_goes_last(p.frontier, walk, i as int);
                                            lemma_added_share(reach, p.frontier, child);
                                            p = Progress {
                                                arena: arena@,
                                                walks: p.walks.push(child),
                                                queue: queue@,
                                                frontier: p.frontier.push(child),
                                                ..p
                                            };
                                        }
                                    }
                                },
                            }
                        }
                        proof {
                            assert forall|query: RouteQuery| #[trigger] agrees(
                                query,
                                base,
                                seen,
                            ) implies during_visit(query, p, visit, walk, (i + 1) as nat) by {
                                assert(agrees(query, base, earlier));
                                lemma_same_places(query, base, child);
                                lemma_same_places(query, base, walk);
                                lemma_one_more_edge(query, before, visit, walk, i as nat);
                                assert(p == after_edge(query, before, visit, child));
                            }
                        }
                        i += 1;
                    }
                    proof {
                        lemma_parents_are_past(p.frontier, walk, i as int);
                        assert forall|query: RouteQuery| #[trigger] agrees(
                            query,
                            base,
                            seen,
                        ) implies between_visits(query, p) by {
                            lemma_same_places(query, base, walk);
                            lemma_end_of_visit(query, p, visit, walk, i as nat);
                        }
                        assert forall|steps: Seq<int>, k: int|
                            seen.contains_key(steps) && 0 <= k < p.frontier.len() implies comes_before(
                            steps.drop_last(),
                            #[trigger] p.frontier[k],
                        ) && #[trigger] seen.contains_key(steps) by {
                            if comes_before(steps.drop_last(), walk) {
                                lemma_before_is_transitive(steps.drop_last(), walk, p.frontier[k]);
                            }
                        }
                    }
                }
            },
            None => {},
        }
    }
    let ghost query = completed(base, seen, start);
    proof {
        assert(agrees(query, base, seen));
        assert(query == asked(
            snapshot.market(),
            input_token,
            output_token,
            input_amount,
            query.moment,
        ));
        assert forall|steps: Seq<int>| snapshot.watch().may_show(
            #[trigger] (query.moment)(steps),
        ) && start <= (query.moment)(steps) by {}
        assert(goes_on_from_time(query.moment, snapshot.watch(), start));
        assert(all_skips(query, p.frontier) == 0);
        assert forall|walk: Seq<int>| #[trigger] query.is_route(walk) implies beaten(
            query,
            p.best,
            walk,
        ) by {
            assert(!leads_to(p.frontier, walk));
        }
    }
    match best_path_end {
        Some(end) => {
            proof {
                lemma_path_is_walk(query, arena@, p.walks, end as int);
                let route = p.walks[end as int];
                assert(query.is_best(route));
                lemma_best_is_unique(query, route, choose|walk: Seq<int>| query.is_best(walk));
            }
            (Some(reconstruct_path(&arena, end)), skipped)
        },
        None => (None, skipped),
    }
}

} // verus!
