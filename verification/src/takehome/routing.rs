//! Routing over all books.
use vstd::prelude::*;

use crate::clock::Nanos;
use crate::graph::GraphView;
use crate::metrics::counted;
use crate::routing::chains::{
    all_told, can_be_made, is_best_trading, is_trading, law_best_trading_is_found,
    law_found_route_is_the_best_trading, law_no_trading_is_missed, Trading,
};
use crate::routing::laws::law_same_usable_books_give_the_same_route;
use crate::routing::query::{asked, MarketView, RouteQuery};
use crate::routing::search::search;
use crate::routing::snapshot::RoutingSnapshot;
use crate::takehome::state::AggregatorState;
use crate::types::{Address, Quantity, Swap};

verus! {

/// The question of how to route an amount when every book may be traded on at any time.
pub open spec fn plain_query(
    graph: GraphView,
    input_token: Address,
    output_token: Address,
    input_amount: Quantity,
) -> RouteQuery {
    asked(
        MarketView { graph, metas: None },
        input_token,
        output_token,
        input_amount,
        |steps: Seq<int>| 0,
    )
}

/// Finds the route of at most three trades that turns an amount of one token into the most of
/// another. Returns `None` where there is no route.
pub fn find_best_route(
    state: &AggregatorState,
    input_token: Address,
    output_token: Address,
    input_amount: Quantity,
) -> (route: Option<Vec<Swap>>)
    ensures
        plain_query(state@, input_token, output_token, input_amount).is_answered_by(route),
        match route {
            Some(trades) => plain_query(state@, input_token, output_token, input_amount).best()
                == Some(trades@),
            None => plain_query(state@, input_token, output_token, input_amount).best() is None,
        },
{
    let snapshot = RoutingSnapshot::from_graph(&state.graph);
    let (route, skipped) = search(&snapshot, input_token, output_token, input_amount);
    proof {
        let moment = choose|moment: spec_fn(Seq<int>) -> Nanos|
            {
                let query = #[trigger] asked(
                    snapshot.market(),
                    input_token,
                    output_token,
                    input_amount,
                    moment,
                );
                &&& forall|steps: Seq<int>| snapshot.watch().may_show(#[trigger] moment(steps))
                &&& query.is_answered_by(route)
                &&& skipped == counted(0, query.skips(Seq::empty()))
            };
        assert(moment =~= (|steps: Seq<int>| 0));
    }
    route
}

/// What a search finds is the best trades that can be made on the books with the amount, and it
/// finds nothing only where none can be made.
pub proof fn law_plain_search_finds_the_best_trading(
    graph: GraphView,
    input_token: Address,
    output_token: Address,
    input_amount: Quantity,
    moment: spec_fn(Seq<int>) -> Nanos,
    t: Trading,
)
    ensures
        ({
            let found = plain_query(graph, input_token, output_token, input_amount).best();
            &&& is_trading(graph, input_token, output_token, input_amount, t) ==> {
                &&& found is Some
                &&& found->0.last().expected_output_amount >= t.amounts.last()
            }
            &&& is_best_trading(
                graph,
                None,
                input_token,
                output_token,
                input_amount,
                moment,
                t,
            ) ==> found == Some(all_told(graph, input_token, t))
            &&& found matches Some(route) ==> exists|u: Trading|
                {
                    &&& #[trigger] is_best_trading(
                        graph,
                        None,
                        input_token,
                        output_token,
                        input_amount,
                        moment,
                        u,
                    )
                    &&& route == all_told(graph, input_token, u)
                }
        }),
{
    let query = plain_query(graph, input_token, output_token, input_amount);
    let timed = RouteQuery { moment, ..query };
    assert forall|steps: Seq<int>| steps.len() > 0 implies #[trigger] query.usable(steps)
        == timed.usable(steps) by {}
    law_same_usable_books_give_the_same_route(query, timed);
    law_found_route_is_the_best_trading(timed);
    if is_trading(graph, input_token, output_token, input_amount, t) {
        assert(can_be_made(graph, None, input_token, output_token, input_amount, moment, t));
        law_no_trading_is_missed(timed, t);
    }
    if is_best_trading(graph, None, input_token, output_token, input_amount, moment, t) {
        law_best_trading_is_found(timed, t);
    }
    if query.best() is Some {
        let route = query.best()->0;
        let u = choose|u: Trading|
            {
                &&& #[trigger] is_best_trading(
                    timed.market.graph,
                    timed.market.metas,
                    timed.input_token,
                    timed.output_token,
                    timed.input_amount,
                    timed.moment,
                    u,
                )
                &&& route == all_told(timed.market.graph, timed.input_token, u)
            };
        assert(is_best_trading(
            graph,
            None,
            input_token,
            output_token,
            input_amount,
            moment,
            u,
        ));
    }
}

} // verus!
