//! Answering swap requests.
use vstd::prelude::*;

use crate::clock::Nanos;
use crate::graph::GraphView;
use crate::routing::chains::{all_told, is_best_trading, is_trading, Trading};
use crate::routing::laws::{is_chain, law_best_route_exists_and_yields_the_most};
use crate::takehome::routing::{
    find_best_route, law_plain_search_finds_the_best_trading, plain_query,
};
use crate::takehome::state::AggregatorState;
use crate::text::{decimal, slippage_message, tell_slippage};
use crate::types::{
    Quantity, SwapRequest, SwapResponse, SwapResponseSuccess, SwapResponseView,
};

verus! {

/// Why a request could not be answered.
#[derive(Debug)]
pub enum Error {
    RoutingFailed(String),
}

/// Answers swap requests with the best route.
pub struct TakehomeRequestProcessor<'a> {
    pub state: &'a AggregatorState,
}

/// The answer to a request.
pub open spec fn plain_response(graph: GraphView, request: SwapRequest) -> SwapResponseView {
    if request.input_token == request.output_token {
        SwapResponseView::Failure("same token"@)
    } else if !graph.edges.contains_key(request.input_token) || !graph.edges.contains_key(
        request.output_token,
    ) {
        SwapResponseView::Failure("unknown tokens"@)
    } else {
        let query = plain_query(
            graph,
            request.input_token,
            request.output_token,
            request.input_amount,
        );
        match query.best() {
            None => SwapResponseView::Failure("no path"@),
            Some(route) => {
                let output = route.last().expected_output_amount;
                if output < request.min_output_amount {
                    SwapResponseView::Failure(slippage_message(output, request.min_output_amount))
                } else {
                    SwapResponseView::Success(route)
                }
            },
        }
    }
}

impl<'a> TakehomeRequestProcessor<'a> {
    /// Creates a processor that answers from the given state.
    pub fn new(state: &'a AggregatorState) -> (processor: Self)
        ensures
            processor.state == state,
    {
        TakehomeRequestProcessor { state }
    }

    /// Answers a request.
    pub fn process_request(&self, request: SwapRequest) -> (result: Result<SwapResponse, Error>)
        ensures
            result is Ok,
            result->Ok_0@ == plain_response(self.state@, request),
    {
        if request.input_token == request.output_token {
            return Ok(SwapResponse::Failure("same token".to_string()));
        }
        if !self.state.contains_token(request.input_token) || !self.state.contains_token(
            request.output_token,
        ) {
            return Ok(SwapResponse::Failure("unknown tokens".to_string()));
        }
        proof {
            law_best_route_exists_and_yields_the_most(
                plain_query(
                    self.state@,
                    request.input_token,
                    request.output_token,
                    request.input_amount,
                ),
            );
        }
        let found = find_best_route(
            self.state,
            request.input_token,
            request.output_token,
            request.input_amount,
        );
        match found {
            None => Ok(SwapResponse::Failure("no path".to_string())),
            Some(route) => {
                let output: Quantity = route[route.len() - 1].expected_output_amount;
                if output < request.min_output_amount {
                    Ok(SwapResponse::Failure(tell_slippage(output, request.min_output_amount)))
                } else {
                    Ok(SwapResponse::Success(SwapResponseSuccess { route }))
                }
            },
        }
    }
}

/// A request that is answered with a route gets at least the output that it asked for, over at
/// most three trades from its input token to its output token; no other route would yield more.
pub proof fn law_plain_route_meets_the_request(graph: GraphView, request: SwapRequest)
    requires
        plain_response(graph, request) is Success,
    ensures
        ({
            let query = plain_query(
                graph,
                request.input_token,
                request.output_token,
                request.input_amount,
            );
            let route = plain_response(graph, request)->Success_0;
            &&& is_chain(query, route)
            &&& route.last().expected_output_amount >= request.min_output_amount
            &&& forall|walk: Seq<int>| #[trigger]
                query.is_route(walk) ==> query.amount_at(walk)
                    <= route.last().expected_output_amount
        }),
{
    law_best_route_exists_and_yields_the_most(
        plain_query(graph, request.input_token, request.output_token, request.input_amount),
    );
}

/// What a request is answered: one token twice and unknown tokens are told so; otherwise the best
/// trades that can be made on the books are its route, exactly if they yield at least what it asks
/// for, and where no trades can be made it is told so.
pub proof fn law_what_the_books_answer(
    graph: GraphView,
    request: SwapRequest,
    moment: spec_fn(Seq<int>) -> Nanos,
    t: Trading,
)
    ensures
        ({
            let answer = plain_response(graph, request);
            let known = graph.edges.contains_key(request.input_token) && graph.edges.contains_key(
                request.output_token,
            );
            if request.input_token == request.output_token {
                answer == SwapResponseView::Failure("same token"@)
            } else if !known {
                answer == SwapResponseView::Failure("unknown tokens"@)
            } else {
                &&& (forall|u: Trading|
                    !#[trigger] is_trading(
                        graph,
                        request.input_token,
                        request.output_token,
                        request.input_amount,
                        u,
                    )) ==> answer == SwapResponseView::Failure("no path"@)
                &&& is_best_trading(
                    graph,
                    None,
                    request.input_token,
                    request.output_token,
                    request.input_amount,
                    moment,
                    t,
                ) ==> if t.amounts.last() >= request.min_output_amount {
                    answer == SwapResponseView::Success(all_told(graph, request.input_token, t))
                } else {
                    answer == SwapResponseView::Failure(
                        "slippage: "@ + decimal(t.amounts.last() as nat) + " < "@ + decimal(
                            request.min_output_amount as nat,
                        ),
                    )
                }
            }
        }),
{
    law_plain_search_finds_the_best_trading(
        graph,
        request.input_token,
        request.output_token,
        request.input_amount,
        moment,
        t,
    );
    if is_best_trading(
        graph,
        None,
        request.input_token,
        request.output_token,
        request.input_amount,
        moment,
        t,
    ) {
        let n = t.edges.len() as int;
        assert(t.edges[n - 1].target == request.output_token);
    }
    let found = plain_query(
        graph,
        request.input_token,
        request.output_token,
        request.input_amount,
    ).best();
    if found is Some {
        let u = choose|u: Trading|
            {
                &&& #[trigger] is_best_trading(
                    graph,
                    None,
                    request.input_token,
                    request.output_token,
                    request.input_amount,
                    moment,
                    u,
                )
                &&& found->0 == all_told(graph, request.input_token, u)
            };
        assert(is_trading(
            graph,
            request.input_token,
            request.output_token,
            request.input_amount,
            u,
        ));
    }
}

} // verus!
