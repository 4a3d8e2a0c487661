//! Answering swap requests.
use vstd::prelude::*;

use crate::clock::{age, Nanos};
use crate::dex::circuit_breaker::{BreakerView, CircuitState};
use crate::dex::routing::{find_best_route, find_best_route_at};
use crate::dex::state::{AggregatorState, StateView};
use crate::metrics::{count, counted, Metrics};
use crate::orderbook::BookView;
use crate::routing::chains::{
    all_told, can_be_made, is_best_trading, law_best_trading_is_found,
    law_found_route_is_the_best_trading, Trading,
};
use crate::routing::laws::{is_chain, law_best_route_exists_and_yields_the_most};
use crate::routing::query::{runs_on, RouteQuery};
use crate::text::{decimal, slippage_message, tell_slippage};
use crate::types::{
    Address, Quantity, Swap, SwapRequest, SwapResponse, SwapResponseSuccess, SwapResponseView,
};

verus! {

/// Why a request could not be answered.
#[derive(Debug)]
pub enum Error {
    RoutingFailed(String),
}

/// Answers swap requests with the best route. A rate limit, a circuit breaker and the
/// requester's least output stand in front of it.
pub struct DexRequestProcessor<'a> {
    pub state: &'a mut AggregatorState,
}

/// The times at which a request is dealt with.
#[derive(Debug, Clone, Copy)]
pub struct Moments {
    /// When the circuit breaker is asked, on the breaker's clock.
    pub admitted: Nanos,
    /// When the books are looked at, on the books' clock.
    pub routed: Nanos,
    /// When the circuit breaker is told what came of it, on the breaker's clock.
    pub settled: Nanos,
}

/// The times at which a request is dealt with, with that of each look at an edge.
pub struct MomentsView {
    pub admitted: Nanos,
    pub routed: spec_fn(Seq<int>) -> Nanos,
    pub settled: Nanos,
}

impl View for Moments {
    type V = MomentsView;

    open spec fn view(&self) -> MomentsView {
        let routed = self.routed;
        MomentsView {
            admitted: self.admitted,
            routed: |steps: Seq<int>| routed,
            settled: self.settled,
        }
    }
}

/// What becomes of a request.
pub enum Outcome {
    /// The rate limit gave no permit.
    RateLimited,
    /// The circuit breaker is open.
    Degraded,
    /// Input and output are the same token.
    SameToken,
    /// There is nothing to swap.
    ZeroAmount,
    /// No book trades the input token, or none trades the output token.
    UnknownToken,
    /// No route leads from the input to the output.
    NoPath,
    /// The best route yields this much, which is less than the requester accepts.
    Slippage(Quantity),
    /// The best route.
    Routed(Seq<Swap>),
}

impl Outcome {
    /// The answer.
    pub open spec fn response(self, request: SwapRequest) -> SwapResponseView {
        match self {
            Outcome::RateLimited => SwapResponseView::Failure("rate limited"@),
            Outcome::Degraded => SwapResponseView::Failure("service degraded"@),
            Outcome::SameToken => SwapResponseView::Failure("same token"@),
            Outcome::ZeroAmount => SwapResponseView::Failure("zero amount"@),
            Outcome::UnknownToken => SwapResponseView::Failure("invalid request"@),
            Outcome::NoPath => SwapResponseView::Failure("no path"@),
            Outcome::Slippage(output) => SwapResponseView::Failure(
                slippage_message(output, request.min_output_amount),
            ),
            Outcome::Routed(route) => SwapResponseView::Success(route),
        }
    }

    /// A search was made.
    pub open spec fn is_searched(self) -> bool {
        self is NoPath || self is Slippage || self is Routed
    }

    /// The request counts as failed.
    pub open spec fn is_failed(self) -> bool {
        self is Degraded || self is UnknownToken || self is NoPath || self is Slippage
    }

    /// The circuit breaker counts a failure: the market data are at fault, not the requester.
    pub open spec fn is_breaker_failure(self) -> bool {
        self is UnknownToken || self is NoPath
    }
}

impl StateView {
    /// The question that a request asks.
    pub open spec fn question(
        self,
        request: SwapRequest,
        moment: spec_fn(Seq<int>) -> Nanos,
    ) -> RouteQuery {
        self.books.query_during(
            request.input_token,
            request.output_token,
            request.input_amount,
            moment,
        )
    }

    /// Some book trades the token.
    pub open spec fn knows(self, token: Address) -> bool {
        self.books.graph.edges.contains_key(token)
    }

    /// What a request is refused with at `now`, if it is, before any book is looked at.
    pub open spec fn refusal(self, request: SwapRequest, permit: bool, now: Nanos) -> Option<
        Outcome,
    > {
        if !permit {
            Some(Outcome::RateLimited)
        } else if !self.breaker.allows(now) {
            Some(Outcome::Degraded)
        } else if request.input_token == request.output_token {
            Some(Outcome::SameToken)
        } else if request.input_amount == 0 {
            Some(Outcome::ZeroAmount)
        } else {
            None
        }
    }

    /// What the books have for a request.
    pub open spec fn verdict(
        self,
        request: SwapRequest,
        moment: spec_fn(Seq<int>) -> Nanos,
    ) -> Outcome {
        if !self.knows(request.input_token) || !self.knows(request.output_token) {
            Outcome::UnknownToken
        } else {
            match self.question(request, moment).best() {
                None => Outcome::NoPath,
                Some(route) => judged(route, request),
            }
        }
    }

    /// What becomes of a request.
    pub open spec fn outcome(self, request: SwapRequest, permit: bool, at: MomentsView) -> Outcome {
        match self.refusal(request, permit, at.admitted) {
            Some(outcome) => outcome,
            None => self.verdict(request, at.routed),
        }
    }

    /// The breaker after a request: it is asked unless the rate limit turned the request away,
    /// and then told of a route or of missing market data.
    pub open spec fn breaker_after(self, request: SwapRequest, permit: bool, at: MomentsView) -> BreakerView {
        let outcome = self.outcome(request, permit, at);
        if outcome is RateLimited {
            self.breaker
        } else if outcome.is_breaker_failure() {
            self.breaker.after_request(at.admitted).after_failure(at.settled)
        } else if outcome is Routed {
            self.breaker.after_request(at.admitted).after_success(at.settled)
        } else {
            self.breaker.after_request(at.admitted)
        }
    }

    /// The counters after a request.
    pub open spec fn metrics_after(self, request: SwapRequest, permit: bool, at: MomentsView) -> Metrics {
        let outcome = self.outcome(request, permit, at);
        let searched = if outcome.is_searched() {
            self.metrics.routed(self.question(request, at.routed).skips(Seq::empty()))
        } else {
            self.metrics
        };
        Metrics {
            requests_total: counted(self.metrics.requests_total, 1),
            requests_failed: if outcome.is_failed() {
                counted(self.metrics.requests_failed, 1)
            } else {
                self.metrics.requests_failed
            },
            requests_rate_limited: if outcome is RateLimited {
                counted(self.metrics.requests_rate_limited, 1)
            } else {
                self.metrics.requests_rate_limited
            },
            ..searched
        }
    }

    /// After a request was answered.
    pub open spec fn answered(self, request: SwapRequest, permit: bool, at: MomentsView) -> StateView {
        StateView {
            books: self.books,
            metrics: self.metrics_after(request, permit, at),
            breaker: self.breaker_after(request, permit, at),
        }
    }

    /// After requests that all had a permit were answered, one after the other.
    pub open spec fn answered_all(self, requests: Seq<(SwapRequest, MomentsView)>) -> StateView
        decreases requests.len(),
    {
        if requests.len() == 0 {
            self
        } else {
            self.answered_all(requests.drop_last()).answered(
                requests.last().0,
                true,
                requests.last().1,
            )
        }
    }

    /// After a request was let through or refused at `now`.
    spec fn admitted(self, request: SwapRequest, permit: bool, now: Nanos) -> StateView {
        let refusal = self.refusal(request, permit, now);
        StateView {
            books: self.books,
            metrics: Metrics {
                requests_total: counted(self.metrics.requests_total, 1),
                requests_failed: if refusal == Some(Outcome::Degraded) {
                    counted(self.metrics.requests_failed, 1)
                } else {
                    self.metrics.requests_failed
                },
                requests_rate_limited: if !permit {
                    counted(self.metrics.requests_rate_limited, 1)
                } else {
                    self.metrics.requests_rate_limited
                },
                ..self.metrics
            },
            breaker: if permit {
                self.breaker.after_request(now)
            } else {
                self.breaker
            },
        }
    }

    /// After the books were looked at for a request.
    spec fn consulted(
        self,
        request: SwapRequest,
        moment: spec_fn(Seq<int>) -> Nanos,
    ) -> StateView {
        if self.verdict(request, moment).is_searched() {
            self.searched(self.question(request, moment))
        } else {
            self
        }
    }

    /// After what the books had for a request was counted and told to the breaker at `now`.
    spec fn settled(self, verdict: Outcome, now: Nanos) -> StateView {
        StateView {
            books: self.books,
            metrics: Metrics {
                requests_failed: if verdict.is_failed() {
                    counted(self.metrics.requests_failed, 1)
                } else {
                    self.metrics.requests_failed
                },
                ..self.metrics
            },
            breaker: if verdict.is_breaker_failure() {
                self.breaker.after_failure(now)
            } else if verdict is Routed {
                self.breaker.after_success(now)
            } else {
                self.breaker
            },
        }
    }
}

/// What becomes of a request that a route was found for.
pub open spec fn judged(route: Seq<Swap>, request: SwapRequest) -> Outcome {
    let output = route.last().expected_output_amount;
    if output < request.min_output_amount {
        Outcome::Slippage(output)
    } else {
        Outcome::Routed(route)
    }
}

/// What the books have for a request.
enum Finding {
    UnknownToken,
    NoPath,
    Route(Vec<Swap>),
}

impl Finding {
    /// What becomes of the request.
    spec fn verdict(self, request: SwapRequest) -> Outcome {
        match self {
            Finding::UnknownToken => Outcome::UnknownToken,
            Finding::NoPath => Outcome::NoPath,
            Finding::Route(route) => judged(route@, request),
        }
    }
}

/// The answer is a response, and the one that the outcome calls for.
pub open spec fn is_answer(
    result: Result<SwapResponse, Error>,
    outcome: Outcome,
    request: SwapRequest,
) -> bool {
    result matches Ok(response) && response@ == outcome.response(request)
}

/// Returns an answer that tells why there is no route.
fn failure(message: &str) -> (response: SwapResponse)
    ensures
        response@ == SwapResponseView::Failure(message@),
{
    SwapResponse::Failure(message.to_string())
}

/// Returns whether both tokens of a request are traded by some book.
fn knows_both(state: &AggregatorState, request: SwapRequest) -> (known: bool)
    ensures
        known == (state@.knows(request.input_token) && state@.knows(request.output_token)),
{
    state.contains_token(request.input_token) && state.contains_token(request.output_token)
}

/// Returns what a search found.
fn finding_of(found: Option<Vec<Swap>>) -> (finding: Finding)
    ensures
        finding == match found {
            Some(route) => Finding::Route(route),
            None => Finding::NoPath,
        },
{
    match found {
        Some(route) => Finding::Route(route),
        None => Finding::NoPath,
    }
}

impl<'a> DexRequestProcessor<'a> {
    /// Creates a processor that answers from the given state.
    pub fn new(state: &'a mut AggregatorState) -> (processor: Self)
        ensures
            *processor.state == *old(state),
            *final(processor.state) == *final(state),
    {
        DexRequestProcessor { state }
    }

    /// Answers a request now. `permit` tells whether the rate limit lets it through.
    pub fn process_request(&mut self, request: SwapRequest, permit: bool) -> (result: Result<
        SwapResponse,
        Error,
    >)
        ensures
            result is Ok,
            exists|at: MomentsView|
                {
                    &&& is_answer(
                        result,
                        old(self).state@.outcome(request, permit, at),
                        request,
                    )
                    &&& result->Ok_0@ == old(self).state@.outcome(request, permit, at).response(
                        request,
                    )
                    &&& old(self).state@.breaker.clock.shows(at.admitted)
                    &&& old(self).state@.breaker.clock.shows(at.settled)
                    &&& old(self).state@.outcome(request, permit, at).is_searched() ==> runs_on(
                        at.routed,
                        old(self).state@.books.clock,
                    )
                    &&& final(self).state@ == #[trigger] old(self).state@.answered(
                        request,
                        permit,
                        at,
                    )
                },
            *final(final(self).state) == *final(old(self).state),
    {
        let admitted: Nanos = self.state.circuit_breaker.now();
        if let Some(refusal) = self.admit_at(request, permit, admitted) {
            assert(self.state@ == old(self).state@.answered(
                request,
                permit,
                MomentsView { admitted, routed: |steps: Seq<int>| 0, settled: admitted },
            ));
            return Ok(refusal);
        }
        let ghost through = self.state@;
        let finding = self.consult(request);
        let ghost routed = choose|moment: spec_fn(Seq<int>) -> Nanos|
            {
                &&& finding.verdict(request) == through.verdict(request, moment)
                &&& finding.verdict(request).is_searched() ==> runs_on(moment, through.books.clock)
                &&& self.state@ == #[trigger] through.consulted(request, moment)
            };
        let settled: Nanos = self.state.circuit_breaker.now();
        let response = self.settle_at(request, finding, settled);
        assert(self.state@ == old(self).state@.answered(
            request,
            permit,
            MomentsView { admitted, routed, settled },
        ));
        Ok(response)
    }

    /// Answers a request at the given times. `permit` tells whether the rate limit lets it
    /// through.
    pub fn process_request_at(&mut self, request: SwapRequest, permit: bool, at: Moments)
        -> (result: Result<SwapResponse, Error>)
        ensures
            is_answer(result, old(self).state@.outcome(request, permit, at@), request),
            result is Ok,
            result->Ok_0@ == old(self).state@.outcome(request, permit, at@).response(request),
            final(self).state@ == old(self).state@.answered(request, permit, at@),
            *final(final(self).state) == *final(old(self).state),
    {
        if let Some(refusal) = self.admit_at(request, permit, at.admitted) {
            return Ok(refusal);
        }
        let finding = self.consult_at(request, at.routed);
        Ok(self.settle_at(request, finding, at.settled))
    }

    /// Lets a request through at `now`, or returns what it is refused with.
    fn admit_at(&mut self, request: SwapRequest, permit: bool, now: Nanos) -> (refusal: Option<
        SwapResponse,
    >)
        ensures
            match old(self).state@.refusal(request, permit, now) {
                Some(outcome) => refusal is Some && refusal->0@ == outcome.response(request),
                None => refusal is None,
            },
            final(self).state@ == old(self).state@.admitted(request, permit, now),
            *final(final(self).state) == *final(old(self).state),
    {
        self.state.metrics.requests_total = count(self.state.metrics.requests_total, 1);

        if !permit {
            self.state.metrics.requests_rate_limited =
            count(self.state.metrics.requests_rate_limited, 1);
            return Some(failure("rate limited"));
        }
        if !self.state.circuit_breaker.allow_request_at(now) {
            self.state.metrics.requests_failed = count(self.state.metrics.requests_failed, 1);
            return Some(failure("service degraded"));
        }
        if request.input_token == request.output_token {
            return Some(failure("same token"));
        }
        if request.input_amount == 0 {
            return Some(failure("zero amount"));
        }
        None
    }

    /// Looks at the books now for what they have for a request.
    fn consult(&mut self, request: SwapRequest) -> (finding: Finding)
        ensures
            exists|moment: spec_fn(Seq<int>) -> Nanos|
                {
                    &&& finding.verdict(request) == old(self).state@.verdict(request, moment)
                    &&& finding.verdict(request).is_searched() ==> runs_on(
                        moment,
                        old(self).state@.books.clock,
                    )
                    &&& final(self).state@ == #[trigger] old(self).state@.consulted(
                        request,
                        moment,
                    )
                },
            finding matches Finding::Route(route) ==> route@.len() > 0,
            *final(final(self).state) == *final(old(self).state),
    {
        if !knows_both(&*self.state, request) {
            assert(self.state@ == old(self).state@.consulted(request, |steps: Seq<int>| 0));
            return Finding::UnknownToken;
        }
        let found = find_best_route(
            &mut *self.state,
            request.input_token,
            request.output_token,
            request.input_amount,
        );
        proof {
            let before = old(self).state@;
            let moment = choose|moment: spec_fn(Seq<int>) -> Nanos|
                {
                    let query = #[trigger] before.books.query_during(
                        request.input_token,
                        request.output_token,
                        request.input_amount,
                        moment,
                    );
                    &&& runs_on(moment, before.books.clock)
                    &&& query.is_answered_by(found)
                    &&& self.state@ == before.searched(query)
                };
            law_best_route_exists_and_yields_the_most(before.question(request, moment));
            assert(self.state@ == before.consulted(request, moment));
        }
        finding_of(found)
    }

    /// Looks at the books at `now` for what they have for a request.
    fn consult_at(&mut self, request: SwapRequest, now: Nanos) -> (finding: Finding)
        ensures
            finding.verdict(request) == old(self).state@.verdict(request, |steps: Seq<int>| now),
            finding matches Finding::Route(route) ==> route@.len() > 0,
            final(self).state@ == old(self).state@.consulted(request, |steps: Seq<int>| now),
            *final(final(self).state) == *final(old(self).state),
    {
        if !knows_both(&*self.state, request) {
            return Finding::UnknownToken;
        }
        proof {
            law_best_route_exists_and_yields_the_most(
                old(self).state@.question(request, |steps: Seq<int>| now),
            );
        }
        let found = find_best_route_at(
            &mut *self.state,
            request.input_token,
            request.output_token,
            request.input_amount,
            now,
        );
        finding_of(found)
    }

    /// Counts what the books had for a request, tells the breaker at `now`, and returns the
    /// answer. Only missing market data count against the service, not too high a least output.
    fn settle_at(&mut self, request: SwapRequest, finding: Finding, now: Nanos) -> (response:
        SwapResponse)
        requires
            finding matches Finding::Route(route) ==> route@.len() > 0,
        ensures
            response@ == finding.verdict(request).response(request),
            final(self).state@ == old(self).state@.settled(finding.verdict(request), now),
            *final(final(self).state) == *final(old(self).state),
    {
        match finding {
            Finding::UnknownToken => {
                self.state.metrics.requests_failed = count(self.state.metrics.requests_failed, 1);
                self.state.circuit_breaker.record_failure_at(now);
                failure("invalid request")
            },
            Finding::NoPath => {
                self.state.metrics.requests_failed = count(self.state.metrics.requests_failed, 1);
                self.state.circuit_breaker.record_failure_at(now);
                failure("no path")
            },
            Finding::Route(route) => {
                let output: Quantity = route[route.len() - 1].expected_output_amount;
                if output < request.min_output_amount {
                    self.state.metrics.requests_failed =
                    count(self.state.metrics.requests_failed, 1);
                    return SwapResponse::Failure(tell_slippage(output, request.min_output_amount));
                }
                self.state.circuit_breaker.record_success_at(now);
                SwapResponse::Success(SwapResponseSuccess { route })
            },
        }
    }
}

/// Neither updates nor searches nor requests set a clock anew: the ages of books and the wait of
/// an open circuit go on by the clocks that the state started with.
pub proof fn law_clocks_go_on(
    state: StateView,
    book: BookView,
    now: Nanos,
    query: RouteQuery,
    request: SwapRequest,
    permit: bool,
    at: MomentsView,
)
    ensures
        state.upserted(book, now).clocks() == state.clocks(),
        state.ingested(book, now).clocks() == state.clocks(),
        state.searched(query).clocks() == state.clocks(),
        state.answered(request, permit, at).clocks() == state.clocks(),
{
}

/// Requests change nothing but the counters and the breaker, and every request is counted.
pub proof fn law_requests_leave_the_market_alone(
    state: StateView,
    request: SwapRequest,
    permit: bool,
    at: MomentsView,
)
    ensures
        state.answered(request, permit, at).books == state.books,
        state.answered(request, permit, at).metrics.requests_total == counted(
            state.metrics.requests_total,
            1,
        ),
        state.answered(request, permit, at).metrics.events_total == state.metrics.events_total,
        state.answered(request, permit, at).metrics.events_invalid == state.metrics.events_invalid,
{
}

/// A mistake of the requester (one token twice, nothing to swap, too high a least output) does
/// not count against the service: the breaker is as it was when the request was let through.
pub proof fn law_requesters_mistakes_leave_the_breaker_alone(
    state: StateView,
    request: SwapRequest,
    at: MomentsView,
)
    requires
        ({
            let outcome = state.outcome(request, true, at);
            outcome is SameToken || outcome is ZeroAmount || outcome is Slippage
        }),
    ensures
        state.answered(request, true, at).breaker == state.breaker.after_request(at.admitted),
        state.answered(request, true, at).breaker.failures == state.breaker.failures,
        state.breaker.state != CircuitState::Open ==> state.answered(request, true, at).breaker
            == state.breaker,
{
}

/// While the circuit is open, a request is told that the service is degraded and no search is
/// made for it.
pub proof fn law_open_circuit_answers_degraded(state: StateView, request: SwapRequest, at: MomentsView)
    requires
        state.breaker.state == CircuitState::Open,
        age(state.breaker.changed_at, at.admitted) < state.breaker.timeout,
    ensures
        state.outcome(request, true, at).response(request) == SwapResponseView::Failure(
            "service degraded"@,
        ),
        state.answered(request, true, at).breaker == state.breaker,
        state.answered(request, true, at).metrics.snapshots_taken == state.metrics.snapshots_taken,
{
}

/// A request that is answered with a route gets at least the output that it asked for, over at
/// most three trades from its input token to its output token, and closes the circuit; no other
/// route would yield more.
pub proof fn law_route_meets_the_request(state: StateView, request: SwapRequest, at: MomentsView)
    requires
        state.outcome(request, true, at) is Routed,
    ensures
        ({
            let route = state.outcome(request, true, at)->Routed_0;
            &&& is_chain(state.question(request, at.routed), route)
            &&& route.last().expected_output_amount >= request.min_output_amount
            &&& forall|walk: Seq<int>| #[trigger]
                state.question(request, at.routed).is_route(walk) ==> state.question(
                    request,
                    at.routed,
                ).amount_at(walk) <= route.last().expected_output_amount
        }),
        state.answered(request, true, at).breaker.state == CircuitState::Closed,
        state.answered(request, true, at).breaker.failures == 0,
{
    law_best_route_exists_and_yields_the_most(state.question(request, at.routed));
}

/// A request that the rate limit turns away is told so, reaches neither the breaker nor the
/// books, and is counted.
pub proof fn law_rate_limited_requests_go_no_further(
    state: StateView,
    request: SwapRequest,
    at: MomentsView,
)
    ensures
        state.outcome(request, false, at).response(request) == SwapResponseView::Failure(
            "rate limited"@,
        ),
        state.answered(request, false, at) == (StateView {
            metrics: Metrics {
                requests_total: counted(state.metrics.requests_total, 1),
                requests_rate_limited: counted(state.metrics.requests_rate_limited, 1),
                ..state.metrics
            },
            ..state
        }),
{
}

/// Requests that the market data cannot serve, because no book trades one of the tokens or no
/// route connects them, open a closed circuit with the one that brings the failures in a row to
/// the threshold, and not before.
pub proof fn law_unserved_requests_open_the_circuit(
    state: StateView,
    requests: Seq<(SwapRequest, MomentsView)>,
)
    requires
        state.breaker.state == CircuitState::Closed,
        state.breaker.failures < state.breaker.threshold,
        state.breaker.failures + requests.len() <= state.breaker.threshold,
        forall|i: int|
            #![trigger requests[i]]
            0 <= i < requests.len() ==> {
                &&& requests[i].0.input_token != requests[i].0.output_token
                &&& requests[i].0.input_amount > 0
                &&& {
                    ||| !state.knows(requests[i].0.input_token)
                    ||| !state.knows(requests[i].0.output_token)
                    ||| state.question(requests[i].0, requests[i].1.routed).best() is None
                }
            },
    ensures
        state.answered_all(requests).books == state.books,
        state.answered_all(requests).breaker.failures == state.breaker.failures + requests.len(),
        state.answered_all(requests).breaker.threshold == state.breaker.threshold,
        state.answered_all(requests).breaker.state == if state.breaker.failures + requests.len()
            == state.breaker.threshold {
            CircuitState::Open
        } else {
            CircuitState::Closed
        },
    decreases requests.len(),
{
    if requests.len() > 0 {
        let earlier = requests.drop_last();
        assert forall|i: int| #![trigger earlier[i]] 0 <= i < earlier.len() implies earlier[i]
            == requests[i] by {}
        law_unserved_requests_open_the_circuit(state, earlier);
        assert(requests[requests.len() - 1] == requests.last());
    }
}

/// The circuit is open and its timeout has not passed when the request comes.
pub open spec fn must_wait(state: StateView, at: MomentsView) -> bool {
    &&& state.breaker.state == CircuitState::Open
    &&& at.admitted < state.breaker.changed_at + state.breaker.timeout
    &&& state.breaker.timeout > 0
}

/// A request is refused, before any book is looked at, exactly where it has no permit, the circuit
/// is open and waiting, its two tokens are one, or its amount is zero, and is told the first of
/// these.
pub proof fn law_what_is_refused(
    state: StateView,
    request: SwapRequest,
    permit: bool,
    at: MomentsView,
)
    ensures
        ({
            let outcome = state.outcome(request, permit, at);
            let answer = outcome.response(request);
            if !permit {
                outcome is RateLimited && answer == SwapResponseView::Failure("rate limited"@)
            } else if must_wait(state, at) {
                outcome is Degraded && answer == SwapResponseView::Failure("service degraded"@)
            } else if request.input_token == request.output_token {
                outcome is SameToken && answer == SwapResponseView::Failure("same token"@)
            } else if request.input_amount == 0 {
                outcome is ZeroAmount && answer == SwapResponseView::Failure("zero amount"@)
            } else {
                outcome is UnknownToken || outcome is NoPath || outcome is Slippage
                    || outcome is Routed
            }
        }),
{
}

/// A request that is let through and names two tokens and an amount is answered by the books: the
/// best trades that can be made on them are its route, exactly if they yield at least what it
/// asks for; otherwise it is told what they would have yielded. Where no trades can be made it is
/// told so, and where no book trades one of its tokens that it is invalid.
pub proof fn law_what_the_books_answer(state: StateView, request: SwapRequest, at: MomentsView)
    requires
        !must_wait(state, at),
        request.input_token != request.output_token,
        request.input_amount > 0,
    ensures
        ({
            let outcome = state.outcome(request, true, at);
            let answer = outcome.response(request);
            let graph = state.books.graph;
            let records = Some(state.books.metas);
            let known = graph.edges.contains_key(request.input_token) && graph.edges.contains_key(
                request.output_token,
            );
            &&& !known ==> outcome is UnknownToken && answer == SwapResponseView::Failure(
                "invalid request"@,
            )
            &&& known && (forall|t: Trading|
                !#[trigger] can_be_made(
                    graph,
                    records,
                    request.input_token,
                    request.output_token,
                    request.input_amount,
                    at.routed,
                    t,
                )) ==> outcome is NoPath && answer == SwapResponseView::Failure("no path"@)
            &&& forall|t: Trading| #[trigger]
                is_best_trading(
                    graph,
                    records,
                    request.input_token,
                    request.output_token,
                    request.input_amount,
                    at.routed,
                    t,
                ) && known ==> if t.amounts.last() >= request.min_output_amount {
                    &&& outcome is Routed
                    &&& answer == SwapResponseView::Success(
                        all_told(graph, request.input_token, t),
                    )
                } else {
                    &&& outcome is Slippage
                    &&& answer == SwapResponseView::Failure(
                        "slippage: "@ + decimal(t.amounts.last() as nat) + " < "@ + decimal(
                            request.min_output_amount as nat,
                        ),
                    )
                }
            &&& (outcome is NoPath || outcome is Slippage || outcome is Routed) ==> known
            &&& outcome is Slippage || outcome is Routed ==> exists|t: Trading| #[trigger]
                is_best_trading(
                    graph,
                    records,
                    request.input_token,
                    request.output_token,
                    request.input_amount,
                    at.routed,
                    t,
                )
        }),
{
    let query = state.question(request, at.routed);
    let graph = state.books.graph;
    let records = Some(state.books.metas);
    law_found_route_is_the_best_trading(query);
    assert forall|t: Trading| #[trigger]
        is_best_trading(
            graph,
            records,
            request.input_token,
            request.output_token,
            request.input_amount,
            at.routed,
            t,
        ) implies query.best() == Some(all_told(graph, request.input_token, t)) && all_told(
        graph,
        request.input_token,
        t,
    ).last().expected_output_amount == t.amounts.last() by {
        law_best_trading_is_found(query, t);
        let n = t.edges.len() as int;
        assert(t.edges[n - 1].target == request.output_token);
    }
}

/// What a request counts as: every request is counted, as failed where it was degraded, invalid,
/// without a path or below its least output, as limited where it had no permit, and with a
/// snapshot where the books were searched.
pub proof fn law_what_a_request_counts_as(
    state: StateView,
    request: SwapRequest,
    permit: bool,
    at: MomentsView,
)
    ensures
        ({
            let before = state.metrics;
            let after = state.answered(request, permit, at).metrics;
            let outcome = state.outcome(request, permit, at);
            let failed = outcome is Degraded || outcome is UnknownToken || outcome is NoPath
                || outcome is Slippage;
            let searched = outcome is NoPath || outcome is Slippage || outcome is Routed;
            &&& before.requests_total < u64::MAX ==> after.requests_total == before.requests_total
                + 1
            &&& failed && before.requests_failed < u64::MAX ==> after.requests_failed
                == before.requests_failed + 1
            &&& !failed ==> after.requests_failed == before.requests_failed
            &&& outcome is RateLimited && before.requests_rate_limited < u64::MAX
                ==> after.requests_rate_limited == before.requests_rate_limited + 1
            &&& !(outcome is RateLimited) ==> after.requests_rate_limited
                == before.requests_rate_limited
            &&& searched && before.snapshots_taken < u64::MAX ==> after.snapshots_taken
                == before.snapshots_taken + 1
            &&& !searched ==> after.snapshots_taken == before.snapshots_taken
                && after.stale_or_unhealthy_skipped == before.stale_or_unhealthy_skipped
            &&& after.events_total == before.events_total
            &&& after.events_invalid == before.events_invalid
        }),
{
}

/// What a request does to the breaker: nothing where it was limited or degraded; otherwise it is
/// let through, and then a route counts as a success, an unknown token or a missing path as a
/// failure, and anything else as neither.
pub proof fn law_what_a_request_tells_the_breaker(
    state: StateView,
    request: SwapRequest,
    permit: bool,
    at: MomentsView,
)
    ensures
        ({
            let outcome = state.outcome(request, permit, at);
            let through = state.breaker.after_request(at.admitted);
            let after = state.answered(request, permit, at).breaker;
            &&& outcome is RateLimited || outcome is Degraded ==> after == state.breaker
            &&& outcome is SameToken || outcome is ZeroAmount || outcome is Slippage ==> after
                == through
            &&& outcome is UnknownToken || outcome is NoPath ==> after == through.after_failure(
                at.settled,
            )
            &&& outcome is Routed ==> after == through.after_success(at.settled)
        }),
{
}

/// Where one time is given for the books, all of them are looked at at that time, and the breaker
/// is asked and told at the times given for that.
pub proof fn law_given_times_are_kept(at: Moments, steps: Seq<int>)
    ensures
        at@.admitted == at.admitted,
        (at@.routed)(steps) == at.routed,
        at@.settled == at.settled,
{
}

} // verus!
