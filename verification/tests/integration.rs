//! End-to-end behaviour of the aggregator: requests and responses, the circuit breaker, the
//! rate limit, and routing across books.

use aggregator::clock::Nanos;
use aggregator::dex::circuit_breaker::CircuitBreaker;
use aggregator::dex::event_processor::{DexEventProcessor, Error};
use aggregator::dex::request_processor::{DexRequestProcessor, Moments};
use aggregator::dex::routing::{find_best_route, find_best_route_at};
use aggregator::dex::state::AggregatorState;
use aggregator::metrics::Metrics;
use aggregator::orderbook::{OrderbookLevel, OrderbookState};
use aggregator::types::{Address, Side, SwapRequest, SwapResponse};

const SECOND: Nanos = 1_000_000_000;

const TOKEN_A: Address = 11;
const TOKEN_B: Address = 22;
const UNKNOWN: Address = 99;

fn make_orderbook(base: Address, quote: Address, bid_px: u64, ask_px: u64) -> OrderbookState {
    let mut ob = OrderbookState::new(base, quote);
    ob.insert_bid(OrderbookLevel {
        px: bid_px,
        sz: 10_000,
    });
    ob.insert_ask(OrderbookLevel {
        px: ask_px,
        sz: 10_000,
    });
    ob
}

fn swap(input_token: Address, output_token: Address, input_amount: u64) -> SwapRequest {
    SwapRequest {
        input_token,
        output_token,
        input_amount,
        min_output_amount: 0,
    }
}

fn all_at(now: Nanos) -> Moments {
    Moments {
        admitted: now,
        routed: now,
        settled: now,
    }
}

fn ask_at(state: &mut AggregatorState, request: SwapRequest, now: Nanos) -> SwapResponse {
    DexRequestProcessor::new(state)
        .process_request_at(request, true, all_at(now))
        .unwrap()
}

fn message(response: SwapResponse) -> String {
    match response {
        SwapResponse::Success(_) => panic!("expected a failure"),
        SwapResponse::Failure(msg) => msg,
    }
}

#[test]
fn integration_full_swap_cycle() {
    let mut state = AggregatorState::new();

    let token_a = TOKEN_A;
    let token_b = TOKEN_B;

    // Ingest an orderbook
    let book = make_orderbook(token_a, token_b, 99, 101);
    DexEventProcessor::new(&mut state)
        .process_orderbook(book)
        .unwrap();

    // Request a swap
    let request = SwapRequest {
        input_token: token_a,
        output_token: token_b,
        input_amount: 1000,
        min_output_amount: 0,
    };

    let response = DexRequestProcessor::new(&mut state)
        .process_request(request, true)
        .unwrap();
    assert!(matches!(response, SwapResponse::Success(_)));

    // Verify metrics were updated
    assert_eq!(state.metrics.events_total, 1);
    assert_eq!(state.metrics.requests_total, 1);
}

#[test]
fn circuit_breaker_opens_and_recovers() {
    let mut state = AggregatorState::new();

    let token_a = TOKEN_A;
    let token_b = TOKEN_B;

    // No orderbooks, so requests will fail and trigger circuit breaker
    for _ in 0..5 {
        let request = SwapRequest {
            input_token: token_a,
            output_token: token_b,
            input_amount: 1000,
            min_output_amount: 0,
        };
        let _ = DexRequestProcessor::new(&mut state).process_request(request, true);
    }

    // Circuit should now be open
    assert_eq!(state.circuit_breaker.current_state(), "open");

    // Additional requests should be rejected with "service degraded"
    let request = SwapRequest {
        input_token: token_a,
        output_token: token_b,
        input_amount: 1000,
        min_output_amount: 0,
    };
    let response = DexRequestProcessor::new(&mut state)
        .process_request(request, true)
        .unwrap();
    assert!(matches!(response, SwapResponse::Failure(msg) if msg == "service degraded"));
}

#[test]
fn integration_multi_hop_routing_across_orderbooks() {
    let mut state = AggregatorState::new();

    let usdc = 1;
    let eth = 2;
    let btc = 3;

    // Create USDC/ETH and ETH/BTC orderbooks
    // No direct USDC/BTC path, must route through ETH
    // Use small prices to ensure integer division gives non-zero results
    // ETH/USDC: 1 ETH = 2 USDC (ask), 1 USDC = 0.5 ETH
    DexEventProcessor::new(&mut state)
        .process_orderbook(make_orderbook(eth, usdc, 1, 2))
        .unwrap();
    // BTC/ETH: 1 BTC = 2 ETH (ask)
    DexEventProcessor::new(&mut state)
        .process_orderbook(make_orderbook(btc, eth, 1, 2))
        .unwrap();

    // Request USDC -> BTC (requires 2 hops: USDC -> ETH -> BTC)
    // With 1000 USDC at 2 USDC/ETH = 500 ETH
    // With 500 ETH at 2 ETH/BTC = 250 BTC
    let request = SwapRequest {
        input_token: usdc,
        output_token: btc,
        input_amount: 1000,
        min_output_amount: 0,
    };

    let response = DexRequestProcessor::new(&mut state)
        .process_request(request, true)
        .unwrap();
    match response {
        SwapResponse::Success(success) => {
            assert_eq!(success.route.len(), 2, "Expected 2-hop route");
            assert_eq!(success.route[0].input_token, usdc);
            assert_eq!(success.route[0].output_token, eth);
            assert_eq!(success.route[1].input_token, eth);
            assert_eq!(success.route[1].output_token, btc);
            assert_eq!(success.route[0].expected_output_amount, 500);
            assert_eq!(success.route[1].expected_output_amount, 250);
            assert_eq!(success.route[1].direction, Side::Ask);
        }
        SwapResponse::Failure(msg) => panic!("Expected success, got: {}", msg),
    }
}

#[test]
fn integration_stale_orderbooks_are_skipped() {
    let mut state = AggregatorState::new();

    let token_a = TOKEN_A;
    let token_b = TOKEN_B;

    // Ingest an orderbook
    let book = make_orderbook(token_a, token_b, 99, 101);
    DexEventProcessor::new(&mut state)
        .process_orderbook(book)
        .unwrap();

    // The book's last update lies 60 seconds back when the request comes
    let updated_at = state.get_meta(&(token_a, token_b)).unwrap().updated_at;
    let now = updated_at + 60 * SECOND;

    // Request should fail because the only path uses a stale orderbook
    let request = SwapRequest {
        input_token: token_a,
        output_token: token_b,
        input_amount: 1000,
        min_output_amount: 0,
    };

    let response = DexRequestProcessor::new(&mut state)
        .process_request_at(request, true, all_at(now))
        .unwrap();
    // Should fail with "no path" or "invalid request"
    assert!(matches!(response, SwapResponse::Failure(_)));

    // Verify stale skip was recorded
    assert!(state.metrics.stale_or_unhealthy_skipped > 0);
}

#[test]
fn integration_slippage_protection_rejects_bad_rate() {
    let mut state = AggregatorState::new();

    let token_a = TOKEN_A;
    let token_b = TOKEN_B;

    // Create orderbook with wide spread
    let book = make_orderbook(token_a, token_b, 50, 200);
    DexEventProcessor::new(&mut state)
        .process_orderbook(book)
        .unwrap();

    // Request with high minimum output (will fail slippage check)
    let request = SwapRequest {
        input_token: token_a,
        output_token: token_b,
        input_amount: 1000,
        min_output_amount: 999_999, // Impossibly high
    };

    let response = DexRequestProcessor::new(&mut state)
        .process_request(request, true)
        .unwrap();
    assert!(matches!(response, SwapResponse::Failure(msg) if msg.contains("slippage")));
}

#[test]
fn integration_metrics_track_all_request_types() {
    let mut state = AggregatorState::new();

    let token_a = TOKEN_A;
    let token_b = TOKEN_B;

    // Ingest orderbook
    let book = make_orderbook(token_a, token_b, 99, 101);
    DexEventProcessor::new(&mut state)
        .process_orderbook(book)
        .unwrap();

    // Successful request
    let request = SwapRequest {
        input_token: token_a,
        output_token: token_b,
        input_amount: 1000,
        min_output_amount: 0,
    };
    let _ = DexRequestProcessor::new(&mut state).process_request(request, true);

    // Failed request (unknown token)
    let unknown = UNKNOWN;
    let request = SwapRequest {
        input_token: unknown,
        output_token: token_b,
        input_amount: 1000,
        min_output_amount: 0,
    };
    let _ = DexRequestProcessor::new(&mut state).process_request(request, true);

    // Verify metrics
    assert_eq!(state.metrics.events_total, 1);
    assert_eq!(state.metrics.requests_total, 2);
    assert_eq!(state.metrics.requests_failed, 1);
}

#[test]
fn crossed_and_empty_books_are_turned_away() {
    let mut state = AggregatorState::new();
    let mut processor = DexEventProcessor::new(&mut state);
    let crossed = processor.process_orderbook_at(make_orderbook(TOKEN_A, TOKEN_B, 101, 99), 5);
    assert!(matches!(crossed, Err(Error::InvalidOrderbook(msg)) if msg == "crossed/empty book"));
    let empty = processor.process_orderbook(OrderbookState::new(TOKEN_A, TOKEN_B));
    assert!(matches!(empty, Err(Error::InvalidOrderbook(msg)) if msg == "crossed/empty book"));

    assert_eq!(state.metrics.events_invalid, 2);
    assert_eq!(state.metrics.events_total, 0);
    assert_eq!(state.orderbook_count(), 0);
    assert!(!state.contains_token(TOKEN_A));
    assert_eq!(state.token_count(), 0);
}

#[test]
fn a_turned_away_update_leaves_the_earlier_book() {
    let mut state = AggregatorState::new();
    let mut processor = DexEventProcessor::new(&mut state);
    processor
        .process_orderbook_at(make_orderbook(TOKEN_A, TOKEN_B, 99, 101), 5)
        .unwrap();
    assert!(processor
        .process_orderbook_at(make_orderbook(TOKEN_A, TOKEN_B, 101, 99), 7)
        .is_err());
    assert_eq!(state.get_meta(&(TOKEN_A, TOKEN_B)).unwrap().updated_at, 5);
    let book = state.get_orderbook(&(TOKEN_A, TOKEN_B)).unwrap();
    assert_eq!(book.bids()[0].px, 99);
}

#[test]
fn updates_are_recorded_with_their_time_and_health() {
    let mut state = AggregatorState::default();
    state.upsert_orderbook_at(make_orderbook(TOKEN_A, TOKEN_B, 99, 101), 40 * SECOND);
    let meta = state.get_meta(&(TOKEN_A, TOKEN_B)).unwrap();
    assert_eq!(meta.updated_at, 40 * SECOND);
    assert!(meta.healthy);
    assert!(state.get_meta(&(TOKEN_B, TOKEN_A)).is_none());
    let pair = (TOKEN_A, TOKEN_B);
    assert!(state.is_pair_usable_at(&pair, 10 * SECOND, 50 * SECOND));
    assert!(!state.is_pair_usable_at(&pair, 10 * SECOND, 50 * SECOND + 1));
    assert!(!state.is_pair_usable_at(&(TOKEN_B, TOKEN_A), 10 * SECOND, 45 * SECOND));

    // A crossed book that comes in past the processor is kept but not used.
    state.upsert_orderbook_at(make_orderbook(TOKEN_A, TOKEN_B, 101, 99), 60 * SECOND);
    assert_eq!(state.orderbook_count(), 1);
    assert!(!state.get_meta(&pair).unwrap().healthy);
    assert!(!state.is_pair_usable_at(&pair, 10 * SECOND, 60 * SECOND));
    assert!(find_best_route_at(&mut state, TOKEN_A, TOKEN_B, 10, 60 * SECOND).is_none());
    assert_eq!(state.metrics.stale_or_unhealthy_skipped, 1);
    assert_eq!(state.metrics.snapshots_taken, 1);
}

#[test]
fn the_clock_is_read_where_no_time_is_given() {
    let mut state = AggregatorState::new();
    let pair = (TOKEN_A, TOKEN_B);
    state.upsert_orderbook(make_orderbook(TOKEN_A, TOKEN_B, 99, 101));
    let first = state.get_meta(&pair).unwrap().updated_at;
    let mut rounds = 0u64;
    while rounds < 1_000_000 && state.get_meta(&pair).unwrap().updated_at == first {
        state.upsert_orderbook(make_orderbook(TOKEN_A, TOKEN_B, 99, 101));
        rounds += 1;
    }
    assert!(state.get_meta(&pair).unwrap().updated_at > first);
    assert!(state.is_pair_usable(&pair, 20 * SECOND));
    assert!(!state.is_pair_usable(&(TOKEN_B, TOKEN_A), 20 * SECOND));
    let route = find_best_route(&mut state, TOKEN_A, TOKEN_B, 10).unwrap();
    assert_eq!(route[0].expected_output_amount, 990);
}

#[test]
fn books_are_used_for_thirty_seconds() {
    let mut state = AggregatorState::new();
    state.upsert_orderbook_at(make_orderbook(TOKEN_A, TOKEN_B, 99, 101), 0);
    let fresh = find_best_route_at(&mut state, TOKEN_A, TOKEN_B, 10, 30 * SECOND);
    assert_eq!(fresh.unwrap()[0].expected_output_amount, 990);
    assert_eq!(state.metrics.stale_or_unhealthy_skipped, 0);
    let stale = find_best_route_at(&mut state, TOKEN_A, TOKEN_B, 10, 30 * SECOND + 1);
    assert!(stale.is_none());
    assert_eq!(state.metrics.stale_or_unhealthy_skipped, 1);
    assert_eq!(state.metrics.snapshots_taken, 2);
}

#[test]
fn the_search_goes_around_stale_books_and_counts_them() {
    let mut state = AggregatorState::new();
    // The direct book pays best but is old.
    state.upsert_orderbook_at(make_orderbook(1, 2, 1000, 2000), 0);
    state.upsert_orderbook_at(make_orderbook(1, 3, 2, 9), 50 * SECOND);
    state.upsert_orderbook_at(make_orderbook(3, 2, 2, 9), 50 * SECOND);
    let route = find_best_route_at(&mut state, 1, 2, 100, 50 * SECOND).unwrap();
    assert_eq!(route.len(), 2);
    assert_eq!(route[1].expected_output_amount, 400);
    // From 1: the stale book is passed over. From 3: back to 1, where it is passed over again
    // (buying 1 with 200 of 3 yields 22).
    assert_eq!(state.metrics.stale_or_unhealthy_skipped, 2);
}

#[test]
fn requests_are_answered_in_order_of_what_is_wrong() {
    let mut state = AggregatorState::new();
    state.upsert_orderbook_at(make_orderbook(1, 2, 99, 101), 0);
    state.upsert_orderbook_at(make_orderbook(3, 4, 99, 101), 0);

    assert_eq!(message(ask_at(&mut state, swap(1, 1, 0), 1)), "same token");
    assert_eq!(message(ask_at(&mut state, swap(UNKNOWN, 2, 0), 1)), "zero amount");
    assert_eq!(state.circuit_breaker.failure_count(), 0);
    assert_eq!(state.metrics.requests_failed, 0);

    assert_eq!(message(ask_at(&mut state, swap(UNKNOWN, 2, 5), 1)), "invalid request");
    assert_eq!(message(ask_at(&mut state, swap(1, UNKNOWN, 5), 1)), "invalid request");
    assert_eq!(state.circuit_breaker.failure_count(), 2);
    assert_eq!(state.metrics.snapshots_taken, 0);

    assert_eq!(message(ask_at(&mut state, swap(1, 4, 5), 1)), "no path");
    assert_eq!(state.circuit_breaker.failure_count(), 3);
    assert_eq!(state.metrics.snapshots_taken, 1);
    assert_eq!(state.metrics.requests_failed, 3);

    // Too high a least output counts as failed, but not against the service.
    let mut greedy = swap(1, 2, 5);
    greedy.min_output_amount = 496;
    assert_eq!(message(ask_at(&mut state, greedy, 1)), "slippage: 495 < 496");
    assert_eq!(state.circuit_breaker.failure_count(), 3);
    assert_eq!(state.metrics.requests_failed, 4);

    // A route starts the count of failures again.
    greedy.min_output_amount = 495;
    assert!(matches!(ask_at(&mut state, greedy, 1), SwapResponse::Success(_)));
    assert_eq!(state.circuit_breaker.failure_count(), 0);
    assert_eq!(
        state.metrics,
        Metrics {
            events_total: 0,
            events_invalid: 0,
            requests_total: 7,
            requests_failed: 4,
            requests_rate_limited: 0,
            snapshots_taken: 3,
            stale_or_unhealthy_skipped: 0,
        }
    );
}

#[test]
fn requests_without_a_permit_are_rate_limited() {
    let mut state = AggregatorState::new();
    state.upsert_orderbook(make_orderbook(1, 2, 99, 101));
    let response = DexRequestProcessor::new(&mut state)
        .process_request(swap(1, 2, 5), false)
        .unwrap();
    assert_eq!(message(response), "rate limited");
    assert_eq!(state.metrics.requests_total, 1);
    assert_eq!(state.metrics.requests_rate_limited, 1);
    assert_eq!(state.metrics.requests_failed, 0);
    assert_eq!(state.metrics.snapshots_taken, 0);
}

#[test]
fn stale_books_open_the_circuit_too() {
    let mut state = AggregatorState::new();
    state.upsert_orderbook_at(make_orderbook(1, 2, 99, 101), 0);
    for _ in 0..4 {
        assert_eq!(message(ask_at(&mut state, swap(1, 2, 5), 40 * SECOND)), "no path");
        assert_eq!(state.circuit_breaker.current_state(), "closed");
    }
    assert_eq!(message(ask_at(&mut state, swap(1, 2, 5), 40 * SECOND)), "no path");
    assert_eq!(state.circuit_breaker.current_state(), "open");
}

#[test]
fn the_circuit_recovers_with_fresh_books() {
    let mut state = AggregatorState::new();
    for _ in 0..5 {
        ask_at(&mut state, swap(1, 2, 5), 0);
    }
    state.upsert_orderbook_at(make_orderbook(1, 2, 99, 101), SECOND);

    // The circuit stays open for ten seconds, whatever the books are like.
    let early = 10 * SECOND - 1;
    assert_eq!(message(ask_at(&mut state, swap(1, 2, 5), early)), "service degraded");
    assert_eq!(state.metrics.snapshots_taken, 0);
    assert_eq!(state.metrics.requests_failed, 6);

    // A mistake of the requester decides nothing about the service.
    assert_eq!(message(ask_at(&mut state, swap(1, 1, 5), 10 * SECOND)), "same token");
    assert_eq!(state.circuit_breaker.current_state(), "half-open");

    assert!(matches!(
        ask_at(&mut state, swap(1, 2, 5), 10 * SECOND),
        SwapResponse::Success(_)
    ));
    assert_eq!(state.circuit_breaker.current_state(), "closed");
    assert_eq!(state.circuit_breaker.failure_count(), 0);
}

#[test]
fn the_circuit_opens_again_when_the_trial_fails() {
    let mut state = AggregatorState::new();
    for _ in 0..5 {
        ask_at(&mut state, swap(1, 2, 5), 0);
    }
    assert_eq!(message(ask_at(&mut state, swap(1, 2, 5), 10 * SECOND)), "invalid request");
    assert_eq!(state.circuit_breaker.current_state(), "open");
    let later = 20 * SECOND;
    assert_eq!(message(ask_at(&mut state, swap(1, 2, 5), later - 1)), "service degraded");
    assert_eq!(message(ask_at(&mut state, swap(1, 2, 5), later)), "invalid request");
}

#[test]
fn counters_wrap_around() {
    let mut state = AggregatorState::new();
    state.metrics.requests_total = u64::MAX;
    state.metrics.stale_or_unhealthy_skipped = u64::MAX;
    state.upsert_orderbook_at(make_orderbook(1, 2, 99, 101), 0);
    ask_at(&mut state, swap(1, 2, 5), 31 * SECOND);
    assert_eq!(state.metrics.requests_total, 0);
    assert_eq!(state.metrics.stale_or_unhealthy_skipped, 0);
}

#[test]
fn the_circuit_opens_when_the_failure_is_recorded() {
    let mut state = AggregatorState::new();
    let slow = Moments {
        admitted: 0,
        routed: 0,
        settled: 3 * SECOND,
    };
    for _ in 0..5 {
        DexRequestProcessor::new(&mut state)
            .process_request_at(swap(1, 2, 5), true, slow)
            .unwrap();
    }
    // The wait counts from the end of the last request.
    let early = 13 * SECOND - 1;
    assert_eq!(message(ask_at(&mut state, swap(1, 2, 5), early)), "service degraded");
    assert_eq!(message(ask_at(&mut state, swap(1, 2, 5), 13 * SECOND)), "invalid request");
}

#[test]
fn staleness_is_judged_when_the_books_are_looked_at() {
    let mut state = AggregatorState::new();
    state.upsert_orderbook_at(make_orderbook(1, 2, 99, 101), 0);
    let mut at = all_at(0);
    at.routed = 30 * SECOND + 1;
    let response = DexRequestProcessor::new(&mut state)
        .process_request_at(swap(1, 2, 5), true, at)
        .unwrap();
    assert_eq!(message(response), "no path");
    at = all_at(60 * SECOND);
    at.routed = 30 * SECOND;
    let response = DexRequestProcessor::new(&mut state)
        .process_request_at(swap(1, 2, 5), true, at)
        .unwrap();
    assert!(matches!(response, SwapResponse::Success(_)));
}

#[test]
fn another_breaker_keeps_its_own_time() {
    let mut state = AggregatorState::new();
    // Time passes before the breaker is put in.
    let pair = (1, 2);
    state.upsert_orderbook(make_orderbook(1, 2, 99, 101));
    let start = state.get_meta(&pair).unwrap().updated_at;
    let mut rounds = 0u64;
    while rounds < 10_000_000 && state.get_meta(&pair).unwrap().updated_at < start + 50_000_000 {
        state.upsert_orderbook(make_orderbook(1, 2, 99, 101));
        rounds += 1;
    }
    state.circuit_breaker = CircuitBreaker::new(1, 1000 * SECOND);
    let response = DexRequestProcessor::new(&mut state)
        .process_request(swap(1, UNKNOWN, 5), true)
        .unwrap();
    assert_eq!(message(response), "invalid request");
    assert_eq!(state.circuit_breaker.current_state(), "open");
    assert!(!state.circuit_breaker.allow_request());

    // One without a wait is tried again at once, by its own clock.
    state.circuit_breaker = CircuitBreaker::new(1, 0);
    state.circuit_breaker.record_failure();
    let response = DexRequestProcessor::new(&mut state)
        .process_request(swap(1, 2, 5), true)
        .unwrap();
    assert!(matches!(response, SwapResponse::Success(_)));
    assert_eq!(state.circuit_breaker.current_state(), "closed");
}

#[test]
fn a_search_gives_the_same_route_until_a_book_goes_stale() {
    let mut state = AggregatorState::new();
    state.upsert_orderbook_at(make_orderbook(1, 2, 99, 101), 0);
    state.upsert_orderbook_at(make_orderbook(1, 3, 50, 60), 5 * SECOND);
    state.upsert_orderbook_at(make_orderbook(3, 2, 50, 60), 5 * SECOND);
    let first = find_best_route_at(&mut state, 1, 2, 10, 5 * SECOND);
    let second = find_best_route_at(&mut state, 1, 2, 10, 30 * SECOND);
    assert_eq!(first, second);
    assert_eq!(second.unwrap()[1].expected_output_amount, 25_000);
    assert_eq!(state.metrics.stale_or_unhealthy_skipped, 0);
    // Then the direct book is passed over, from 1 and from 1 again behind 3.
    let third = find_best_route_at(&mut state, 1, 2, 1000, 31 * SECOND).unwrap();
    assert_eq!(third.len(), 2);
    assert_eq!(state.metrics.stale_or_unhealthy_skipped, 2);
}

#[test]
fn the_books_grow_old_while_others_come_in() {
    let mut state = AggregatorState::new();
    state.upsert_orderbook(make_orderbook(1, 2, 99, 101));
    let mut rounds = 0u64;
    while state.is_pair_usable(&(1, 2), 20_000_000) && rounds < 100_000_000 {
        state.upsert_orderbook(make_orderbook(3, 4, 99, 101));
        let _ = DexRequestProcessor::new(&mut state).process_request(swap(3, 4, 5), true);
        rounds += 1;
    }
    assert!(!state.is_pair_usable(&(1, 2), 20_000_000));
}
