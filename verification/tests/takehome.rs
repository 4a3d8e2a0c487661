//! The plain aggregator: books, matching, routes and requests.

use aggregator::matching::match_order;
use aggregator::orderbook::{OrderbookLevel, OrderbookState};
use aggregator::takehome::event_processor::TakehomeEventProcessor;
use aggregator::takehome::request_processor::TakehomeRequestProcessor;
use aggregator::takehome::routing::find_best_route;
use aggregator::takehome::state::AggregatorState;
use aggregator::types::{Address, Side, Swap, SwapRequest, SwapResponse};

const A: Address = 0xa1;
const B: Address = 0xb2;
const C: Address = 0xc3;
const D: Address = 0xd4;
const E: Address = 0xe5;

fn simple_book(
    base: Address,
    quote: Address,
    bid_px: u64,
    ask_px: u64,
    size: u64,
) -> OrderbookState {
    let mut ob = OrderbookState::new(base, quote);
    ob.insert_bid(OrderbookLevel {
        px: bid_px,
        sz: size,
    });
    ob.insert_ask(OrderbookLevel {
        px: ask_px,
        sz: size,
    });
    ob
}

fn one_bid(base: Address, quote: Address, px: u64, sz: u64) -> OrderbookState {
    let mut ob = OrderbookState::new(base, quote);
    ob.insert_bid(OrderbookLevel { px, sz });
    ob
}

#[test]
fn edges_created_both_directions() {
    let base = A;
    let quote = B;
    let ob = simple_book(base, quote, 10, 12, 100);

    let mut state = AggregatorState::new();
    state.upsert_orderbook(ob);

    let neighbors_base = state.neighbors(base);
    let neighbors_quote = state.neighbors(quote);

    assert_eq!(neighbors_base.len(), 1);
    assert_eq!(neighbors_quote.len(), 1);
    assert_eq!(neighbors_base[0].target, quote);
    assert_eq!(neighbors_base[0].side, Side::Bid);
    assert_eq!(neighbors_quote[0].target, base);
    assert_eq!(neighbors_quote[0].side, Side::Ask);
}

#[test]
fn route_finds_direct_path() {
    let a = A;
    let b = B;
    let ob = simple_book(a, b, 20, 22, 100);

    let mut state = AggregatorState::new();
    state.upsert_orderbook(ob);

    let route = find_best_route(&state, a, b, 50).expect("route");
    assert_eq!(route.len(), 1);
    assert!(route[0].expected_output_amount > 0);
}

#[test]
fn multi_hop_route() {
    let a = A;
    let b = B;
    let c = C;

    let mut state = AggregatorState::new();
    state.upsert_orderbook(simple_book(a, c, 100, 102, 1000));
    state.upsert_orderbook(simple_book(c, b, 100, 102, 1000));

    let route = find_best_route(&state, a, b, 100).expect("route");
    assert_eq!(route.len(), 2);
    assert_eq!(route[0].input_token, a);
    assert_eq!(route[0].output_token, c);
    assert_eq!(route[1].input_token, c);
    assert_eq!(route[1].output_token, b);
}

#[test]
fn matching_handles_edge_cases() {
    let a = A;
    let b = B;
    let mut ob = OrderbookState::new(a, b);
    ob.insert_ask(OrderbookLevel {
        px: 0,
        sz: u64::MAX,
    });
    ob.insert_bid(OrderbookLevel {
        px: u64::MAX,
        sz: u64::MAX,
    });

    // Zero price ask should produce nothing
    let ask_result = match_order(&ob, Side::Ask, 10);
    assert_eq!(ask_result.output_produced, 0);

    // Large bid should saturate, not overflow
    let bid_result = match_order(&ob, Side::Bid, 2);
    assert!(bid_result.output_produced > 0);
}

#[test]
fn upsert_updates_existing_orderbook() {
    let a = A;
    let b = B;

    let mut state = AggregatorState::new();
    state.upsert_orderbook(simple_book(a, b, 10, 12, 100));
    assert_eq!(state.orderbook_count(), 1);

    // Same pair should update, not insert
    state.upsert_orderbook(simple_book(a, b, 11, 13, 200));
    assert_eq!(state.orderbook_count(), 1);
}

#[test]
fn request_processor_returns_route() {
    let mut state = AggregatorState::new();
    let a = A;
    let b = B;

    {
        let mut processor = TakehomeEventProcessor::new(&mut state);
        processor
            .process_orderbook(simple_book(a, b, 10, 12, 100))
            .unwrap();
    }

    let processor = TakehomeRequestProcessor::new(&state);
    let req = SwapRequest {
        input_token: a,
        output_token: b,
        input_amount: 50,
        min_output_amount: 0,
    };

    let resp = processor.process_request(req).unwrap();
    assert!(matches!(resp, SwapResponse::Success(_)));
}

#[test]
fn no_path_returns_none() {
    let a = A;
    let b = B;
    let c = C;

    let mut state = AggregatorState::new();
    // a-b connected, but c is isolated
    state.upsert_orderbook(simple_book(a, b, 10, 12, 100));

    assert!(find_best_route(&state, a, c, 100).is_none());
}

#[test]
fn rejects_same_token() {
    let state = AggregatorState::new();
    let a = A;

    let processor = TakehomeRequestProcessor::new(&state);
    let req = SwapRequest {
        input_token: a,
        output_token: a,
        input_amount: 100,
        min_output_amount: 0,
    };

    let resp = processor.process_request(req).unwrap();
    assert!(matches!(resp, SwapResponse::Failure(msg) if msg == "same token"));
}

#[test]
fn rejects_unknown_token() {
    let state = AggregatorState::new();
    let a = A;
    let b = B;

    // No orderbooks added, tokens are unknown
    let processor = TakehomeRequestProcessor::new(&state);
    let req = SwapRequest {
        input_token: a,
        output_token: b,
        input_amount: 100,
        min_output_amount: 0,
    };

    let resp = processor.process_request(req).unwrap();
    assert!(matches!(resp, SwapResponse::Failure(msg) if msg == "unknown tokens"));
}

#[test]
fn rejects_slippage() {
    let mut state = AggregatorState::new();
    let a = A;
    let b = B;

    {
        let mut processor = TakehomeEventProcessor::new(&mut state);
        processor
            .process_orderbook(simple_book(a, b, 10, 12, 100))
            .unwrap();
    }

    let processor = TakehomeRequestProcessor::new(&state);
    let req = SwapRequest {
        input_token: a,
        output_token: b,
        input_amount: 50,
        min_output_amount: u64::MAX, // Impossible to satisfy
    };

    let resp = processor.process_request(req).unwrap();
    assert!(matches!(resp, SwapResponse::Failure(msg) if msg.starts_with("slippage")));
}

#[test]
fn picks_best_route_among_alternatives() {
    let a = A;
    let b = B;
    let c = C;

    let mut state = AggregatorState::new();

    // Direct route a->b with bad rate (price 20)
    let mut direct = OrderbookState::new(a, b);
    direct.insert_bid(OrderbookLevel { px: 20, sz: 1000 });
    state.upsert_orderbook(direct);

    // Indirect route a->c->b with better effective rate
    let mut ac = OrderbookState::new(a, c);
    ac.insert_bid(OrderbookLevel { px: 100, sz: 1000 }); // a sells for 100 c each
    state.upsert_orderbook(ac);

    let mut cb = OrderbookState::new(c, b);
    cb.insert_bid(OrderbookLevel { px: 50, sz: 100000 }); // c sells for 50 b each
    state.upsert_orderbook(cb);

    // Swap 10 a -> b
    // Direct: 10 * 20 = 200 b
    // Indirect: 10 * 100 = 1000 c, then 1000 * 50 = 50000 b
    let route = find_best_route(&state, a, b, 10).expect("route");
    let output = route.last().unwrap().expected_output_amount;

    // Should pick the indirect route with much higher output
    assert!(
        output > 200,
        "expected indirect route, got output {}",
        output
    );
}

#[test]
fn partial_fill_limited_liquidity() {
    let a = A;
    let b = B;

    // Only 10 units available at price 100
    let mut ob = OrderbookState::new(a, b);
    ob.insert_bid(OrderbookLevel { px: 100, sz: 10 });

    let result = match_order(&ob, Side::Bid, 50); // Try to sell 50

    // Should only fill 10 (all available liquidity)
    assert_eq!(result.input_consumed, 10);
    assert_eq!(result.output_produced, 1000); // 10 * 100
}

#[test]
fn an_update_leaves_the_edges_and_the_other_books_alone() {
    let mut state = AggregatorState::new();
    state.upsert_orderbook(simple_book(A, B, 10, 12, 100));
    state.upsert_orderbook(simple_book(C, B, 5, 6, 70));
    let before = state.neighbors(B);
    state.upsert_orderbook(simple_book(A, B, 11, 13, 200));

    assert_eq!(state.neighbors(B), before);
    assert_eq!(state.neighbors(A).len(), 1);
    let updated = state.get_orderbook(&(A, B)).unwrap();
    assert_eq!(updated.pair(), (A, B));
    assert_eq!(updated.bids()[0], OrderbookLevel { px: 11, sz: 200 });
    assert_eq!(updated.asks()[0], OrderbookLevel { px: 13, sz: 200 });
    let other = state.get_orderbook(&(C, B)).unwrap();
    assert_eq!(other.bids()[0], OrderbookLevel { px: 5, sz: 70 });
    assert_eq!(state.orderbook_count(), 2);
}

#[test]
fn pairs_are_directed() {
    let mut state = AggregatorState::new();
    state.upsert_orderbook(simple_book(A, B, 10, 12, 100));
    assert!(state.get_orderbook(&(B, A)).is_none());
    assert!(state.get_orderbook(&(A, B)).is_some());

    state.upsert_orderbook(simple_book(B, A, 3, 4, 100));
    assert_eq!(state.orderbook_count(), 2);
    assert_eq!(state.neighbors(A).len(), 2);
    assert_eq!(state.neighbors(B).len(), 2);
}

#[test]
fn edges_stand_in_the_order_in_which_pairs_were_first_seen() {
    let mut state = AggregatorState::new();
    state.upsert_orderbook(simple_book(A, B, 10, 12, 100));
    state.upsert_orderbook(simple_book(C, A, 10, 12, 100));
    state.upsert_orderbook(simple_book(A, D, 10, 12, 100));
    state.upsert_orderbook(simple_book(A, B, 10, 12, 100));

    let targets: Vec<Address> = state.neighbors(A).iter().map(|e| e.target).collect();
    assert_eq!(targets, vec![B, C, D]);
    let sides: Vec<Side> = state.neighbors(A).iter().map(|e| e.side).collect();
    assert_eq!(sides, vec![Side::Bid, Side::Ask, Side::Bid]);
    assert_eq!(state.neighbors(A)[1].pair, (C, A));
}

#[test]
fn tokens_are_known_once_a_book_trades_them() {
    let mut state = AggregatorState::default();
    assert!(!state.contains_token(A));
    assert!(state.neighbors(A).is_empty());
    assert!(state.get_orderbook(&(A, B)).is_none());
    assert_eq!(state.orderbook_count(), 0);
    assert_eq!(state.token_count(), 0);

    state.upsert_orderbook(simple_book(A, B, 10, 12, 100));
    assert!(state.contains_token(A));
    assert!(state.contains_token(B));
    assert!(!state.contains_token(C));
    assert_eq!(state.token_count(), 2);
}

#[test]
fn a_pair_of_one_token_has_two_edges_to_itself() {
    let mut state = AggregatorState::new();
    state.upsert_orderbook(simple_book(A, A, 10, 12, 100));
    let edges = state.neighbors(A);
    assert_eq!(edges.len(), 2);
    assert_eq!(edges[0].side, Side::Ask);
    assert_eq!(edges[1].side, Side::Bid);
}

#[test]
fn many_books_are_counted_and_found() {
    let mut state = AggregatorState::new();
    for round in 0..2 {
        for i in 0..3000u64 {
            state.upsert_orderbook(one_bid(i, i + 1, i + 1 + round, 7));
        }
        assert_eq!(state.orderbook_count(), 3000);
        assert_eq!(state.token_count(), 3001);
    }
    for i in 0..3000u64 {
        let book = state.get_orderbook(&(i, i + 1)).unwrap();
        assert_eq!(book.bids()[0], OrderbookLevel { px: i + 2, sz: 7 });
        assert!(state.contains_token(i));
    }
    assert!(state.get_orderbook(&(3000, 3001)).is_none());
    let route = find_best_route(&state, 1500, 1503, 1).unwrap();
    assert_eq!(route.len(), 3);
    // One unit gives 1502, of which seven fit the next book at 1503, and seven the last at 1504.
    assert_eq!(route[1].input_amount, 7);
    assert_eq!(route[2].expected_output_amount, 7 * 1504);
}

#[test]
fn a_route_lists_its_trades_with_their_amounts() {
    let mut state = AggregatorState::new();
    state.upsert_orderbook(one_bid(A, C, 100, 1000));
    state.upsert_orderbook(one_bid(C, B, 50, 100_000));
    let route = find_best_route(&state, A, B, 10).unwrap();
    assert_eq!(
        route,
        vec![
            Swap {
                input_token: A,
                output_token: C,
                direction: Side::Bid,
                input_amount: 10,
                expected_output_amount: 1000,
            },
            Swap {
                input_token: C,
                output_token: B,
                direction: Side::Bid,
                input_amount: 1000,
                expected_output_amount: 50_000,
            },
        ]
    );
}

#[test]
fn routes_have_at_most_three_trades() {
    let mut state = AggregatorState::new();
    state.upsert_orderbook(one_bid(A, B, 2, 1000));
    state.upsert_orderbook(one_bid(B, C, 2, 1000));
    state.upsert_orderbook(one_bid(C, D, 2, 1000));
    state.upsert_orderbook(one_bid(D, E, 2, 1000));

    let route = find_best_route(&state, A, D, 1).unwrap();
    assert_eq!(route.len(), 3);
    assert_eq!(route[2].expected_output_amount, 8);
    assert!(find_best_route(&state, A, E, 1).is_none());
}

#[test]
fn of_equal_routes_the_shorter_is_chosen() {
    let mut state = AggregatorState::new();
    state.upsert_orderbook(one_bid(A, C, 2, 1000));
    state.upsert_orderbook(one_bid(C, B, 3, 1000));
    state.upsert_orderbook(one_bid(A, B, 6, 1000));
    let route = find_best_route(&state, A, B, 10).unwrap();
    assert_eq!(route.len(), 1);
    assert_eq!(route[0].expected_output_amount, 60);
}

#[test]
fn of_equal_routes_of_one_length_the_earlier_edge_is_chosen() {
    let mut state = AggregatorState::new();
    state.upsert_orderbook(one_bid(A, D, 2, 1000));
    state.upsert_orderbook(one_bid(A, C, 2, 1000));
    state.upsert_orderbook(one_bid(C, B, 3, 1000));
    state.upsert_orderbook(one_bid(D, B, 3, 1000));
    let route = find_best_route(&state, A, B, 10).unwrap();
    assert_eq!(route.len(), 2);
    assert_eq!(route[0].output_token, D);
}

#[test]
fn a_route_does_not_go_on_past_its_destination() {
    // Going through the destination and back would yield more.
    let mut state = AggregatorState::new();
    state.upsert_orderbook(one_bid(A, B, 2, 1000));
    state.upsert_orderbook(one_bid(B, C, 10, 1000));
    state.upsert_orderbook(one_bid(C, B, 10, 1000));
    let route = find_best_route(&state, A, B, 1).unwrap();
    assert_eq!(route.len(), 1);
    assert_eq!(route[0].expected_output_amount, 2);
}

#[test]
fn a_route_may_lead_back_to_its_start() {
    let mut state = AggregatorState::new();
    state.upsert_orderbook(one_bid(A, B, 2, 1000));
    state.upsert_orderbook(one_bid(B, A, 3, 1000));
    let route = find_best_route(&state, A, A, 5).unwrap();
    assert_eq!(route.len(), 2);
    assert_eq!(route[1].output_token, A);
    assert_eq!(route[1].expected_output_amount, 30);
}

#[test]
fn a_trade_that_yields_nothing_is_no_step() {
    let mut state = AggregatorState::new();
    let mut dear = OrderbookState::new(A, B);
    dear.insert_ask(OrderbookLevel { px: 100, sz: 5 });
    state.upsert_orderbook(dear);
    assert!(find_best_route(&state, B, A, 99).is_none());
    assert_eq!(
        find_best_route(&state, B, A, 100).unwrap()[0].expected_output_amount,
        1
    );
    assert!(find_best_route(&state, A, B, 1).is_none());
    assert!(find_best_route(&state, B, A, 0).is_none());
}

#[test]
fn crossed_and_empty_books_are_taken_in() {
    let mut state = AggregatorState::new();
    {
        let mut processor = TakehomeEventProcessor::new(&mut state);
        assert!(processor
            .process_orderbook(simple_book(A, B, 12, 10, 100))
            .is_ok());
        assert!(processor
            .process_orderbook(OrderbookState::new(C, D))
            .is_ok());
    }
    assert_eq!(state.orderbook_count(), 2);
    assert!(state.contains_token(D));
    assert!(find_best_route(&state, A, B, 10).is_some());
}

#[test]
fn a_request_without_a_route_is_told_no_path() {
    let mut state = AggregatorState::new();
    state.upsert_orderbook(simple_book(A, B, 10, 12, 100));
    state.upsert_orderbook(simple_book(C, D, 10, 12, 100));
    let processor = TakehomeRequestProcessor::new(&state);
    let mut request = SwapRequest {
        input_token: A,
        output_token: D,
        input_amount: 5,
        min_output_amount: 0,
    };
    let response = processor.process_request(request).unwrap();
    assert!(matches!(response, SwapResponse::Failure(msg) if msg == "no path"));

    // Nothing to swap yields nothing.
    request.output_token = B;
    request.input_amount = 0;
    let response = processor.process_request(request).unwrap();
    assert!(matches!(response, SwapResponse::Failure(msg) if msg == "no path"));
}

#[test]
fn the_slippage_message_tells_both_amounts() {
    let mut state = AggregatorState::new();
    state.upsert_orderbook(simple_book(A, B, 10, 12, 100));
    let processor = TakehomeRequestProcessor::new(&state);
    let mut request = SwapRequest {
        input_token: A,
        output_token: B,
        input_amount: 50,
        min_output_amount: 501,
    };
    let response = processor.process_request(request).unwrap();
    assert!(matches!(response, SwapResponse::Failure(msg) if msg == "slippage: 500 < 501"));

    request.min_output_amount = u64::MAX;
    let response = processor.process_request(request).unwrap();
    assert!(
        matches!(response, SwapResponse::Failure(msg) if msg == "slippage: 500 < 18446744073709551615")
    );

    // What meets the least output exactly is accepted.
    request.min_output_amount = 500;
    let response = processor.process_request(request).unwrap();
    assert!(matches!(response, SwapResponse::Success(s) if s.route.len() == 1));
}
