//! The aggregator with health tracking.

use aggregator::clock::Nanos;
use aggregator::health::routing::{find_best_route, find_best_route_at};
use aggregator::health::state::{AggregatorState, OrderbookHealth};
use aggregator::orderbook::{OrderbookLevel, OrderbookState};
use aggregator::types::Address;

const SECOND: Nanos = 1_000_000_000;

fn book(base: Address, quote: Address, bid_px: u64, ask_px: u64) -> OrderbookState {
    let mut ob = OrderbookState::new(base, quote);
    ob.insert_bid(OrderbookLevel {
        px: bid_px,
        sz: 10_000,
    });
    ob.insert_ask(OrderbookLevel {
        px: ask_px,
        sz: 10_000,
    });
    ob
}

#[test]
fn health_is_recorded_with_each_update() {
    let mut state = AggregatorState::new();
    assert!(state.get_health(&(1, 2)).is_none());
    state.upsert_orderbook_at(book(1, 2, 99, 101), 7);
    assert_eq!(
        state.get_health(&(1, 2)),
        Some(OrderbookHealth {
            last_updated: 7,
            has_valid_spread: true,
        })
    );
    state.upsert_orderbook_at(book(1, 2, 101, 99), 9);
    assert_eq!(
        state.get_health(&(1, 2)),
        Some(OrderbookHealth {
            last_updated: 9,
            has_valid_spread: false,
        })
    );
    assert_eq!(state.orderbook_count(), 1);
    assert_eq!(state.get_orderbook(&(1, 2)).unwrap().bids()[0].px, 101);
}

#[test]
fn stale_and_crossed_books_are_passed_over() {
    let mut state = AggregatorState::default();
    state.upsert_orderbook_at(book(1, 2, 99, 101), 0);
    let route = find_best_route_at(&mut state, 1, 2, 1000, 30 * SECOND).unwrap();
    assert_eq!(route[0].expected_output_amount, 99_000);
    assert!(find_best_route_at(&mut state, 1, 2, 1000, 60 * SECOND).is_none());
    assert_eq!(state.metrics.stale_or_unhealthy_skipped, 1);
    assert_eq!(state.metrics.snapshots_taken, 2);

    state.upsert_orderbook_at(book(1, 2, 101, 99), 60 * SECOND);
    assert!(find_best_route_at(&mut state, 1, 2, 1000, 60 * SECOND).is_none());
    assert_eq!(state.metrics.stale_or_unhealthy_skipped, 2);
    assert!(!state.is_pair_usable_at(&(1, 2), 30 * SECOND, 60 * SECOND));
}

#[test]
fn updates_and_routes_read_the_clock() {
    let mut state = AggregatorState::new();
    state.upsert_orderbook(book(1, 2, 99, 101));
    assert!(state.is_pair_usable(&(1, 2), 20 * SECOND));
    assert!(state.contains_token(2));
    assert!(!state.contains_token(3));
    assert_eq!(state.token_count(), 2);
    assert_eq!(state.neighbors(1).len(), 1);
    assert_eq!(state.neighbors(3).len(), 0);
    let route = find_best_route(&mut state, 2, 1, 1010).unwrap();
    assert_eq!(route[0].expected_output_amount, 10);
    assert_eq!(state.metrics.snapshots_taken, 1);
}
