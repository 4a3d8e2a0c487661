//! Order books, matching, freshness and units of time.

use aggregator::dex::state::AggregatorState;
use aggregator::duration::{readable_unit, TimeUnit};
use aggregator::freshness::{BookMeta, STALE_TTL};
use aggregator::matching::{match_order, MatchResult};
use aggregator::orderbook::{OrderbookLevel, OrderbookState};
use aggregator::types::Side;

fn book(bids: &[(u64, u64)], asks: &[(u64, u64)]) -> OrderbookState {
    let mut ob = OrderbookState::new(1, 2);
    for (px, sz) in bids {
        ob.insert_bid(OrderbookLevel { px: *px, sz: *sz });
    }
    for (px, sz) in asks {
        ob.insert_ask(OrderbookLevel { px: *px, sz: *sz });
    }
    ob
}

fn levels(levels: &[OrderbookLevel]) -> Vec<(u64, u64)> {
    levels.iter().map(|l| (l.px, l.sz)).collect()
}

fn filled(input_consumed: u64, output_produced: u64) -> MatchResult {
    MatchResult {
        input_consumed,
        output_produced,
    }
}

#[test]
fn levels_are_kept_best_price_first() {
    let ob = book(
        &[(10, 1), (12, 2), (11, 3), (12, 4)],
        &[(15, 1), (13, 2), (14, 3), (13, 4)],
    );
    assert_eq!(levels(ob.bids()), vec![(12, 2), (12, 4), (11, 3), (10, 1)]);
    assert_eq!(levels(ob.asks()), vec![(13, 2), (13, 4), (14, 3), (15, 1)]);
    let copy = ob.clone();
    assert_eq!(levels(copy.bids()), levels(ob.bids()));
    assert_eq!(levels(copy.asks()), levels(ob.asks()));
    assert_eq!(copy.pair(), (1, 2));
}

#[test]
fn books_are_healthy_unless_empty_or_crossed() {
    assert!(AggregatorState::validate_orderbook(&book(&[(9, 1)], &[(10, 1)])));
    assert!(!AggregatorState::validate_orderbook(&book(&[(10, 1)], &[(10, 1)])));
    assert!(!AggregatorState::validate_orderbook(&book(&[(11, 1)], &[(10, 1)])));
    assert!(!AggregatorState::validate_orderbook(&book(&[], &[])));
    assert!(AggregatorState::validate_orderbook(&book(&[(11, 1)], &[])));
    assert!(AggregatorState::validate_orderbook(&book(&[], &[(11, 1)])));
    assert!(aggregator::health::state::AggregatorState::validate_orderbook(&book(&[], &[(11, 1)])));
    assert!(!aggregator::health::state::AggregatorState::validate_orderbook(&book(&[], &[])));
}

#[test]
fn levels_without_size_do_not_count() {
    assert!(!AggregatorState::validate_orderbook(&book(&[(9, 0)], &[(10, 0)])));
    // The bid above the asks has nothing behind it.
    assert!(AggregatorState::validate_orderbook(&book(&[(20, 0), (9, 1)], &[(10, 1)])));
    assert!(!AggregatorState::validate_orderbook(&book(&[(9, 0), (8, 1)], &[(5, 0), (7, 1)])));
    assert!(AggregatorState::validate_orderbook(&book(&[(20, 0)], &[(10, 1)])));
}

#[test]
fn buying_walks_the_asks_from_the_cheapest_up() {
    let ob = book(&[], &[(10, 3), (11, 2), (20, 100)]);
    assert_eq!(match_order(&ob, Side::Ask, 9), filled(0, 0));
    assert_eq!(match_order(&ob, Side::Ask, 25), filled(20, 2));
    // Three for thirty, then two for twenty-two.
    assert_eq!(match_order(&ob, Side::Ask, 52), filled(52, 5));
    assert_eq!(match_order(&ob, Side::Ask, 71), filled(52, 5));
    assert_eq!(match_order(&ob, Side::Ask, 72), filled(72, 6));
    assert_eq!(match_order(&ob, Side::Ask, 1_000_000), filled(2052, 105));
    assert_eq!(match_order(&ob, Side::Ask, 0), filled(0, 0));
    // What one level leaves over may still buy at a later level only if that is no dearer.
    assert_eq!(match_order(&ob, Side::Ask, 39), filled(30, 3));
}

#[test]
fn buying_stops_at_a_price_of_zero() {
    let ob = book(&[], &[(0, 5), (1, 5)]);
    assert_eq!(match_order(&ob, Side::Ask, 10), filled(0, 0));
}

#[test]
fn selling_walks_the_bids_from_the_highest_down() {
    let ob = book(&[(10, 3), (12, 2)], &[]);
    assert_eq!(match_order(&ob, Side::Bid, 1), filled(1, 12));
    assert_eq!(match_order(&ob, Side::Bid, 4), filled(4, 44));
    assert_eq!(match_order(&ob, Side::Bid, 9), filled(5, 54));
    assert_eq!(match_order(&ob, Side::Bid, 0), filled(0, 0));
    assert_eq!(match_order(&ob, Side::Ask, 9), filled(0, 0));
    // A bid of nothing takes what it is given.
    assert_eq!(match_order(&book(&[(0, 3)], &[]), Side::Bid, 2), filled(2, 0));
}

#[test]
fn proceeds_stop_at_the_largest_amount() {
    let ob = book(&[(u64::MAX, u64::MAX)], &[]);
    assert_eq!(match_order(&ob, Side::Bid, 1), filled(1, u64::MAX));
    assert_eq!(match_order(&ob, Side::Bid, 2), filled(2, u64::MAX));
    assert_eq!(match_order(&ob, Side::Bid, u64::MAX), filled(u64::MAX, u64::MAX));
    let two = book(&[(u64::MAX, 1), (5, 1)], &[]);
    assert_eq!(match_order(&two, Side::Bid, 2), filled(2, u64::MAX));
    let cheap = book(&[], &[(1, u64::MAX)]);
    assert_eq!(match_order(&cheap, Side::Ask, u64::MAX), filled(u64::MAX, u64::MAX));
}

#[test]
fn a_book_is_usable_until_it_is_older_than_the_limit() {
    let meta = BookMeta {
        updated_at: 1000,
        healthy: true,
    };
    assert!(meta.is_usable(STALE_TTL, 1000));
    assert!(meta.is_usable(STALE_TTL, 1000 + STALE_TTL));
    assert!(!meta.is_usable(STALE_TTL, 1001 + STALE_TTL));
    assert!(meta.is_usable(0, 500));
    let sick = BookMeta {
        updated_at: 1000,
        healthy: false,
    };
    assert!(!sick.is_usable(STALE_TTL, 1000));
    assert_eq!(STALE_TTL, 30 * 1_000_000_000);
}

#[test]
fn lengths_of_time_get_the_largest_unit_that_they_fill() {
    assert_eq!(readable_unit(0), TimeUnit::Nanos);
    assert_eq!(readable_unit(999), TimeUnit::Nanos);
    assert_eq!(readable_unit(1_000), TimeUnit::Micros);
    assert_eq!(readable_unit(999_999), TimeUnit::Micros);
    assert_eq!(readable_unit(1_000_000), TimeUnit::Millis);
    assert_eq!(readable_unit(999_999_999), TimeUnit::Millis);
    assert_eq!(readable_unit(1_000_000_000), TimeUnit::Secs);
    assert_eq!(readable_unit(u128::MAX), TimeUnit::Secs);
}

#[test]
fn fills_grow_with_the_amount() {
    let ob = book(&[(12, 2), (10, 3), (7, 0), (1, 4)], &[(13, 2), (13, 1), (17, 3), (40, 9)]);
    for side in [Side::Bid, Side::Ask] {
        let mut last = filled(0, 0);
        for amount in 0..600 {
            let next = match_order(&ob, side, amount);
            assert!(next.input_consumed >= last.input_consumed);
            assert!(next.output_produced >= last.output_produced);
            last = next;
        }
    }
}

#[test]
fn no_split_does_better() {
    let bids = [(12, 2), (10, 3), (1, 2)];
    let asks = [(3, 2), (5, 1), (8, 3)];
    let ob = book(&bids, &asks);
    for amount in 0..40u64 {
        let sold = match_order(&ob, Side::Bid, amount);
        let bought = match_order(&ob, Side::Ask, amount);
        for a in 0..4u64 {
            for b in 0..4u64 {
                for c in 0..4u64 {
                    if a <= bids[0].1 && b <= bids[1].1 && c <= bids[2].1 && a + b + c <= amount {
                        let yielded = a * bids[0].0 + b * bids[1].0 + c * bids[2].0;
                        assert!(yielded <= sold.output_produced);
                    }
                    let cost = a * asks[0].0 + b * asks[1].0 + c * asks[2].0;
                    if a <= asks[0].1 && b <= asks[1].1 && c <= asks[2].1 && cost <= amount {
                        assert!(a + b + c <= bought.output_produced);
                    }
                }
            }
        }
        assert!(sold.input_consumed <= 7 && bought.output_produced <= 6);
        // What is left does not pay for one more at the dearest level while it has some.
        if bought.output_produced < 6 {
            assert!(amount - bought.input_consumed < 8);
        }
    }
}
