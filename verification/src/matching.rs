//! Simulated fills: what an order would use up and yield, level by level.
use vstd::prelude::*;

use crate::orderbook::{BookView, OrderbookLevel, OrderbookState};
use crate::types::Side;

verus! {

/// The outcome of matching an order against a book.
#[derive(Debug, Clone, Copy, PartialEq, Eq)]
pub struct MatchResult {
    /// How much of the input was used; less than asked for where the book runs dry.
    pub input_consumed: u64,
    pub output_produced: u64,
}

/// The smaller of two numbers.
pub open spec fn least(a: nat, b: nat) -> nat {
    if a <= b {
        a
    } else {
        b
    }
}

/// How much base is bought at the first level with `quote` to spend.
pub open spec fn taken(level: OrderbookLevel, quote: nat) -> nat {
    least(quote / (level.px as nat), level.sz as nat)
}

/// The base that `quote` buys, level after level: at each as much as the money and the
/// size allow. The walk ends when the money is gone or a level has price zero.
pub open spec fn bought(asks: Seq<OrderbookLevel>, quote: nat) -> nat
    decreases asks.len(),
{
    if asks.len() == 0 || quote == 0 || asks[0].px == 0 {
        0
    } else {
        let take = taken(asks[0], quote);
        take + bought(asks.drop_first(), (quote - take * asks[0].px) as nat)
    }
}

/// The part of `quote` that those purchases cost.
pub open spec fn spent(asks: Seq<OrderbookLevel>, quote: nat) -> nat
    decreases asks.len(),
{
    if asks.len() == 0 || quote == 0 || asks[0].px == 0 {
        0
    } else {
        let take = taken(asks[0], quote);
        take * asks[0].px as nat + spent(asks.drop_first(), (quote - take * asks[0].px) as nat)
    }
}

/// The size of all levels together.
pub open spec fn total_size(levels: Seq<OrderbookLevel>) -> nat
    decreases levels.len(),
{
    if levels.len() == 0 {
        0
    } else {
        levels[0].sz as nat + total_size(levels.drop_first())
    }
}

/// The quote received for `base`, sold level after level, each up to its size.
pub open spec fn proceeds(bids: Seq<OrderbookLevel>, base: nat) -> nat
    decreases bids.len(),
{
    if bids.len() == 0 {
        0
    } else {
        let take = least(base, bids[0].sz as nat);
        take * bids[0].px as nat + proceeds(bids.drop_first(), (base - take) as nat)
    }
}

/// What matching `amount` against one side of a book gives. Buying spends and buys as the
/// asks allow; selling uses up as much as the bids have room for, and its proceeds stop
/// at the largest amount that can be represented.
pub open spec fn fill(book: BookView, side: Side, amount: u64) -> MatchResult {
    match side {
        Side::Ask => MatchResult {
            input_consumed: spent(book.asks, amount as nat) as u64,
            output_produced: bought(book.asks, amount as nat) as u64,
        },
        Side::Bid => MatchResult {
            input_consumed: least(amount as nat, total_size(book.bids)) as u64,
            output_produced: least(proceeds(book.bids, amount as nat), u64::MAX as nat) as u64,
        },
    }
}

/// A purchase costs no more than the money at hand.
proof fn lemma_affordable(quote: nat, level: OrderbookLevel)
    requires
        level.px > 0,
    ensures
        taken(level, quote) * level.px <= quote,
        taken(level, quote) <= taken(level, quote) * level.px,
{
    let px = level.px as int;
    let take = taken(level, quote) as int;
    assert((quote as int / px) * px <= quote) by (nonlinear_arith)
        requires
            px > 0,
    ;
    assert(take * px <= (quote as int / px) * px) by (nonlinear_arith)
        requires
            take <= quote as int / px,
            px > 0,
    ;
    assert(take <= take * px) by (nonlinear_arith)
        requires
            px > 0,
            take >= 0,
    ;
}

/// Buying never spends more than it is given, and never buys more base than it spends
/// quote.
pub proof fn lemma_buying_is_bounded(asks: Seq<OrderbookLevel>, quote: nat)
    ensures
        bought(asks, quote) <= spent(asks, quote) <= quote,
    decreases asks.len(),
{
    if asks.len() > 0 && quote > 0 && asks[0].px > 0 {
        lemma_affordable(quote, asks[0]);
        let take = taken(asks[0], quote);
        lemma_buying_is_bounded(asks.drop_first(), (quote - take * asks[0].px) as nat);
    }
}

/// No order uses up more than it puts in.
pub proof fn law_fill_stays_within_the_input(book: BookView, side: Side, amount: u64)
    ensures
        fill(book, side, amount).input_consumed <= amount,
        amount == 0 ==> fill(book, side, amount).output_produced == 0,
{
    lemma_buying_is_bounded(book.asks, amount as nat);
    lemma_nothing_to_sell(book.bids);
}

/// No order takes more than the book has on offer.
pub proof fn law_fill_stays_within_the_liquidity(book: BookView, side: Side, amount: u64)
    ensures
        side == Side::Ask ==> fill(book, side, amount).output_produced <= total_size(book.asks),
        side == Side::Bid ==> fill(book, side, amount).input_consumed <= total_size(book.bids),
{
    lemma_buying_is_bounded(book.asks, amount as nat);
    lemma_bought_is_on_offer(book.asks, amount as nat);
}

/// Buying takes from each level no more than its size.
proof fn lemma_bought_is_on_offer(asks: Seq<OrderbookLevel>, quote: nat)
    ensures
        bought(asks, quote) <= total_size(asks),
    decreases asks.len(),
{
    if asks.len() > 0 && quote > 0 && asks[0].px > 0 {
        let take = taken(asks[0], quote);
        lemma_bought_is_on_offer(asks.drop_first(), (quote - take * asks[0].px) as nat);
    }
}

/// Matches an order against one side of a book.
pub fn match_order(orderbook: &OrderbookState, side: Side, input_amount: u64) -> (result:
    MatchResult)
    ensures
        result == fill(orderbook@, side, input_amount),
        result.input_consumed <= input_amount,
{
    match side {
        Side::Ask => match_asks(orderbook, input_amount),
        Side::Bid => match_bids(orderbook, input_amount),
    }
}

/// Buys base by spending quote, from the cheapest ask up.
fn match_asks(orderbook: &OrderbookState, quote_to_spend: u64) -> (result: MatchResult)
    ensures
        result == fill(orderbook@, Side::Ask, quote_to_spend),
        result.input_consumed <= quote_to_spend,
{
    let levels = orderbook.asks();
    let ghost asks = levels@;
    let mut remaining: u64 = quote_to_spend;
    let mut base_out: u64 = 0;
    let mut i: usize = 0;
    assert(asks.skip(0) == asks);
    while i < levels.len() && remaining > 0 && levels[i].px > 0
        invariant
            levels@ == asks,
            i <= asks.len(),
            base_out + remaining <= quote_to_spend,
            bought(asks, quote_to_spend as nat) == base_out + bought(
                asks.skip(i as int),
                remaining as nat,
            ),
            spent(asks, quote_to_spend as nat) == quote_to_spend - remaining + spent(
                asks.skip(i as int),
                remaining as nat,
            ),
        decreases asks.len() - i,
    {
        let level = levels[i];
        let affordable: u64 = remaining / level.px;
        let take: u64 = if affordable <= level.sz {
            affordable
        } else {
            level.sz
        };
        proof {
            lemma_affordable(remaining as nat, level);
            assert(asks.skip(i as int).drop_first() == asks.skip(i + 1));
        }
        let cost: u64 = take * level.px;
        base_out += take;
        remaining -= cost;
        i += 1;
    }
    MatchResult { input_consumed: quote_to_spend - remaining, output_produced: base_out }
}

/// Sells base for quote, from the highest bid down.
fn match_bids(orderbook: &OrderbookState, base_to_sell: u64) -> (result: MatchResult)
    ensures
        result == fill(orderbook@, Side::Bid, base_to_sell),
        result.input_consumed <= base_to_sell,
{
    let levels = orderbook.bids();
    let ghost bids = levels@;
    let mut remaining: u64 = base_to_sell;
    let mut quote_out: u64 = 0;
    let ghost mut received_so_far: nat = 0;
    let mut i: usize = 0;
    assert(bids.skip(0) == bids);
    while i < levels.len() && remaining > 0
        invariant
            levels@ == bids,
            i <= bids.len(),
            remaining <= base_to_sell,
            quote_out == least(received_so_far, u64::MAX as nat),
            proceeds(bids, base_to_sell as nat) == received_so_far + proceeds(
                bids.skip(i as int),
                remaining as nat,
            ),
            least(base_to_sell as nat, total_size(bids)) == base_to_sell - remaining + least(
                remaining as nat,
                total_size(bids.skip(i as int)),
            ),
        decreases bids.len() - i,
    {
        let level = levels[i];
        let take: u64 = if remaining <= level.sz {
            remaining
        } else {
            level.sz
        };
        assert(take * level.px <= 0xffff_ffff_ffff_ffff * 0xffff_ffff_ffff_ffff) by (nonlinear_arith)
            requires
                take <= 0xffff_ffff_ffff_ffff,
                level.px <= 0xffff_ffff_ffff_ffff,
        ;
        // The product of two 64-bit numbers fits 128 bits.
        let worth: u128 = take as u128 * level.px as u128;
        let received: u64 = if worth > u64::MAX as u128 {
            u64::MAX
        } else {
            worth as u64
        };
        proof {
            assert(bids.skip(i as int).drop_first() == bids.skip(i + 1));
            received_so_far = received_so_far + worth as nat;
        }
        quote_out = quote_out.saturating_add(received);
        remaining -= take;
        i += 1;
    }
    proof {
        if remaining == 0 {
            lemma_nothing_to_sell(bids.skip(i as int));
        }
    }
    MatchResult { input_consumed: base_to_sell - remaining, output_produced: quote_out }
}

/// Selling nothing yields nothing.
proof fn lemma_nothing_to_sell(bids: Seq<OrderbookLevel>)
    ensures
        proceeds(bids, 0) == 0,
    decreases bids.len(),
{
    if bids.len() > 0 {
        lemma_nothing_to_sell(bids.drop_first());
        assert(0 * bids[0].px == 0);
    }
}

/// A way to split an order over the levels: how much of each level's size it takes.
pub open spec fn is_split(levels: Seq<OrderbookLevel>, takes: Seq<nat>) -> bool {
    &&& takes.len() == levels.len()
    &&& forall|i: int| 0 <= i < takes.len() ==> #[trigger] takes[i] <= levels[i].sz
}

/// The base that a split moves.
pub open spec fn moved(takes: Seq<nat>) -> nat
    decreases takes.len(),
{
    if takes.len() == 0 {
        0
    } else {
        takes[0] + moved(takes.drop_first())
    }
}

/// The quote that a split moves: each part at its level's price.
pub open spec fn worth(levels: Seq<OrderbookLevel>, takes: Seq<nat>) -> nat
    decreases levels.len(),
{
    if levels.len() == 0 {
        0
    } else {
        takes[0] * levels[0].px as nat + worth(levels.drop_first(), takes.drop_first())
    }
}

/// The split that buying with `quote` makes.
pub open spec fn purchases(asks: Seq<OrderbookLevel>, quote: nat) -> Seq<nat>
    decreases asks.len(),
{
    if asks.len() == 0 {
        Seq::empty()
    } else if quote == 0 || asks[0].px == 0 {
        seq![0nat] + purchases(asks.drop_first(), 0)
    } else {
        let take = taken(asks[0], quote);
        seq![take] + purchases(asks.drop_first(), (quote - take * asks[0].px) as nat)
    }
}

/// The split that selling `base` makes.
pub open spec fn sales(bids: Seq<OrderbookLevel>, base: nat) -> Seq<nat>
    decreases bids.len(),
{
    if bids.len() == 0 {
        Seq::empty()
    } else {
        let take = least(base, bids[0].sz as nat);
        seq![take] + sales(bids.drop_first(), (base - take) as nat)
    }
}

/// A split that starts with `take` and goes on as `rest`.
proof fn lemma_split_from(levels: Seq<OrderbookLevel>, take: nat, rest: Seq<nat>)
    requires
        levels.len() > 0,
        take <= levels[0].sz,
        is_split(levels.drop_first(), rest),
    ensures
        is_split(levels, seq![take] + rest),
        moved(seq![take] + rest) == take + moved(rest),
        worth(levels, seq![take] + rest) == take * levels[0].px as nat + worth(
            levels.drop_first(),
            rest,
        ),
{
    let takes = seq![take] + rest;
    assert(takes.drop_first() == rest);
    assert forall|i: int| 0 <= i < takes.len() implies #[trigger] takes[i] <= levels[i].sz by {
        if i > 0 {
            assert(takes[i] == rest[i - 1]);
            assert(levels.drop_first()[i - 1] == levels[i]);
        }
    }
}

/// The rest of a split is a split of the other levels.
proof fn lemma_rest_of_split(levels: Seq<OrderbookLevel>, takes: Seq<nat>)
    requires
        levels.len() > 0,
        is_split(levels, takes),
    ensures
        is_split(levels.drop_first(), takes.drop_first()),
        takes[0] <= levels[0].sz,
{
    let rest = takes.drop_first();
    assert forall|i: int| 0 <= i < rest.len() implies #[trigger] rest[i] <= levels.drop_first()[i].sz by {
        assert(rest[i] == takes[i + 1]);
    }
}

/// What buying takes level by level is a split that moves what is bought for what is spent.
proof fn lemma_purchases(asks: Seq<OrderbookLevel>, quote: nat)
    ensures
        is_split(asks, purchases(asks, quote)),
        moved(purchases(asks, quote)) == bought(asks, quote),
        worth(asks, purchases(asks, quote)) == spent(asks, quote),
    decreases asks.len(),
{
    if asks.len() > 0 {
        if quote == 0 || asks[0].px == 0 {
            lemma_purchases(asks.drop_first(), 0);
            lemma_split_from(asks, 0, purchases(asks.drop_first(), 0));
            assert(0 * asks[0].px as nat == 0);
        } else {
            let take = taken(asks[0], quote);
            let rest = (quote - take * asks[0].px) as nat;
            lemma_affordable(quote, asks[0]);
            lemma_purchases(asks.drop_first(), rest);
            lemma_split_from(asks, take, purchases(asks.drop_first(), rest));
        }
    }
}

/// What selling takes level by level is a split that moves what is sold for the proceeds.
proof fn lemma_sales(bids: Seq<OrderbookLevel>, base: nat)
    ensures
        is_split(bids, sales(bids, base)),
        moved(sales(bids, base)) == least(base, total_size(bids)),
        worth(bids, sales(bids, base)) == proceeds(bids, base),
    decreases bids.len(),
{
    if bids.len() > 0 {
        let take = least(base, bids[0].sz as nat);
        lemma_sales(bids.drop_first(), (base - take) as nat);
        lemma_split_from(bids, take, sales(bids.drop_first(), (base - take) as nat));
    }
}

/// A split over levels that cost at least `p` costs at least `p` for each unit.
proof fn lemma_worth_at_least(levels: Seq<OrderbookLevel>, takes: Seq<nat>, p: nat)
    requires
        is_split(levels, takes),
        forall|i: int| 0 <= i < levels.len() ==> (#[trigger] levels[i]).px >= p,
    ensures
        worth(levels, takes) >= moved(takes) * p,
    decreases levels.len(),
{
    if levels.len() > 0 {
        lemma_rest_of_split(levels, takes);
        lemma_worth_at_least(levels.drop_first(), takes.drop_first(), p);
        let x = takes[0];
        let px = levels[0].px as nat;
        let others = moved(takes.drop_first());
        assert(x * px >= x * p) by (nonlinear_arith)
            requires
                px >= p,
        ;
        assert((x + others) * p == x * p + others * p) by (nonlinear_arith);
    } else {
        assert(moved(takes) * p == 0) by (nonlinear_arith)
            requires
                moved(takes) == 0,
        ;
    }
}

/// A split over levels that pay at most `p` pays at most `p` for each unit.
proof fn lemma_worth_at_most(levels: Seq<OrderbookLevel>, takes: Seq<nat>, p: nat)
    requires
        is_split(levels, takes),
        forall|i: int| 0 <= i < levels.len() ==> (#[trigger] levels[i]).px <= p,
    ensures
        worth(levels, takes) <= moved(takes) * p,
    decreases levels.len(),
{
    if levels.len() > 0 {
        lemma_rest_of_split(levels, takes);
        lemma_worth_at_most(levels.drop_first(), takes.drop_first(), p);
        let x = takes[0];
        let px = levels[0].px as nat;
        let others = moved(takes.drop_first());
        assert(x * px <= x * p) by (nonlinear_arith)
            requires
                px <= p,
        ;
        assert((x + others) * p == x * p + others * p) by (nonlinear_arith);
    }
}

/// With `extra` times the price `p` more to spend, where no level is cheaper than `p`, a split
/// buys at most `extra` more than buying from the cheapest ask up.
proof fn lemma_no_split_buys_more(
    asks: Seq<OrderbookLevel>,
    takes: Seq<nat>,
    quote: nat,
    extra: nat,
    p: nat,
)
    requires
        forall|i: int, j: int| 0 <= i <= j < asks.len() ==> asks[i].px <= asks[j].px,
        p > 0,
        forall|i: int| 0 <= i < asks.len() ==> (#[trigger] asks[i]).px >= p,
        is_split(asks, takes),
        worth(asks, takes) <= quote + extra * p,
    ensures
        moved(takes) <= bought(asks, quote) + extra,
    decreases asks.len(),
{
    if asks.len() > 0 {
        let px = asks[0].px as nat;
        let sz = asks[0].sz as nat;
        let x = takes[0];
        lemma_rest_of_split(asks, takes);
        assert(extra * p <= extra * px) by (nonlinear_arith)
            requires
                p <= px,
        ;
        if quote > 0 && taken(asks[0], quote) == sz {
            lemma_affordable(quote, asks[0]);
            let left = (quote - sz * px) as nat;
            let more = (sz - x + extra) as nat;
            assert(x * px + more * px == sz * px + extra * px) by (nonlinear_arith)
                requires
                    more == sz - x + extra,
            ;
            lemma_no_split_buys_more(asks.drop_first(), takes.drop_first(), left, more, px);
        } else {
            lemma_worth_at_least(asks, takes, px);
            let n = moved(takes);
            let t = quote / px;
            assert(quote < (t + 1) * px) by (nonlinear_arith)
                requires
                    px > 0,
                    t == quote / px,
            ;
            assert(n < t + 1 + extra) by (nonlinear_arith)
                requires
                    n * px <= quote + extra * px,
                    quote < (t + 1) * px,
            ;
            if quote == 0 {
                assert(t == 0) by (nonlinear_arith)
                    requires
                        quote == 0,
                        px > 0,
                        t == quote / px,
                ;
            }
        }
    }
}

/// With `extra` more to sell, where no level pays more than `p`, a split yields at most `extra`
/// times `p` more than selling from the highest bid down.
proof fn lemma_no_split_yields_more(
    bids: Seq<OrderbookLevel>,
    takes: Seq<nat>,
    base: nat,
    extra: nat,
    p: nat,
)
    requires
        forall|i: int, j: int| 0 <= i <= j < bids.len() ==> bids[i].px >= bids[j].px,
        forall|i: int| 0 <= i < bids.len() ==> (#[trigger] bids[i]).px <= p,
        is_split(bids, takes),
        moved(takes) <= base + extra,
    ensures
        worth(bids, takes) <= proceeds(bids, base) + extra * p,
    decreases bids.len(),
{
    if bids.len() > 0 {
        let px = bids[0].px as nat;
        let sz = bids[0].sz as nat;
        let x = takes[0];
        lemma_rest_of_split(bids, takes);
        assert(extra * px <= extra * p) by (nonlinear_arith)
            requires
                px <= p,
        ;
        if sz <= base {
            let more = (sz - x + extra) as nat;
            assert(x * px + more * px == sz * px + extra * px) by (nonlinear_arith)
                requires
                    more == sz - x + extra,
            ;
            lemma_no_split_yields_more(
                bids.drop_first(),
                takes.drop_first(),
                (base - sz) as nat,
                more,
                px,
            );
        } else {
            lemma_worth_at_most(bids, takes, px);
            lemma_nothing_to_sell(bids.drop_first());
            let n = moved(takes);
            assert(n * px <= base * px + extra * px) by (nonlinear_arith)
                requires
                    n <= base + extra,
            ;
        }
    } else {
        assert(extra * p >= 0) by (nonlinear_arith);
    }
}

/// Buying from the cheapest ask up buys the most that the money can pay for: the order takes
/// from each level what [`purchases`] says, and no other split over the asks that costs as much
/// as the order may spend buys more.
pub proof fn law_ask_fill_is_the_largest_affordable(book: BookView, amount: u64, takes: Seq<nat>)
    requires
        book.sorted(),
        book.asks.len() > 0 ==> book.asks[0].px > 0,
        is_split(book.asks, takes),
        worth(book.asks, takes) <= amount,
    ensures
        is_split(book.asks, purchases(book.asks, amount as nat)),
        fill(book, Side::Ask, amount).output_produced == moved(purchases(book.asks, amount as nat)),
        fill(book, Side::Ask, amount).input_consumed == worth(
            book.asks,
            purchases(book.asks, amount as nat),
        ),
        moved(takes) <= fill(book, Side::Ask, amount).output_produced,
{
    lemma_buying_is_bounded(book.asks, amount as nat);
    lemma_purchases(book.asks, amount as nat);
    assert forall|i: int| 0 <= i < book.asks.len() implies (#[trigger] book.asks[i]).px >= 1 by {
        assert(book.asks[0].px <= book.asks[i].px);
    }
    lemma_no_split_buys_more(book.asks, takes, amount as nat, 0, 1);
}

/// Selling from the highest bid down yields the most: the order takes from each level what
/// [`sales`] says, and no other split of as much over the bids yields more.
pub proof fn law_no_split_over_the_bids_yields_more(book: BookView, amount: u64, takes: Seq<nat>)
    requires
        book.sorted(),
        is_split(book.bids, takes),
        moved(takes) <= amount,
    ensures
        is_split(book.bids, sales(book.bids, amount as nat)),
        fill(book, Side::Bid, amount).input_consumed == moved(sales(book.bids, amount as nat)),
        fill(book, Side::Bid, amount).output_produced == least(
            worth(book.bids, sales(book.bids, amount as nat)),
            u64::MAX as nat,
        ),
        least(worth(book.bids, takes), u64::MAX as nat) <= fill(
            book,
            Side::Bid,
            amount,
        ).output_produced,
{
    lemma_sales(book.bids, amount as nat);
    lemma_no_split_yields_more(book.bids, takes, amount as nat, 0, u64::MAX as nat);
}

/// What buying leaves over does not pay for one more unit at any level that has some left.
pub proof fn law_leftover_buys_nothing_more(book: BookView, amount: u64, i: int)
    requires
        forall|k: int| 0 <= k < book.asks.len() ==> (#[trigger] book.asks[k]).px > 0,
        0 <= i < book.asks.len(),
        purchases(book.asks, amount as nat)[i] < book.asks[i].sz,
    ensures
        amount - fill(book, Side::Ask, amount).input_consumed < book.asks[i].px,
{
    lemma_buying_is_bounded(book.asks, amount as nat);
    lemma_leftover(book.asks, amount as nat, i);
}

/// What buying leaves over is less than the price of a level that it does not empty.
proof fn lemma_leftover(asks: Seq<OrderbookLevel>, quote: nat, i: int)
    requires
        forall|k: int| 0 <= k < asks.len() ==> (#[trigger] asks[k]).px > 0,
        0 <= i < asks.len(),
        purchases(asks, quote)[i] < asks[i].sz,
    ensures
        quote - spent(asks, quote) < asks[i].px,
    decreases asks.len(),
{
    assert(asks[0].px > 0);
    assert(asks[i].px > 0);
    if quote > 0 {
        let px = asks[0].px as nat;
        let take = taken(asks[0], quote);
        let rest = (quote - take * px) as nat;
        lemma_affordable(quote, asks[0]);
        if i == 0 {
            lemma_buying_is_bounded(asks.drop_first(), rest);
            assert(quote < (take + 1) * px) by (nonlinear_arith)
                requires
                    px > 0,
                    take == quote / px,
            ;
            assert((take + 1) * px == take * px + px) by (nonlinear_arith);
        } else {
            lemma_purchases(asks.drop_first(), rest);
            assert(purchases(asks, quote)[i] == purchases(asks.drop_first(), rest)[i - 1]);
            assert(asks.drop_first()[i - 1] == asks[i]);
            assert forall|k: int| 0 <= k < asks.drop_first().len() implies (
            #[trigger] asks.drop_first()[k]).px > 0 by {
                assert(asks[k + 1].px > 0);
            }
            lemma_leftover(asks.drop_first(), rest, i - 1);
        }
    }
}

/// Less money than any level costs buys nothing.
proof fn lemma_too_little(asks: Seq<OrderbookLevel>, quote: nat)
    requires
        forall|i: int| 0 <= i < asks.len() ==> (#[trigger] asks[i]).px > quote,
    ensures
        bought(asks, quote) == 0,
        spent(asks, quote) == 0,
    decreases asks.len(),
{
    if asks.len() > 0 && quote > 0 {
        let px = asks[0].px as nat;
        assert(quote / px == 0) by (nonlinear_arith)
            requires
                0 <= quote < px,
        ;
        assert(0 * px == 0);
        assert forall|i: int| 0 <= i < asks.drop_first().len() implies (
        #[trigger] asks.drop_first()[i]).px > quote by {
            assert(asks[i + 1].px > quote);
        }
        lemma_too_little(asks.drop_first(), quote);
    }
}

/// More money buys no less and spends no less.
proof fn lemma_buying_grows(asks: Seq<OrderbookLevel>, less: nat, more: nat)
    requires
        forall|i: int, j: int| 0 <= i <= j < asks.len() ==> asks[i].px <= asks[j].px,
        less <= more,
    ensures
        bought(asks, less) <= bought(asks, more),
        spent(asks, less) <= spent(asks, more),
    decreases asks.len(),
{
    if asks.len() > 0 && less > 0 && asks[0].px > 0 {
        let px = asks[0].px as nat;
        let t = taken(asks[0], less);
        let u = taken(asks[0], more);
        lemma_affordable(less, asks[0]);
        lemma_affordable(more, asks[0]);
        assert(less / px <= more / px) by (nonlinear_arith)
            requires
                less <= more,
                px > 0,
        ;
        if t == u {
            lemma_buying_grows(
                asks.drop_first(),
                (less - t * px) as nat,
                (more - t * px) as nat,
            );
        } else {
            let left = (less - t * px) as nat;
            assert(left < px) by (nonlinear_arith)
                requires
                    px > 0,
                    t == less / px,
                    left == less - t * px,
            ;
            assert forall|i: int| 0 <= i < asks.drop_first().len() implies (
            #[trigger] asks.drop_first()[i]).px > left by {
                assert(asks[0].px <= asks[i + 1].px);
            }
            lemma_too_little(asks.drop_first(), left);
            assert(t * px <= u * px) by (nonlinear_arith)
                requires
                    t <= u,
            ;
        }
    }
}

/// Selling more yields no less.
proof fn lemma_selling_grows(bids: Seq<OrderbookLevel>, less: nat, more: nat)
    requires
        less <= more,
    ensures
        proceeds(bids, less) <= proceeds(bids, more),
    decreases bids.len(),
{
    if bids.len() > 0 {
        let px = bids[0].px as nat;
        let t = least(less, bids[0].sz as nat);
        let u = least(more, bids[0].sz as nat);
        assert(t * px <= u * px) by (nonlinear_arith)
            requires
                t <= u,
        ;
        lemma_selling_grows(bids.drop_first(), (less - t) as nat, (more - u) as nat);
    }
}

/// On a book with its best prices first, an order for more uses up no less and yields no less.
pub proof fn law_fill_grows_with_the_amount(book: BookView, side: Side, less: u64, more: u64)
    requires
        book.sorted(),
        less <= more,
    ensures
        fill(book, side, less).input_consumed <= fill(book, side, more).input_consumed,
        fill(book, side, less).output_produced <= fill(book, side, more).output_produced,
{
    lemma_buying_is_bounded(book.asks, less as nat);
    lemma_buying_is_bounded(book.asks, more as nat);
    lemma_buying_grows(book.asks, less as nat, more as nat);
    lemma_selling_grows(book.bids, less as nat, more as nat);
}

/// An order to sell stops short only when the book is empty: what it leaves over is for want of
/// bids, all of which it has taken whole.
pub proof fn law_selling_stops_only_at_an_empty_book(book: BookView, amount: u64, i: int)
    requires
        0 <= i < book.bids.len(),
        fill(book, Side::Bid, amount).input_consumed < amount,
    ensures
        sales(book.bids, amount as nat).len() == book.bids.len(),
        sales(book.bids, amount as nat)[i] == book.bids[i].sz,
{
    lemma_sales(book.bids, amount as nat);
    lemma_all_sold(book.bids, amount as nat, i);
}

/// Where more is to be sold than there are bids, each level is taken whole.
proof fn lemma_all_sold(bids: Seq<OrderbookLevel>, base: nat, i: int)
    requires
        0 <= i < bids.len(),
        total_size(bids) < base,
    ensures
        sales(bids, base).len() == bids.len(),
        sales(bids, base)[i] == bids[i].sz,
    decreases bids.len(),
{
    let take = least(base, bids[0].sz as nat);
    let rest = (base - take) as nat;
    lemma_sales(bids.drop_first(), rest);
    if i > 0 {
        lemma_all_sold(bids.drop_first(), rest, i - 1);
        assert(bids.drop_first()[i - 1] == bids[i]);
        assert(sales(bids, base)[i] == sales(bids.drop_first(), rest)[i - 1]);
    }
}

/// A cheapest ask that costs nothing sells nothing.
pub proof fn law_nothing_is_bought_for_nothing(book: BookView, amount: u64)
    requires
        book.asks.len() == 0 || book.asks[0].px == 0 || amount == 0,
    ensures
        fill(book, Side::Ask, amount) == (MatchResult { input_consumed: 0, output_produced: 0 }),
{
}

} // verus!
