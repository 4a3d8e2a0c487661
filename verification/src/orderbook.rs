//! Order books: the resting orders of one token pair, best price first.
use vstd::prelude::*;

use crate::types::{Address, Pair};

verus! {

/// A price and the size available at it.
#[derive(Debug, Clone, Copy, PartialEq, Eq)]
pub struct OrderbookLevel {
    /// How much of the quote token one unit of the base token costs.
    pub px: u64,
    /// How much of the base token is on offer.
    pub sz: u64,
}

/// The order book of one token pair.
#[derive(Debug)]
pub struct OrderbookState {
    base_token: Address,
    quote_token: Address,
    bids: Vec<OrderbookLevel>,
    asks: Vec<OrderbookLevel>,
}

/// What an [`OrderbookState`] holds.
#[verifier::ext_equal]
pub struct BookView {
    pub base_token: Address,
    pub quote_token: Address,
    pub bids: Seq<OrderbookLevel>,
    pub asks: Seq<OrderbookLevel>,
}

impl View for OrderbookState {
    type V = BookView;

    closed spec fn view(&self) -> BookView {
        BookView {
            base_token: self.base_token,
            quote_token: self.quote_token,
            bids: self.bids@,
            asks: self.asks@,
        }
    }
}

/// The price of the first level that has any size, if there is one.
pub open spec fn first_price(levels: Seq<OrderbookLevel>) -> Option<u64>
    decreases levels.len(),
{
    if levels.len() == 0 {
        None
    } else if levels[0].sz > 0 {
        Some(levels[0].px)
    } else {
        first_price(levels.drop_first())
    }
}

/// Whether `after` is `before` with `level` put behind every level that bids at
/// least as much and before every other one.
pub open spec fn bid_inserted(
    before: Seq<OrderbookLevel>,
    level: OrderbookLevel,
    after: Seq<OrderbookLevel>,
) -> bool {
    exists|k: int|
        {
            &&& 0 <= k <= before.len()
            &&& forall|i: int| 0 <= i < k ==> before[i].px >= level.px
            &&& k < before.len() ==> before[k].px < level.px
            &&& after == #[trigger] before.insert(k, level)
        }
}

/// Whether `after` is `before` with `level` put behind every level that asks at
/// most as much and before every other one.
pub open spec fn ask_inserted(
    before: Seq<OrderbookLevel>,
    level: OrderbookLevel,
    after: Seq<OrderbookLevel>,
) -> bool {
    exists|k: int|
        {
            &&& 0 <= k <= before.len()
            &&& forall|i: int| 0 <= i < k ==> before[i].px <= level.px
            &&& k < before.len() ==> before[k].px > level.px
            &&& after == #[trigger] before.insert(k, level)
        }
}

impl BookView {
    /// The pair that the book belongs to.
    pub open spec fn pair(self) -> Pair {
        (self.base_token, self.quote_token)
    }

    /// Both sides list their best price first: the highest bid, the lowest ask.
    pub open spec fn sorted(self) -> bool {
        &&& forall|i: int, j: int|
            0 <= i <= j < self.bids.len() ==> self.bids[i].px >= self.bids[j].px
        &&& forall|i: int, j: int|
            0 <= i <= j < self.asks.len() ==> self.asks[i].px <= self.asks[j].px
    }

    /// Some level has a size above zero, and the first bid that has one is below the
    /// first ask that has one.
    pub open spec fn healthy(self) -> bool {
        match (first_price(self.bids), first_price(self.asks)) {
            (Some(bid), Some(ask)) => bid < ask,
            (None, None) => false,
            _ => true,
        }
    }
}

/// Returns the price of the first level that has any size.
fn find_first_price(levels: &Vec<OrderbookLevel>) -> (price: Option<u64>)
    ensures
        price == first_price(levels@),
{
    let mut i: usize = 0;
    assert(levels@.skip(0) == levels@);
    while i < levels.len()
        invariant
            i <= levels.len(),
            first_price(levels@) == first_price(levels@.skip(i as int)),
        decreases levels.len() - i,
    {
        assert(levels@.skip(i as int).drop_first() == levels@.skip(i + 1));
        if levels[i].sz > 0 {
            return Some(levels[i].px);
        }
        i += 1;
    }
    None
}

/// Returns a copy of the levels.
fn copy_levels(levels: &Vec<OrderbookLevel>) -> (copy: Vec<OrderbookLevel>)
    ensures
        copy@ == levels@,
{
    let mut copy: Vec<OrderbookLevel> = Vec::new();
    let mut i: usize = 0;
    while i < levels.len()
        invariant
            i <= levels.len(),
            copy@ == levels@.take(i as int),
        decreases levels.len() - i,
    {
        copy.push(levels[i]);
        i += 1;
    }
    copy
}

impl Clone for OrderbookState {
    fn clone(&self) -> (copy: Self)
        ensures
            copy@ == self@,
    {
        OrderbookState {
            base_token: self.base_token,
            quote_token: self.quote_token,
            bids: copy_levels(&self.bids),
            asks: copy_levels(&self.asks),
        }
    }
}

impl OrderbookState {
    /// Creates an empty book.
    pub fn new(base_token: Address, quote_token: Address) -> (book: Self)
        ensures
            book@ == (BookView { base_token, quote_token, bids: Seq::empty(), asks: Seq::empty() }),
            book@.sorted(),
    {
        OrderbookState { base_token, quote_token, bids: Vec::new(), asks: Vec::new() }
    }

    /// Adds a bid. Bids are kept from the highest price down; a level goes behind those
    /// of the same price.
    pub fn insert_bid(&mut self, level: OrderbookLevel)
        ensures
            bid_inserted(old(self)@.bids, level, final(self)@.bids),
            final(self)@ == (BookView { bids: final(self)@.bids, ..old(self)@ }),
            old(self)@.sorted() ==> final(self)@.sorted(),
    {
        let mut k: usize = 0;
        while k < self.bids.len() && self.bids[k].px >= level.px
            invariant
                k <= self.bids.len(),
                *self == *old(self),
                forall|i: int| 0 <= i < k ==> self.bids@[i].px >= level.px,
            decreases self.bids.len() - k,
        {
            k += 1;
        }
        self.bids.insert(k, level);
        assert(self.bids@ == old(self).bids@.insert(k as int, level));
    }

    /// Adds an ask. Asks are kept from the lowest price up; a level goes behind those of
    /// the same price.
    pub fn insert_ask(&mut self, level: OrderbookLevel)
        ensures
            ask_inserted(old(self)@.asks, level, final(self)@.asks),
            final(self)@ == (BookView { asks: final(self)@.asks, ..old(self)@ }),
            old(self)@.sorted() ==> final(self)@.sorted(),
    {
        let mut k: usize = 0;
        while k < self.asks.len() && self.asks[k].px <= level.px
            invariant
                k <= self.asks.len(),
                *self == *old(self),
                forall|i: int| 0 <= i < k ==> self.asks@[i].px <= level.px,
            decreases self.asks.len() - k,
        {
            k += 1;
        }
        self.asks.insert(k, level);
        assert(self.asks@ == old(self).asks@.insert(k as int, level));
    }

    /// The pair that the book belongs to.
    pub fn pair(&self) -> (pair: Pair)
        ensures
            pair == self@.pair(),
    {
        (self.base_token, self.quote_token)
    }

    /// The bids, from the highest price down.
    pub fn bids(&self) -> (levels: &Vec<OrderbookLevel>)
        ensures
            levels@ == self@.bids,
    {
        &self.bids
    }

    /// The asks, from the lowest price up.
    pub fn asks(&self) -> (levels: &Vec<OrderbookLevel>)
        ensures
            levels@ == self@.asks,
    {
        &self.asks
    }

    /// Whether some level has a size above zero and, where both sides have one, the best
    /// bid is below the best ask.
    pub fn is_healthy(&self) -> (healthy: bool)
        ensures
            healthy == self@.healthy(),
    {
        match (find_first_price(&self.bids), find_first_price(&self.asks)) {
            (Some(bid), Some(ask)) => bid < ask,
            (None, None) => false,
            _ => true,
        }
    }
}

/// The first level of any size, and where it stands.
proof fn lemma_first_price(levels: Seq<OrderbookLevel>)
    ensures
        match first_price(levels) {
            None => forall|i: int| 0 <= i < levels.len() ==> (#[trigger] levels[i]).sz == 0,
            Some(px) => exists|k: int|
                {
                    &&& 0 <= k < levels.len()
                    &&& (#[trigger] levels[k]).sz > 0
                    &&& levels[k].px == px
                    &&& forall|i: int| 0 <= i < k ==> (#[trigger] levels[i]).sz == 0
                },
        },
    decreases levels.len(),
{
    if levels.len() > 0 {
        let rest = levels.drop_first();
        if levels[0].sz == 0 {
            lemma_first_price(rest);
            assert forall|i: int| 0 < i < levels.len() implies #[trigger] levels[i] == rest[i - 1] by {}
            match first_price(rest) {
                None => {},
                Some(px) => {
                    let k = choose|k: int|
                        {
                            &&& 0 <= k < rest.len()
                            &&& (#[trigger] rest[k]).sz > 0
                            &&& rest[k].px == px
                            &&& forall|i: int| 0 <= i < k ==> (#[trigger] rest[i]).sz == 0
                        };
                    assert(levels[k + 1] == rest[k]);
                    assert forall|i: int| 0 <= i < k + 1 implies (#[trigger] levels[i]).sz == 0 by {
                        if i > 0 {
                            assert(rest[i - 1].sz == 0);
                        }
                    }
                },
            }
        } else {
            assert(levels[0].px == first_price(levels)->0);
        }
    }
}

/// A book with its best prices first is healthy exactly when it is neither empty nor crossed:
/// some level has a size above zero, and among those that do every bid is below every ask.
pub proof fn law_healthy_is_neither_empty_nor_crossed(book: BookView)
    requires
        book.sorted(),
    ensures
        book.healthy() <==> {
            &&& (exists|i: int| 0 <= i < book.bids.len() && (#[trigger] book.bids[i]).sz > 0) || (
            exists|i: int| 0 <= i < book.asks.len() && (#[trigger] book.asks[i]).sz > 0)
            &&& forall|i: int, j: int|
                0 <= i < book.bids.len() && 0 <= j < book.asks.len() && (
                #[trigger] book.bids[i]).sz > 0 && (#[trigger] book.asks[j]).sz > 0
                    ==> book.bids[i].px < book.asks[j].px
        },
{
    lemma_first_price(book.bids);
    lemma_first_price(book.asks);
    if first_price(book.bids) is Some && first_price(book.asks) is Some {
        let b = choose|k: int|
            {
                &&& 0 <= k < book.bids.len()
                &&& (#[trigger] book.bids[k]).sz > 0
                &&& book.bids[k].px == first_price(book.bids)->0
                &&& forall|i: int| 0 <= i < k ==> (#[trigger] book.bids[i]).sz == 0
            };
        let a = choose|k: int|
            {
                &&& 0 <= k < book.asks.len()
                &&& (#[trigger] book.asks[k]).sz > 0
                &&& book.asks[k].px == first_price(book.asks)->0
                &&& forall|i: int| 0 <= i < k ==> (#[trigger] book.asks[i]).sz == 0
            };
        assert(book.bids[b].sz > 0 && book.asks[a].sz > 0);
    }
}

/// Adding a level keeps all levels that were there, in their order, and adds that one alone.
pub proof fn law_insert_adds_one_level(
    before: Seq<OrderbookLevel>,
    level: OrderbookLevel,
    after: Seq<OrderbookLevel>,
)
    requires
        bid_inserted(before, level, after) || ask_inserted(before, level, after),
    ensures
        after.len() == before.len() + 1,
        after.to_multiset() == before.to_multiset().insert(level),
        exists|k: int| 0 <= k < after.len() && after[k] == level && #[trigger] after.remove(k) == before,
{
    let k = choose|k: int|
        0 <= k <= before.len() && after == #[trigger] before.insert(k, level);
    vstd::seq_lib::to_multiset_insert(before, k, level);
    assert(after.remove(k) == before);
}

} // verus!
