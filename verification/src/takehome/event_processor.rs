//! Taking in order book updates.
use vstd::prelude::*;

use crate::orderbook::OrderbookState;
use crate::takehome::state::AggregatorState;

verus! {

/// Why an update was turned away.
#[derive(Debug)]
pub enum Error {
    InvalidOrderbook(String),
}

/// Takes in order book updates, whatever the books hold.
pub struct TakehomeEventProcessor<'a> {
    pub state: &'a mut AggregatorState,
}

impl<'a> TakehomeEventProcessor<'a> {
    /// Creates a processor that updates the given state.
    pub fn new(state: &'a mut AggregatorState) -> (processor: Self)
        ensures
            *processor.state == *old(state),
            *final(processor.state) == *final(state),
    {
        TakehomeEventProcessor { state }
    }

    /// Takes in an update. No book is turned away.
    pub fn process_orderbook(&mut self, orderbook: OrderbookState) -> (result: Result<(), Error>)
        ensures
            result is Ok,
            final(self).state@ == old(self).state@.upserted(orderbook@),
            *final(final(self).state) == *final(old(self).state),
    {
        self.state.upsert_orderbook(orderbook);
        Ok(())
    }
}

} // verus!
