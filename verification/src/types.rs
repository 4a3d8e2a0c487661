//! Tokens, trades, requests and responses.
use vstd::prelude::*;

verus! {

/// A token's identifier.
pub type Address = u64;

/// An amount of some token, in its smallest unit.
pub type Quantity = u64;

/// A trading pair: the base token, then the quote token.
pub type Pair = (Address, Address);

/// The side of an order book that an order is matched against.
#[derive(Debug, Clone, Copy, PartialEq, Eq, Structural)]
pub enum Side {
    /// Resting buy orders: an incoming order sells the base token.
    Bid,
    /// Resting sell orders: an incoming order buys the base token.
    Ask,
}

/// One trade of a route.
#[derive(Debug, Clone, Copy, PartialEq, Eq)]
pub struct Swap {
    pub input_token: Address,
    pub output_token: Address,
    pub direction: Side,
    /// How much of the input token the trade uses up.
    pub input_amount: Quantity,
    /// How much of the output token the trade yields.
    pub expected_output_amount: Quantity,
}

/// A request to turn an amount of one token into another.
#[derive(Debug, Clone, Copy)]
pub struct SwapRequest {
    pub input_token: Address,
    pub output_token: Address,
    pub input_amount: Quantity,
    /// The least output that the requester accepts.
    pub min_output_amount: Quantity,
}

/// The route that answers a swap request.
#[derive(Debug)]
pub struct SwapResponseSuccess {
    pub route: Vec<Swap>,
}

/// The answer to a swap request.
#[derive(Debug)]
pub enum SwapResponse {
    Success(SwapResponseSuccess),
    Failure(String),
}

/// What a [`SwapResponse`] holds: the trades of the route, or the characters of
/// the message.
pub enum SwapResponseView {
    Success(Seq<Swap>),
    Failure(Seq<char>),
}

impl View for SwapResponse {
    type V = SwapResponseView;

    open spec fn view(&self) -> SwapResponseView {
        match self {
            SwapResponse::Success(success) => SwapResponseView::Success(success.route@),
            SwapResponse::Failure(message) => SwapResponseView::Failure(message@),
        }
    }
}

} // verus!
