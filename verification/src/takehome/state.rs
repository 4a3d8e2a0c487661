//! The state of the plain aggregator.
use vstd::prelude::*;

use crate::graph::{edges_of, GraphEdge, GraphView, TokenGraph};
use crate::orderbook::OrderbookState;
use crate::types::{Address, Pair};

verus! {

/// The order books and their graph.
pub struct AggregatorState {
    pub graph: TokenGraph,
}

impl View for AggregatorState {
    type V = GraphView;

    open spec fn view(&self) -> GraphView {
        self.graph@
    }
}

impl Default for AggregatorState {
    fn default() -> (state: Self)
        ensures
            state@ == GraphView::empty(),
    {
        AggregatorState { graph: TokenGraph::new() }
    }
}

impl AggregatorState {
    /// Creates a state without books.
    pub fn new() -> (state: Self)
        ensures
            state@ == GraphView::empty(),
    {
        AggregatorState::default()
    }

    /// Takes in a book, in place of any earlier one of its pair.
    pub fn upsert_orderbook(&mut self, book: OrderbookState)
        ensures
            final(self)@ == old(self)@.upserted(book@),
    {
        self.graph.upsert(book);
    }

    /// Returns whether any book trades the token.
    pub fn contains_token(&self, token: Address) -> (known: bool)
        ensures
            known == self@.edges.contains_key(token),
    {
        self.graph.contains_token(token)
    }

    /// Returns the edges that leave a token, in the order in which their pairs were first seen.
    pub fn neighbors(&self, token: Address) -> (edges: Vec<GraphEdge>)
        ensures
            edges@ == edges_of(self@.edges, token),
    {
        self.graph.neighbors(token)
    }

    /// Returns the book of a pair.
    pub fn get_orderbook(&self, pair: &Pair) -> (book: Option<OrderbookState>)
        ensures
            book is Some <==> self@.books.contains_key(*pair),
            book matches Some(b) ==> b@ == self@.books[*pair],
    {
        self.graph.get_orderbook(pair)
    }

    /// Returns the number of books.
    pub fn orderbook_count(&mut self) -> (count: usize)
        ensures
            count == old(self)@.books.dom().len(),
            final(self)@ == old(self)@,
    {
        self.graph.orderbook_count()
    }

    /// Returns the number of tokens that the books trade.
    pub fn token_count(&mut self) -> (count: usize)
        ensures
            count == old(self)@.edges.dom().len(),
            final(self)@ == old(self)@,
    {
        self.graph.token_count()
    }
}

} // verus!
