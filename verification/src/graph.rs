//! The order books and the graph of tokens that they connect.
use vstd::prelude::*;

use crate::orderbook::{BookView, OrderbookState};
use crate::store::{
    books_in, count_books, count_tokens, edges_in, has_book, has_edges, new_books, new_edges,
    push_edge, put_book, read_book, read_edges, scan_books, scan_edges,
};
use crate::types::{Address, Pair, Side};

verus! {

/// One direction in which an order book can be traded through. Each book has two: one buys
/// the base token, one sells it.
#[derive(Debug, Clone, Copy, PartialEq, Eq)]
pub struct GraphEdge {
    /// The token that the trade yields.
    pub target: Address,
    /// The pair whose book is traded on.
    pub pair: Pair,
    /// `Ask` buys the target, `Bid` sells for it.
    pub side: Side,
}

/// The edges that leave a token: none where the token is unknown.
pub open spec fn edges_of(edges: Map<Address, Seq<GraphEdge>>, token: Address) -> Seq<GraphEdge> {
    if edges.contains_key(token) {
        edges[token]
    } else {
        Seq::empty()
    }
}

/// The edge that buys the base token of a pair.
pub open spec fn buying_edge(pair: Pair) -> GraphEdge {
    GraphEdge { target: pair.0, pair, side: Side::Ask }
}

/// The edge that sells the base token of a pair.
pub open spec fn selling_edge(pair: Pair) -> GraphEdge {
    GraphEdge { target: pair.1, pair, side: Side::Bid }
}

/// The edges with one more at the end of a token's list.
pub open spec fn with_edge(
    edges: Map<Address, Seq<GraphEdge>>,
    token: Address,
    edge: GraphEdge,
) -> Map<Address, Seq<GraphEdge>> {
    edges.insert(token, edges_of(edges, token).push(edge))
}

/// Returns a copy of the edges.
pub(crate) fn copy_edges(edges: &Vec<GraphEdge>) -> (copy: Vec<GraphEdge>)
    ensures
        copy@ == edges@,
{
    let mut copy: Vec<GraphEdge> = Vec::new();
    let mut i: usize = 0;
    while i < edges.len()
        invariant
            i <= edges.len(),
            copy@ == edges@.take(i as int),
        decreases edges.len() - i,
    {
        copy.push(edges[i]);
        i += 1;
    }
    copy
}

/// What a [`TokenGraph`] holds.
#[verifier::ext_equal]
pub struct GraphView {
    /// The latest book of each pair.
    pub books: Map<Pair, BookView>,
    /// The edges that leave each token, in the order in which their pairs were first seen.
    pub edges: Map<Address, Seq<GraphEdge>>,
}

impl GraphView {
    /// No books and no tokens.
    pub open spec fn empty() -> GraphView {
        GraphView { books: Map::empty(), edges: Map::empty() }
    }

    /// The edge leaves the token and is one of the two of a pair that has a book.
    pub open spec fn is_edge_from(self, token: Address, edge: GraphEdge) -> bool {
        &&& self.books.contains_key(edge.pair)
        &&& (edge == buying_edge(edge.pair) && token == edge.pair.1) || (edge == selling_edge(
            edge.pair,
        ) && token == edge.pair.0)
    }

    /// The graph has, of each pair that has a book, the two edges once each, and no others.
    pub open spec fn consistent(self) -> bool {
        &&& self.books.dom().finite()
        &&& forall|pair: Pair| #[trigger]
            self.books.contains_key(pair) ==> {
                &&& self.books[pair].pair() == pair
                &&& edges_of(self.edges, pair.1).contains(buying_edge(pair))
                &&& edges_of(self.edges, pair.0).contains(selling_edge(pair))
            }
        &&& forall|token: Address| #[trigger]
            self.edges.contains_key(token) ==> {
                &&& self.edges[token].len() > 0
                &&& self.edges[token].no_duplicates()
            }
        &&& forall|token: Address, i: int|
            self.edges.contains_key(token) && 0 <= i < self.edges[token].len()
                ==> self.is_edge_from(token, #[trigger] self.edges[token][i])
    }

    /// The graph after a book came in: the book takes the place of the one before it, and a
    /// pair that was not known yet gets its two edges.
    pub open spec fn upserted(self, book: BookView) -> GraphView {
        let pair = book.pair();
        GraphView {
            books: self.books.insert(pair, book),
            edges: if self.books.contains_key(pair) {
                self.edges
            } else {
                with_edge(
                    with_edge(self.edges, pair.1, buying_edge(pair)),
                    pair.0,
                    selling_edge(pair),
                )
            },
        }
    }
}

/// The order books, and for each token the trades that lead away from it.
pub struct TokenGraph {
    orderbooks: scc::HashMap<Pair, OrderbookState>,
    graph_edges: scc::HashMap<Address, Vec<GraphEdge>>,
}

impl View for TokenGraph {
    type V = GraphView;

    closed spec fn view(&self) -> GraphView {
        GraphView { books: books_in(self.orderbooks), edges: edges_in(self.graph_edges) }
    }
}

impl TokenGraph {
    /// Creates a graph without books.
    pub fn new() -> (graph: Self)
        ensures
            graph@ == GraphView::empty(),
    {
        TokenGraph { orderbooks: new_books(), graph_edges: new_edges() }
    }

    /// Takes in a book, in place of any earlier one of its pair.
    pub fn upsert(&mut self, book: OrderbookState)
        ensures
            final(self)@ == old(self)@.upserted(book@),
    {
        let pair = book.pair();
        let is_new = !has_book(&self.orderbooks, &pair);
        put_book(&mut self.orderbooks, pair, book);
        if is_new {
            self.add_graph_edges(pair);
        }
    }

    /// Adds the two edges of a pair.
    fn add_graph_edges(&mut self, pair: Pair)
        ensures
            final(self)@ == (GraphView {
                edges: with_edge(
                    with_edge(old(self)@.edges, pair.1, buying_edge(pair)),
                    pair.0,
                    selling_edge(pair),
                ),
                ..old(self)@
            }),
    {
        let (base, quote) = pair;
        push_edge(
            &mut self.graph_edges,
            quote,
            GraphEdge { target: base, pair, side: Side::Ask },
        );
        push_edge(
            &mut self.graph_edges,
            base,
            GraphEdge { target: quote, pair, side: Side::Bid },
        );
    }

    /// Returns whether any book trades the token.
    pub fn contains_token(&self, token: Address) -> (known: bool)
        ensures
            known == self@.edges.contains_key(token),
    {
        has_edges(&self.graph_edges, &token)
    }

    /// Returns the edges that leave a token.
    pub fn neighbors(&self, token: Address) -> (edges: Vec<GraphEdge>)
        ensures
            edges@ == edges_of(self@.edges, token),
    {
        match read_edges(&self.graph_edges, &token) {
            Some(edges) => edges,
            None => Vec::new(),
        }
    }

    /// Returns the book of a pair.
    pub fn get_orderbook(&self, pair: &Pair) -> (book: Option<OrderbookState>)
        ensures
            book is Some <==> self@.books.contains_key(*pair),
            book matches Some(b) ==> b@ == self@.books[*pair],
    {
        read_book(&self.orderbooks, pair)
    }

    /// Returns the number of books.
    pub fn orderbook_count(&mut self) -> (count: usize)
        ensures
            count == old(self)@.books.dom().len(),
            final(self)@ == old(self)@,
    {
        count_books(&mut self.orderbooks)
    }

    /// Returns the number of tokens that the books trade.
    pub fn token_count(&mut self) -> (count: usize)
        ensures
            count == old(self)@.edges.dom().len(),
            final(self)@ == old(self)@,
    {
        count_tokens(&mut self.graph_edges)
    }

    /// Returns every book with its pair.
    pub(crate) fn all_books(&self) -> (entries: Vec<(Pair, OrderbookState)>)
        ensures
            forall|i: int|
                #![trigger entries@[i]]
                0 <= i < entries@.len() ==> self@.books.contains_key(entries@[i].0)
                    && self@.books[entries@[i].0] == entries@[i].1@,
            forall|pair: Pair|
                self@.books.contains_key(pair) ==> exists|i: int|
                    0 <= i < entries@.len() && (#[trigger] entries@[i]).0 == pair,
    {
        scan_books(&self.orderbooks)
    }

    /// Returns every token with the edges that leave it.
    pub(crate) fn all_edges(&self) -> (entries: Vec<(Address, Vec<GraphEdge>)>)
        ensures
            forall|i: int|
                #![trigger entries@[i]]
                0 <= i < entries@.len() ==> self@.edges.contains_key(entries@[i].0)
                    && self@.edges[entries@[i].0] == entries@[i].1@,
            forall|token: Address|
                self@.edges.contains_key(token) ==> exists|i: int|
                    0 <= i < entries@.len() && (#[trigger] entries@[i]).0 == token,
    {
        scan_edges(&self.graph_edges)
    }
}

/// A graph without books is consistent.
pub proof fn law_empty_graph_is_consistent()
    ensures
        GraphView::empty().consistent(),
{
}

/// A new edge at the end of a token's list leaves the other edges where they are and is there
/// once.
proof fn lemma_with_edge(
    edges: Map<Address, Seq<GraphEdge>>,
    token: Address,
    edge: GraphEdge,
)
    requires
        !edges_of(edges, token).contains(edge),
        edges.contains_key(token) ==> edges[token].no_duplicates(),
    ensures
        with_edge(edges, token, edge)[token].no_duplicates(),
        edges_of(with_edge(edges, token, edge), token).contains(edge),
        forall|t: Address, e: GraphEdge| #[trigger]
            edges_of(edges, t).contains(e) ==> edges_of(with_edge(edges, token, edge), t).contains(e),
        forall|t: Address, e: GraphEdge| #[trigger]
            edges_of(with_edge(edges, token, edge), t).contains(e) ==> edges_of(edges, t).contains(
                e,
            ) || (t == token && e == edge),
{
    let old_list = edges_of(edges, token);
    let after = with_edge(edges, token, edge);
    let new_list = after[token];
    assert(new_list == old_list.push(edge));
    assert(new_list[old_list.len() as int] == edge);
    assert forall|t: Address, e: GraphEdge| #[trigger] edges_of(edges, t).contains(e) implies edges_of(
        after,
        t,
    ).contains(e) by {
        let i = edges_of(edges, t).index_of(e);
        assert(edges_of(after, t)[i] == e);
    }
    assert forall|t: Address, e: GraphEdge| #[trigger] edges_of(after, t).contains(e) implies edges_of(
        edges,
        t,
    ).contains(e) || (t == token && e == edge) by {
        let i = edges_of(after, t).index_of(e);
        if t == token && i == old_list.len() {
        } else {
            assert(edges_of(edges, t)[i] == e);
        }
    }
}

/// Taking in a book keeps the graph consistent: every pair has its two edges, one to buy and
/// one to sell, once each, however often its book is updated.
pub proof fn law_upsert_keeps_the_graph_consistent(graph: GraphView, book: BookView)
    requires
        graph.consistent(),
    ensures
        graph.upserted(book).consistent(),
{
    let pair = book.pair();
    let after = graph.upserted(book);
    if !graph.books.contains_key(pair) {
        let buying = buying_edge(pair);
        let selling = selling_edge(pair);
        let halfway = with_edge(graph.edges, pair.1, buying);
        assert forall|t: Address, e: GraphEdge| #[trigger] edges_of(graph.edges, t).contains(
            e,
        ) implies graph.is_edge_from(t, e) by {
            let i = edges_of(graph.edges, t).index_of(e);
            assert(graph.edges[t][i] == e);
        }
        lemma_with_edge(graph.edges, pair.1, buying);
        assert(!edges_of(halfway, pair.0).contains(selling));
        lemma_with_edge(halfway, pair.0, selling);
        assert(after.edges == with_edge(halfway, pair.0, selling));
        assert forall|token: Address, i: int|
            after.edges.contains_key(token) && 0 <= i
                < after.edges[token].len() implies after.is_edge_from(
            token,
            #[trigger] after.edges[token][i],
        ) by {
            let e = after.edges[token][i];
            assert(edges_of(after.edges, token).contains(e));
            assert(edges_of(halfway, token).contains(e) || (token == pair.0 && e == selling));
        }
        assert forall|p: Pair| #[trigger] after.books.contains_key(p) implies {
            &&& edges_of(after.edges, p.1).contains(buying_edge(p))
            &&& edges_of(after.edges, p.0).contains(selling_edge(p))
        } by {
            if p != pair {
                assert(graph.books.contains_key(p));
                assert(edges_of(halfway, p.1).contains(buying_edge(p)));
                assert(edges_of(halfway, p.0).contains(selling_edge(p)));
            } else {
                assert(edges_of(halfway, p.1).contains(buying_edge(p)));
            }
        }
    } else {
        assert forall|token: Address, i: int|
            after.edges.contains_key(token) && 0 <= i
                < after.edges[token].len() implies after.is_edge_from(
            token,
            #[trigger] after.edges[token][i],
        ) by {
            assert(graph.is_edge_from(token, graph.edges[token][i]));
        }
    }
}

/// The tokens of a consistent graph are those that some book trades.
pub proof fn law_known_tokens_are_traded(graph: GraphView, token: Address)
    requires
        graph.consistent(),
    ensures
        graph.edges.contains_key(token) <==> exists|pair: Pair| #[trigger]
            graph.books.contains_key(pair) && (pair.0 == token || pair.1 == token),
{
    if graph.edges.contains_key(token) {
        let edge = graph.edges[token][0];
        assert(graph.is_edge_from(token, edge));
        assert(graph.books.contains_key(edge.pair));
    }
}

/// A book that came in is the one that is found, the books of other pairs stay as they were, and
/// the number of books grows only with a pair that had none.
pub proof fn law_upsert_replaces_one_book(graph: GraphView, book: BookView, other: Pair)
    requires
        graph.consistent(),
        other != book.pair(),
    ensures
        graph.upserted(book).books.contains_key(book.pair()),
        graph.upserted(book).books[book.pair()] == book,
        graph.upserted(book).books.contains_key(other) == graph.books.contains_key(other),
        graph.upserted(book).books[other] == graph.books[other],
        graph.upserted(book).books.dom().len() == graph.books.dom().len() + if graph.books.contains_key(
            book.pair(),
        ) {
            0nat
        } else {
            1
        },
{
    if graph.books.contains_key(book.pair()) {
        assert(graph.upserted(book).books.dom() == graph.books.dom());
    }
}

/// Updating the book of a known pair leaves every edge as it is.
pub proof fn law_update_adds_no_edges(graph: GraphView, first: BookView, second: BookView)
    requires
        first.pair() == second.pair(),
    ensures
        graph.upserted(first).upserted(second).edges == graph.upserted(first).edges,
        graph.upserted(first).upserted(second) == graph.upserted(second),
{
    assert(graph.upserted(first).upserted(second).books == graph.upserted(second).books);
}

/// Edges keep their places: those of a pair that is first seen go behind the ones that leave the
/// same token already.
pub proof fn law_edges_keep_their_places(graph: GraphView, book: BookView, token: Address)
    ensures
        edges_of(graph.edges, token).is_prefix_of(edges_of(graph.upserted(book).edges, token)),
        graph.edges.contains_key(token) ==> graph.upserted(book).edges.contains_key(token),
{
    let before = edges_of(graph.edges, token);
    let after = edges_of(graph.upserted(book).edges, token);
    assert forall|i: int| 0 <= i < before.len() implies before[i] == after[i] by {}
}

} // verus!
