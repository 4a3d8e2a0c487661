//! A copy of the market, so that a search sees one and the same state throughout.
use std::collections::HashMap;

use vstd::prelude::*;

use crate::clock::{Nanos, Watch};
use crate::freshness::{BookMeta, STALE_TTL};
use crate::graph::{GraphEdge, TokenGraph};
use crate::orderbook::{BookView, OrderbookState};
use crate::routing::query::MarketView;
use crate::store::{metas_in, scan_metas};
use crate::types::{Address, Pair};

verus! {

broadcast use vstd::std_specs::hash::group_hash_axioms;

/// The number that stands for a pair.
spec fn key_of(pair: Pair) -> u128 {
    (pair.0 * 0x1_0000_0000_0000_0000 + pair.1) as u128
}

/// Different pairs have different numbers.
proof fn lemma_keys_differ(a: Pair, b: Pair)
    ensures
        key_of(a) == key_of(b) ==> a == b,
{
}

/// Returns the number that stands for a pair.
fn pair_key(pair: &Pair) -> (key: u128)
    ensures
        key == key_of(*pair),
{
    pair.0 as u128 * 0x1_0000_0000_0000_0000 + pair.1 as u128
}

/// `table` has the books of `books`, each under the number of its pair.
spec fn holds_books(table: Map<u128, OrderbookState>, books: Map<Pair, BookView>) -> bool {
    &&& forall|pair: Pair|
        #![trigger books.contains_key(pair)]
        #![trigger table.contains_key(key_of(pair))]
        books.contains_key(pair) <==> table.contains_key(key_of(pair))
    &&& forall|pair: Pair| #[trigger]
        books.contains_key(pair) ==> table[key_of(pair)]@ == books[pair]
}

/// `table` has the edges of `edges`.
spec fn holds_edges(
    table: Map<Address, Vec<GraphEdge>>,
    edges: Map<Address, Seq<GraphEdge>>,
) -> bool {
    &&& table.dom() == edges.dom()
    &&& forall|token: Address| #[trigger]
        edges.contains_key(token) ==> table[token]@ == edges[token]
}

/// `table` has the records of `metas`, each under the number of its pair.
spec fn holds_metas(table: Map<u128, BookMeta>, metas: Map<Pair, BookMeta>) -> bool {
    &&& forall|pair: Pair|
        #![trigger metas.contains_key(pair)]
        #![trigger table.contains_key(key_of(pair))]
        metas.contains_key(pair) <==> table.contains_key(key_of(pair))
    &&& forall|pair: Pair| #[trigger]
        metas.contains_key(pair) ==> table[key_of(pair)] == metas[pair]
}

/// A copy of the market. Taking one makes a search independent of later updates.
pub(crate) struct RoutingSnapshot {
    orderbooks: HashMap<u128, OrderbookState>,
    graph_edges: HashMap<Address, Vec<GraphEdge>>,
    /// When each book was last updated, if that matters.
    metas: Option<HashMap<u128, BookMeta>>,
    /// Tells how old the books are when they are looked at.
    watch: Watch,
    market: Ghost<MarketView>,
}

/// Returns a table of all the books of a graph.
fn collect_books(graph: &TokenGraph) -> (table: HashMap<u128, OrderbookState>)
    ensures
        holds_books(table@, graph@.books),
{
    let mut table: HashMap<u128, OrderbookState> = HashMap::new();
    let mut entries = graph.all_books();
    let ghost all = entries@;
    let ghost books = graph@.books;
    while entries.len() > 0
        invariant
            entries@ == all.take(entries@.len() as int),
            entries@.len() <= all.len(),
            books == graph@.books,
            forall|i: int|
                #![trigger all[i]]
                0 <= i < all.len() ==> books.contains_key(all[i].0) && books[all[i].0] == all[i].1@,
            forall|pair: Pair| #[trigger]
                table@.contains_key(key_of(pair)) ==> books.contains_key(pair) && table@[key_of(
                    pair,
                )]@ == books[pair],
            forall|i: int|
                #![trigger all[i]]
                entries@.len() <= i < all.len() ==> table@.contains_key(key_of(all[i].0)),
        decreases entries@.len(),
    {
        let ghost before = table@;
        match entries.pop() {
            Some(entry) => {
                let (pair, book) = entry;
                assert(all[entries@.len() as int] == entry);
                table.insert(pair_key(&pair), book);
                assert forall|p: Pair| #[trigger] table@.contains_key(key_of(p)) implies books.contains_key(p)
                    && table@[key_of(p)]@ == books[p] by {
                    lemma_keys_differ(p, pair);
                    if p != pair {
                        assert(before.contains_key(key_of(p)));
                    }
                }
            },
            None => {},
        }
    }
    assert forall|pair: Pair| #[trigger] books.contains_key(pair) implies table@.contains_key(
        key_of(pair),
    ) by {
        let i = choose|i: int| 0 <= i < all.len() && (#[trigger] all[i]).0 == pair;
        assert(all[i].0 == pair);
    }
    table
}

/// Returns a table of all the edges of a graph.
fn collect_edges(graph: &TokenGraph) -> (table: HashMap<Address, Vec<GraphEdge>>)
    ensures
        holds_edges(table@, graph@.edges),
{
    let mut table: HashMap<Address, Vec<GraphEdge>> = HashMap::new();
    let mut entries = graph.all_edges();
    let ghost all = entries@;
    let ghost edges = graph@.edges;
    while entries.len() > 0
        invariant
            entries@ == all.take(entries@.len() as int),
            entries@.len() <= all.len(),
            edges == graph@.edges,
            forall|i: int|
                #![trigger all[i]]
                0 <= i < all.len() ==> edges.contains_key(all[i].0) && edges[all[i].0] == all[i].1@,
            forall|token: Address| #[trigger]
                table@.contains_key(token) ==> edges.contains_key(token) && table@[token]@
                    == edges[token],
            forall|i: int|
                #![trigger all[i]]
                entries@.len() <= i < all.len() ==> table@.contains_key(all[i].0),
        decreases entries@.len(),
    {
        match entries.pop() {
            Some(entry) => {
                let (token, leaving) = entry;
                assert(all[entries@.len() as int] == entry);
                table.insert(token, leaving);
            },
            None => {},
        }
    }
    assert forall|token: Address| #[trigger] edges.contains_key(token) implies table@.contains_key(
        token,
    ) by {
        let i = choose|i: int| 0 <= i < all.len() && (#[trigger] all[i]).0 == token;
        assert(all[i].0 == token);
    }
    assert(table@.dom() == edges.dom());
    table
}

/// Returns a table of all the records of a map.
fn collect_metas(map: &scc::HashMap<Pair, BookMeta>) -> (table: HashMap<u128, BookMeta>)
    ensures
        holds_metas(table@, metas_in(*map)),
{
    let mut table: HashMap<u128, BookMeta> = HashMap::new();
    let mut entries = scan_metas(map);
    let ghost all = entries@;
    let ghost metas = metas_in(*map);
    while entries.len() > 0
        invariant
            entries@ == all.take(entries@.len() as int),
            entries@.len() <= all.len(),
            metas == metas_in(*map),
            forall|i: int|
                #![trigger all[i]]
                0 <= i < all.len() ==> metas.contains_key(all[i].0) && metas[all[i].0] == all[i].1,
            forall|pair: Pair| #[trigger]
                table@.contains_key(key_of(pair)) ==> metas.contains_key(pair) && table@[key_of(
                    pair,
                )] == metas[pair],
            forall|i: int|
                #![trigger all[i]]
                entries@.len() <= i < all.len() ==> table@.contains_key(key_of(all[i].0)),
        decreases entries@.len(),
    {
        let ghost before = table@;
        match entries.pop() {
            Some(entry) => {
                let (pair, meta) = entry;
                assert(all[entries@.len() as int] == entry);
                table.insert(pair_key(&pair), meta);
                assert forall|p: Pair| #[trigger] table@.contains_key(key_of(p)) implies metas.contains_key(p)
                    && table@[key_of(p)] == metas[p] by {
                    lemma_keys_differ(p, pair);
                    if p != pair {
                        assert(before.contains_key(key_of(p)));
                    }
                }
            },
            None => {},
        }
    }
    assert forall|pair: Pair| #[trigger] metas.contains_key(pair) implies table@.contains_key(
        key_of(pair),
    ) by {
        let i = choose|i: int| 0 <= i < all.len() && (#[trigger] all[i]).0 == pair;
        assert(all[i].0 == pair);
    }
    table
}

impl RoutingSnapshot {
    /// The market that was copied.
    pub(crate) closed spec fn market(&self) -> MarketView {
        self.market@
    }

    /// Where the time comes from.
    pub(crate) closed spec fn watch(&self) -> Watch {
        self.watch
    }

    /// The tables hold what the market does.
    pub(crate) closed spec fn wf(&self) -> bool {
        &&& holds_books(self.orderbooks@, self.market@.graph.books)
        &&& holds_edges(self.graph_edges@, self.market@.graph.edges)
        &&& match self.metas {
            None => self.market@.metas is None,
            Some(metas) => {
                &&& self.market@.metas is Some
                &&& holds_metas(metas@, self.market@.metas->0)
            },
        }
    }

    /// Returns the time.
    pub(crate) fn time(&self) -> (now: Nanos)
        ensures
            self.watch().may_show(now),
    {
        self.watch.read()
    }

    /// Copies the books and the graph; every book may be traded on, whatever the time.
    pub(crate) fn from_graph(graph: &TokenGraph) -> (snapshot: Self)
        ensures
            snapshot.wf(),
            snapshot.market() == (MarketView { graph: graph@, metas: None }),
            snapshot.watch() == Watch::Stopped(0),
    {
        RoutingSnapshot {
            orderbooks: collect_books(graph),
            graph_edges: collect_edges(graph),
            metas: None,
            watch: Watch::Stopped(0),
            market: Ghost(MarketView { graph: graph@, metas: None }),
        }
    }

    /// Copies the books, the graph and the records of when the books were updated.
    pub(crate) fn from_state(
        graph: &TokenGraph,
        metas: &scc::HashMap<Pair, BookMeta>,
        watch: Watch,
    ) -> (snapshot: Self)
        ensures
            snapshot.wf(),
            snapshot.market() == (MarketView { graph: graph@, metas: Some(metas_in(*metas)) }),
            snapshot.watch() == watch,
    {
        RoutingSnapshot {
            orderbooks: collect_books(graph),
            graph_edges: collect_edges(graph),
            metas: Some(collect_metas(metas)),
            watch,
            market: Ghost(MarketView { graph: graph@, metas: Some(metas_in(*metas)) }),
        }
    }

    /// Returns the edges that leave a token.
    pub(crate) fn neighbors(&self, token: &Address) -> (edges: &[GraphEdge])
        requires
            self.wf(),
        ensures
            edges@ == self.market().out_edges(*token),
    {
        match self.graph_edges.get(token) {
            Some(edges) => edges.as_slice(),
            None => &[],
        }
    }

    /// Returns the book of a pair.
    pub(crate) fn get_orderbook(&self, pair: &Pair) -> (book: Option<&OrderbookState>)
        requires
            self.wf(),
        ensures
            book is Some <==> self.market().graph.books.contains_key(*pair),
            book matches Some(b) ==> b@ == self.market().graph.books[*pair],
    {
        self.orderbooks.get(&pair_key(pair))
    }

    /// Returns whether the book of a pair is healthy and not stale when it is looked at, with
    /// the time of that, which is not before `since`.
    pub(crate) fn is_usable(&self, pair: &Pair, since: Nanos) -> (seen: (bool, Ghost<Nanos>))
        requires
            self.wf(),
        ensures
            since <= seen.1@,
            self.watch().may_show(seen.1@) || seen.1@ == since,
            seen.0 == self.market().usable(*pair, seen.1@),
    {
        let read: Nanos = self.watch.read();
        // The clock does not go back.
        let now: Nanos = if since <= read {
            read
        } else {
            since
        };
        let usable = match &self.metas {
            None => true,
            Some(metas) => match metas.get(&pair_key(pair)) {
                Some(meta) => meta.is_usable(STALE_TTL, now),
                None => false,
            },
        };
        (usable, Ghost(now))
    }
}

} // verus!
