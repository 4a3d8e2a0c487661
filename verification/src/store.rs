//! The concurrent hash maps that hold the aggregator's state, as [`scc::HashMap`] has them.
//!
//! The functions that change a map or count its entries take it by mutable reference, so that
//! nothing else reaches the map meanwhile. A map stops the program when it runs out of memory, or when
//! `u32::MAX` entries have gathered in one of its buckets; neither is accounted for here.
use vstd::prelude::*;

use crate::freshness::BookMeta;
use crate::graph::{copy_edges, edges_of, GraphEdge};
use crate::orderbook::{BookView, OrderbookState};
use crate::types::{Address, Pair};

verus! {

/// [`scc::HashMap`], a concurrent hash map. Nothing is known of the inside of one.
#[verifier::external_type_specification]
#[verifier::external_body]
#[verifier::reject_recursive_types(K)]
#[verifier::reject_recursive_types(V)]
#[verifier::reject_recursive_types(H)]
pub struct ExHashMap<K, V, H: std::hash::BuildHasher>(scc::HashMap<K, V, H>);

/// The order books that a map holds, by pair.
pub uninterp spec fn books_in(map: scc::HashMap<Pair, OrderbookState>) -> Map<Pair, BookView>;

/// The outgoing edges that a map holds, by token.
pub uninterp spec fn edges_in(map: scc::HashMap<Address, Vec<GraphEdge>>) -> Map<Address, Seq<GraphEdge>>;

/// The records that a map holds, by pair.
pub uninterp spec fn metas_in(map: scc::HashMap<Pair, BookMeta>) -> Map<Pair, BookMeta>;

/// Calls [`scc::HashMap::new`], which creates an empty map.
#[verifier::external_body]
pub(crate) fn new_books() -> (map: scc::HashMap<Pair, OrderbookState>)
    ensures
        (books_in(map) == Map::<Pair, BookView>::empty()),
{
    scc::HashMap::new()
}

/// Calls [`scc::HashMap::new`], which creates an empty map.
#[verifier::external_body]
pub(crate) fn new_edges() -> (map: scc::HashMap<Address, Vec<GraphEdge>>)
    ensures
        (edges_in(map) == Map::<Address, Seq<GraphEdge>>::empty()),
{
    scc::HashMap::new()
}

/// Calls [`scc::HashMap::new`], which creates an empty map.
#[verifier::external_body]
pub(crate) fn new_metas() -> (map: scc::HashMap<Pair, BookMeta>)
    ensures
        (metas_in(map) == Map::<Pair, BookMeta>::empty()),
{
    scc::HashMap::new()
}

/// Calls [`scc::HashMap::contains`], which returns whether the map has the key.
#[verifier::external_body]
pub(crate) fn has_book(map: &scc::HashMap<Pair, OrderbookState>, pair: &Pair) -> (found: bool)
    ensures
        found == books_in(*map).contains_key(*pair),
{
    map.contains(pair)
}

/// Calls [`scc::HashMap::contains`], which returns whether the map has the key.
#[verifier::external_body]
pub(crate) fn has_edges(map: &scc::HashMap<Address, Vec<GraphEdge>>, token: &Address) -> (found: bool)
    ensures
        found == edges_in(*map).contains_key(*token),
{
    map.contains(token)
}

/// Calls [`scc::HashMap::upsert`], which puts the value under the key, in place of any value
/// that was there, and leaves the other keys alone.
#[verifier::external_body]
pub(crate) fn put_book(
    map: &mut scc::HashMap<Pair, OrderbookState>,
    pair: Pair,
    book: OrderbookState,
)
    ensures
        books_in(*final(map)) == books_in(*old(map)).insert(pair, book@),
{
    let _ = map.upsert(pair, book);
}

/// Calls [`scc::HashMap::upsert`], which puts the value under the key, in place of any value
/// that was there, and leaves the other keys alone.
#[verifier::external_body]
pub(crate) fn put_meta(map: &mut scc::HashMap<Pair, BookMeta>, pair: Pair, meta: BookMeta)
    ensures
        metas_in(*final(map)) == metas_in(*old(map)).insert(pair, meta),
{
    let _ = map.upsert(pair, meta);
}

/// Calls [`scc::HashMap::entry`], `or_default` and `get_mut`, which give the value under the
/// key, an empty list where there was none, and puts the edge at the end of that list. The
/// other keys are left alone.
#[verifier::external_body]
pub(crate) fn push_edge(
    map: &mut scc::HashMap<Address, Vec<GraphEdge>>,
    token: Address,
    edge: GraphEdge,
)
    ensures
        edges_in(*final(map)) == edges_in(*old(map)).insert(
            token,
            edges_of(edges_in(*old(map)), token).push(edge),
        ),
{
    map.entry(token).or_default().get_mut().push(edge);
}

/// Calls [`scc::HashMap::read`], which hands the value under the key to the closure, and
/// returns `None` where the map does not have the key.
#[verifier::external_body]
pub(crate) fn read_book(map: &scc::HashMap<Pair, OrderbookState>, pair: &Pair) -> (book: Option<
    OrderbookState,
>)
    ensures
        book is Some <==> books_in(*map).contains_key(*pair),
        book matches Some(b) ==> b@ == books_in(*map)[*pair],
{
    map.read(pair, |_, book| book.clone())
}

/// Calls [`scc::HashMap::read`], which hands the value under the key to the closure, and
/// returns `None` where the map does not have the key.
#[verifier::external_body]
pub(crate) fn read_edges(map: &scc::HashMap<Address, Vec<GraphEdge>>, token: &Address) -> (edges:
    Option<Vec<GraphEdge>>)
    ensures
        edges is Some <==> edges_in(*map).contains_key(*token),
        edges matches Some(e) ==> e@ == edges_in(*map)[*token],
{
    map.read(token, |_, edges| copy_edges(edges))
}

/// Calls [`scc::HashMap::read`], which hands the value under the key to the closure, and
/// returns `None` where the map does not have the key.
#[verifier::external_body]
pub(crate) fn read_meta(map: &scc::HashMap<Pair, BookMeta>, pair: &Pair) -> (meta: Option<BookMeta>)
    ensures
        meta is Some <==> metas_in(*map).contains_key(*pair),
        meta matches Some(m) ==> m == metas_in(*map)[*pair],
{
    map.read(pair, |_, meta| *meta)
}

/// Calls [`scc::HashMap::len`], which counts the entries of the bucket array and of the one
/// before it. Even a lookup may move entries from the old array to the new one while they are
/// counted, so the map is taken by mutable reference: an entry is then in one of the two
/// throughout, and counted once. Counting changes no entry.
#[verifier::external_body]
pub(crate) fn count_books(map: &mut scc::HashMap<Pair, OrderbookState>) -> (count: usize)
    ensures
        count == books_in(*old(map)).dom().len(),
        books_in(*final(map)) == books_in(*old(map)),
{
    map.len()
}

/// Calls [`scc::HashMap::len`], which counts the entries of the bucket array and of the one
/// before it. As in [`count_books`], nothing else reaches the map meanwhile, so each entry is
/// counted once, and none is changed.
#[verifier::external_body]
pub(crate) fn count_tokens(map: &mut scc::HashMap<Address, Vec<GraphEdge>>) -> (count: usize)
    ensures
        count == edges_in(*old(map)).dom().len(),
        edges_in(*final(map)) == edges_in(*old(map)),
{
    map.len()
}

/// Calls [`scc::HashMap::scan`], which visits the entries in no particular order: every
/// entry, and nothing that is not one. Returns what was visited.
#[verifier::external_body]
pub(crate) fn scan_books(map: &scc::HashMap<Pair, OrderbookState>) -> (entries: Vec<
    (Pair, OrderbookState),
>)
    ensures
        forall|i: int|
            #![trigger entries@[i]]
            0 <= i < entries@.len() ==> books_in(*map).contains_key(entries@[i].0) && books_in(
                *map,
            )[entries@[i].0] == entries@[i].1@,
        forall|pair: Pair|
            books_in(*map).contains_key(pair) ==> exists|i: int|
                0 <= i < entries@.len() && (#[trigger] entries@[i]).0 == pair,
{
    let mut entries: Vec<(Pair, OrderbookState)> = Vec::new();
    map.scan(|pair, book| entries.push((*pair, book.clone())));
    entries
}

/// Calls [`scc::HashMap::scan`], which visits the entries in no particular order: every
/// entry, and nothing that is not one. Returns what was visited.
#[verifier::external_body]
pub(crate) fn scan_edges(map: &scc::HashMap<Address, Vec<GraphEdge>>) -> (entries: Vec<
    (Address, Vec<GraphEdge>),
>)
    ensures
        forall|i: int|
            #![trigger entries@[i]]
            0 <= i < entries@.len() ==> edges_in(*map).contains_key(entries@[i].0) && edges_in(
                *map,
            )[entries@[i].0] == entries@[i].1@,
        forall|token: Address|
            edges_in(*map).contains_key(token) ==> exists|i: int|
                0 <= i < entries@.len() && (#[trigger] entries@[i]).0 == token,
{
    let mut entries: Vec<(Address, Vec<GraphEdge>)> = Vec::new();
    map.scan(|token, edges| entries.push((*token, copy_edges(edges))));
    entries
}

/// Calls [`scc::HashMap::scan`], which visits the entries in no particular order: every
/// entry, and nothing that is not one. Returns what was visited.
#[verifier::external_body]
pub(crate) fn scan_metas(map: &scc::HashMap<Pair, BookMeta>) -> (entries: Vec<(Pair, BookMeta)>)
    ensures
        forall|i: int|
            #![trigger entries@[i]]
            0 <= i < entries@.len() ==> metas_in(*map).contains_key(entries@[i].0) && metas_in(
                *map,
            )[entries@[i].0] == entries@[i].1,
        forall|pair: Pair|
            metas_in(*map).contains_key(pair) ==> exists|i: int|
                0 <= i < entries@.len() && (#[trigger] entries@[i]).0 == pair,
{
    let mut entries: Vec<(Pair, BookMeta)> = Vec::new();
    map.scan(|pair, meta| entries.push((*pair, *meta)));
    entries
}

} // verus!
