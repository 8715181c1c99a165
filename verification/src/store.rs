//! Trusted boundary around the durable key-value store (sled). Each
//! keyspace is modelled as a map from key bytes to value bytes; the
//! wrappers state over that model what the store's own source shows.

use vstd::prelude::*;

use crate::num::le4_spec;
use crate::seqno::bump_spec;
use crate::seqno::next_counter_cell;
use crate::text::lists_map;
use crate::text::pairs_view;

verus! {

#[verifier::external_type_specification]
#[verifier::external_body]
pub struct ExDb(sled::Db);

#[verifier::external_type_specification]
#[verifier::external_body]
pub struct ExTree(sled::Tree);

#[verifier::external_type_specification]
#[verifier::external_body]
pub struct ExSledError(sled::Error);

/// What a keyspace holds: its key-to-value mapping.
pub uninterp spec fn tree_view(t: sled::Tree) -> Map<Seq<u8>, Seq<u8>>;

/// The names of the keyspaces the store holds, the default one included.
pub uninterp spec fn db_names(db: sled::Db) -> Set<Seq<u8>>;

/// Strict lexicographic order on byte strings.
pub open spec fn lex_lt(a: Seq<u8>, b: Seq<u8>) -> bool
    decreases a.len(),
{
    if b.len() == 0 {
        false
    } else if a.len() == 0 {
        true
    } else if a[0] < b[0] {
        true
    } else if a[0] > b[0] {
        false
    } else {
        lex_lt(a.skip(1), b.skip(1))
    }
}

/// Relies on sled::Config::open (with a path and high-throughput mode):
/// opens or creates the durable store in the given directory. Nothing is
/// assumed of the contents found there. The store is opened without
/// compression; sled refuses a store whose persisted configuration
/// differs, so one written with compression on fails here as a setup
/// error.
#[verifier::external_body]
pub fn open_store(path: &str) -> (r: Result<sled::Db, sled::Error>)
{
    sled::Config::new().path(path).mode(sled::Mode::HighThroughput).open()
}

/// Relies on sled::Db::open_tree: opens or creates the keyspace with the
/// given name, which is then among the store's names; a keyspace is never
/// removed by opening one. Nothing is assumed of its prior contents: a
/// resumed run finds whatever earlier runs left there. Repeated opens of
/// one name hand back handles to one shared keyspace; the library keeps
/// at most one live handle per name and never reads a keyspace through
/// one handle while writing it through another.
#[verifier::external_body]
pub fn open_tree(db: &mut sled::Db, name: &Vec<u8>) -> (r: Result<sled::Tree, sled::Error>)
    ensures
        db_names(*old(db)).subset_of(db_names(*final(db))),
        r is Ok ==> db_names(*final(db)) == db_names(*old(db)).insert(name@),
{
    db.open_tree(name.as_slice())
}

/// Relies on sled::Tree::update_and_fetch: applies the verified counter
/// step atomically to the cell at `key` and returns the value it stored,
/// here the freshly assigned number. On an error the store's state is not
/// assumed.
#[verifier::external_body]
pub fn counter_bump(t: &mut sled::Tree, key: &Vec<u8>) -> (r: Result<u32, sled::Error>)
    ensures
        r is Ok ==> r->Ok_0 == bump_spec(
            if tree_view(*old(t)).dom().contains(key@) {
                Option::Some(tree_view(*old(t))[key@])
            } else {
                Option::None
            },
        ),
        r is Ok ==> tree_view(*final(t)) == tree_view(*old(t)).insert(
            key@,
            le4_spec(r->Ok_0),
        ),
{
    match t.update_and_fetch(key.as_slice(), |cell| Some(next_counter_cell(cell))) {
        Ok(Some(cell)) => Ok(crate::num::u32_from_le(cell.as_ref())),
        Ok(None) => Ok(0),
        Err(e) => Err(e),
    }
}

/// Relies on sled::Tree::insert: stores `val` at `key`, replacing any
/// previous value. On an error the store's state is not assumed.
#[verifier::external_body]
pub fn tree_insert(t: &mut sled::Tree, key: &Vec<u8>, val: &Vec<u8>) -> (r: Result<
    (),
    sled::Error,
>)
    ensures
        r is Ok ==> tree_view(*final(t)) == tree_view(*old(t)).insert(key@, val@),
{
    match t.insert(key.as_slice(), val.clone()) {
        Ok(_) => Ok(()),
        Err(e) => Err(e),
    }
}

/// The keys of the listed pairs are strictly ascending, so each key
/// appears once.
pub open spec fn sorted_keys(ps: Seq<(Seq<u8>, Seq<u8>)>) -> bool {
    forall|i: int, j: int| 0 <= i < j < ps.len() ==> lex_lt(ps[i].0, ps[j].0)
}

/// Relies on sled::Tree::iter: enumerates every pair of the keyspace,
/// keys in ascending lexicographic order, each key once.
#[verifier::external_body]
pub fn tree_pairs(t: &sled::Tree) -> (r: Result<Vec<(Vec<u8>, Vec<u8>)>, sled::Error>)
    ensures
        r is Ok ==> lists_map(pairs_view(r->Ok_0@), tree_view(*t)),
        r is Ok ==> sorted_keys(pairs_view(r->Ok_0@)),
{
    let mut out = Vec::new();
    for item in t.iter() {
        match item {
            Ok((k, v)) => out.push((k.as_ref().to_vec(), v.as_ref().to_vec())),
            Err(e) => return Err(e),
        }
    }
    Ok(out)
}

/// Relies on sled::Db::tree_names: lists the names of the keyspaces in
/// the store, the default keyspace included; every name the store holds
/// appears. The order is not assumed.
#[verifier::external_body]
pub fn tree_names(db: &sled::Db) -> (r: Vec<Vec<u8>>)
    ensures
        forall|n: Seq<u8>| #[trigger]
            db_names(*db).contains(n) ==> exists|i: int| 0 <= i < r@.len() && r@[i]@ == n,
{
    db.tree_names().iter().map(|n| n.as_ref().to_vec()).collect()
}

/// Relies on sled::Db::flush: forces pending writes to durable storage
/// before the process exits.
#[verifier::external_body]
pub fn db_flush(db: &sled::Db) -> (r: Result<usize, sled::Error>)
{
    db.flush()
}

} // verus!
