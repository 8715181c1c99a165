//! The relocation ledger: the durable store in the destination directory
//! that owns the per-owner sequence counters and the provenance records.

use vstd::prelude::*;

use std::collections::HashMap;
use vstd::string::StringExecFns;

use crate::errors::CleanupError;
use crate::num::from_le4_spec;
use crate::num::le4_spec;
use crate::num::u32_from_le;
use crate::num::u32_to_le;
use crate::seqno::bump_spec;
use crate::store::counter_bump;
use crate::store::db_flush;
use crate::store::db_names;
use crate::store::open_store;
use crate::store::open_tree;
use crate::store::sorted_keys;
use crate::store::tree_insert;
use crate::store::tree_names;
use crate::store::tree_pairs;
use crate::store::tree_view;
use crate::text::lists_map;
use crate::text::pairs_view;

verus! {

broadcast use vstd::std_specs::hash::group_hash_axioms;

/// A ledger whose store's keyspace set only grew, its held keyspaces
/// unchanged, stays well formed.
proof fn lemma_names_grow_keep_wf(before: Ledger, after: Ledger)
    requires
        after.prov_trees() == before.prov_trees(),
        db_names(before.db).subset_of(db_names(after.db)),
    ensures
        before.wf() ==> after.wf(),
{
    if before.wf() {
        assert forall|u: u32| #[trigger] after.prov_trees().contains_key(u) implies db_names(
            after.db,
        ).contains(le4_spec(u)) by {
            assert(before.prov_trees().contains_key(u));
            assert(db_names(before.db).contains(le4_spec(u)));
        }
    }
}

/// The durable ledger: the store `paths.db` in the destination directory,
/// its counter keyspace, keyed by 4-byte little-endian owner id, and the
/// provenance keyspaces this run has opened so far, one per owner.
pub struct Ledger {
    db: sled::Db,
    counters: sled::Tree,
    prov: HashMap<u32, sled::Tree>,
}

impl Ledger {
    /// The owner-counter cells as stored.
    pub closed spec fn counters_view(self) -> Map<Seq<u8>, Seq<u8>> {
        tree_view(self.counters)
    }

    /// The provenance keyspaces opened so far, by owner.
    pub closed spec fn prov_trees(self) -> Map<u32, sled::Tree> {
        self.prov@
    }

    /// One owner's provenance map, once this run has touched it. Before
    /// the first record for an owner, whatever earlier runs stored there
    /// sits on disk unseen.
    pub open spec fn prov_view(self, uid: u32) -> Option<Map<Seq<u8>, Seq<u8>>> {
        if self.prov_trees().contains_key(uid) {
            Option::Some(tree_view(self.prov_trees()[uid]))
        } else {
            Option::None
        }
    }

    /// The counter cell of one owner, if present.
    pub open spec fn counter_cell(self, uid: u32) -> Option<Seq<u8>> {
        if self.counters_view().dom().contains(le4_spec(uid)) {
            Option::Some(self.counters_view()[le4_spec(uid)])
        } else {
            Option::None
        }
    }

    /// Well-formedness: every owner whose provenance keyspace this run
    /// holds is named in the store, so the export stage finds it. The
    /// constructor establishes it and every method preserves it.
    pub closed spec fn wf(self) -> bool {
        forall|u: u32| #[trigger]
            self.prov_trees().contains_key(u) ==> db_names(self.db).contains(le4_spec(u))
    }

    /// Opens (or creates) the ledger `paths.db` inside the destination
    /// directory, and its counter keyspace. Nothing is assumed of what
    /// earlier runs left there: a resumed run continues from the stored
    /// cells.
    pub fn open(dest_dir: &str) -> (r: Result<Ledger, CleanupError>)
        ensures
            r is Ok ==> forall|u: u32| #[trigger] r->Ok_0.prov_view(u) is None,
            r is Ok ==> r->Ok_0.wf(),
    {
        let path = dest_dir.to_owned().concat("/paths.db");
        let mut db = match open_store(path.as_str()) {
            Ok(d) => d,
            Err(e) => {
                return Err(CleanupError::Store(e));
            },
        };
        let name = crate::text::str_bytes("cleanup_uids");
        let counters = match open_tree(&mut db, &name) {
            Ok(t) => t,
            Err(e) => {
                return Err(CleanupError::Store(e));
            },
        };
        Ok(Ledger { db, counters, prov: HashMap::new() })
    }

    /// Assigns the next sequence number for `uid`: the atomic step the
    /// store applies to the owner's cell, as `bump_spec` says, leaving the
    /// cell holding the number handed out. Once the owner's numbers are
    /// exhausted, the saturated step would hand the same number out again,
    /// so it is refused: the file fails rather than reuse a destination.
    pub fn next_seq(&mut self, uid: u32) -> (r: Result<u32, CleanupError>)
        ensures
            r is Ok ==> r->Ok_0 == bump_spec(old(self).counter_cell(uid)) && r->Ok_0
                < 0xffff_ffff,
            r is Ok ==> final(self).counters_view() == old(self).counters_view().insert(
                le4_spec(uid),
                le4_spec(r->Ok_0),
            ),
            r is Err && r->Err_0 is CounterExhausted ==> bump_spec(old(self).counter_cell(uid))
                == 0xffff_ffff,
            final(self).prov_trees() == old(self).prov_trees(),
            old(self).wf() ==> final(self).wf(),
    {
        let key = u32_to_le(uid);
        let res = counter_bump(&mut self.counters, &key);
        proof {
            if old(self).wf() {
                assert forall|u: u32| #[trigger] self.prov_trees().contains_key(u) implies
                    db_names(self.db).contains(le4_spec(u)) by {
                    assert(old(self).prov_trees().contains_key(u));
                }
            }
        }
        match res {
            Ok(n) => {
                if n == 0xffff_ffff {
                    Err(CleanupError::CounterExhausted)
                } else {
                    Ok(n)
                }
            },
            Err(e) => Err(CleanupError::Store(e)),
        }
    }

    /// Records one file's provenance in the owner's keyspace: the encoded
    /// destination path maps to the encoded original path. The counter
    /// keyspace and every other owner's provenance are untouched. The
    /// first record for an owner opens that owner's keyspace over whatever
    /// earlier runs stored there; later records extend what this run sees.
    pub fn record(&mut self, uid: u32, key: &Vec<u8>, val: &Vec<u8>) -> (r: Result<
        (),
        CleanupError,
    >)
        ensures
            final(self).counters_view() == old(self).counters_view(),
            forall|u: u32|
                u != uid ==> #[trigger] final(self).prov_view(u) == old(self).prov_view(u),
            r is Ok ==> {
                &&& final(self).prov_view(uid) is Some
                &&& final(self).prov_view(uid)->0[key@] == val@
                &&& (old(self).prov_view(uid) is Some ==> final(self).prov_view(uid)->0 == old(
                    self,
                ).prov_view(uid)->0.insert(key@, val@))
            },
            old(self).wf() ==> final(self).wf(),
    {
        let ghost prior = self.prov@;
        let removed = self.prov.remove(&uid);
        let mut t = match removed {
            Some(t) => t,
            None => {
                let name = u32_to_le(uid);
                match open_tree(&mut self.db, &name) {
                    Ok(t) => t,
                    Err(e) => {
                        proof {
                            assert(self.prov@ =~= prior);
                            if old(self).wf() {
                                assert forall|u: u32| #[trigger] self.prov_trees().contains_key(
                                    u,
                                ) implies db_names(self.db).contains(le4_spec(u)) by {
                                    assert(db_names(old(self).db).contains(le4_spec(u)));
                                    assert(db_names(old(self).db).subset_of(
                                        db_names(self.db),
                                    ));
                                }
                            }
                        }
                        return Err(CleanupError::Store(e));
                    },
                }
            },
        };
        let res = tree_insert(&mut t, key, val);
        self.prov.insert(uid, t);
        proof {
            if old(self).wf() {
                assert(db_names(self.db).contains(le4_spec(uid)));
                assert forall|u: u32| #[trigger] self.prov_trees().contains_key(u) implies
                    db_names(self.db).contains(le4_spec(u)) by {
                    if u != uid {
                        assert(prior.contains_key(u));
                        assert(db_names(old(self).db).contains(le4_spec(u)));
                        assert(db_names(old(self).db).subset_of(db_names(self.db)));
                    }
                }
            }
        }
        match res {
            Ok(u) => Ok(u),
            Err(e) => Err(CleanupError::Store(e)),
        }
    }

    /// The names of the keyspaces in the store; owner keyspaces are the
    /// 4-byte ones. Every owner this run has recorded for appears, so the
    /// export stage misses none of the run's buckets.
    pub fn owner_names(&self) -> (r: Vec<Vec<u8>>)
        ensures
            self.wf() ==> forall|u: u32| #[trigger]
                self.prov_trees().contains_key(u) ==> exists|i: int|
                    0 <= i < r@.len() && r@[i]@ == le4_spec(u),
    {
        let r = tree_names(&self.db);
        proof {
            if self.wf() {
                assert forall|u: u32| #[trigger] self.prov_trees().contains_key(u) implies
                    exists|i: int| 0 <= i < r@.len() && r@[i]@ == le4_spec(u) by {
                    assert(db_names(self.db).contains(le4_spec(u)));
                }
            }
        }
        r
    }

    /// Reads back one owner's provenance pairs, keys strictly ascending,
    /// so each destination appears once. For an owner this run has
    /// recorded for, the pairs list exactly the provenance map the run
    /// built; otherwise they list whatever the store holds for the name.
    pub fn owner_pairs(&mut self, name: &Vec<u8>) -> (r: Result<
        Vec<(Vec<u8>, Vec<u8>)>,
        CleanupError,
    >)
        ensures
            r is Ok ==> sorted_keys(pairs_view(r->Ok_0@)),
            r is Ok && name@.len() == 4 && old(self).prov_view(from_le4_spec(name@)) is Some
                ==> lists_map(
                pairs_view(r->Ok_0@),
                old(self).prov_view(from_le4_spec(name@))->0,
            ),
            final(self).counters_view() == old(self).counters_view(),
            final(self).prov_trees() == old(self).prov_trees(),
            old(self).wf() ==> final(self).wf(),
    {
        if name.len() == 4 {
            let uid = u32_from_le(name.as_slice());
            if let Some(t) = self.prov.get(&uid) {
                return match tree_pairs(t) {
                    Ok(ps) => Ok(ps),
                    Err(e) => Err(CleanupError::Store(e)),
                };
            }
        }
        let t = match open_tree(&mut self.db, name) {
            Ok(t) => t,
            Err(e) => {
                proof {
                    lemma_names_grow_keep_wf(*old(self), *self);
                }
                return Err(CleanupError::Store(e));
            },
        };
        proof {
            lemma_names_grow_keep_wf(*old(self), *self);
        }
        match tree_pairs(&t) {
            Ok(ps) => Ok(ps),
            Err(e) => Err(CleanupError::Store(e)),
        }
    }

    /// Flushes the store to durable storage, so the run's effects survive
    /// the process.
    pub fn flush(&self) -> (r: Result<usize, CleanupError>) {
        match db_flush(&self.db) {
            Ok(n) => Ok(n),
            Err(e) => Err(CleanupError::Store(e)),
        }
    }
}

} // verus!
