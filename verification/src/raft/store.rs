//! Per-peer replication progress for a Raft leader, backed by `hashbrown`.
//!
//! The map is held behind an opaque wrapper struct; what it contains is
//! named by an uninterpreted spec function, and each method's contract
//! states over that name what `hashbrown`'s map does.

use vstd::prelude::*;

verus! {

/// A map from peer id to a log index (`next_index` or `match_index`).
#[verifier::external_body]
pub struct PeerIndexMap {
    inner: hashbrown::HashMap<usize, usize>,
}

/// What a `PeerIndexMap` holds: a map from peer id to log index.
pub uninterp spec fn peer_index_contents(m: PeerIndexMap) -> Map<int, int>;

/// The contents of a peer index map with nothing in it.
pub open spec fn no_peer_indices() -> Map<int, int> {
    Map::empty()
}

impl PeerIndexMap {
    /// Relies on hashbrown's `HashMap::new`: the new map is empty.
    #[verifier::external_body]
    pub(crate) fn new() -> (r: PeerIndexMap)
        ensures
            peer_index_contents(r) == no_peer_indices(),
    {
        PeerIndexMap { inner: hashbrown::HashMap::new() }
    }

    /// Relies on hashbrown's `HashMap::insert`: the key maps to the new
    /// value afterwards and no other entry changes.
    #[verifier::external_body]
    pub(crate) fn insert(&mut self, k: usize, v: usize)
        ensures
            peer_index_contents(*final(self)) == peer_index_contents(*old(self)).insert(
                k as int,
                v as int,
            ),
    {
        self.inner.insert(k, v);
    }

    /// Relies on hashbrown's `HashMap::get`: returns the entry at the key,
    /// if one exists.
    #[verifier::external_body]
    pub(crate) fn get(&self, k: usize) -> (r: Option<usize>)
        ensures
            match r {
                Some(v) => peer_index_contents(*self).contains_key(k as int)
                    && v == peer_index_contents(*self)[k as int],
                None => !peer_index_contents(*self).contains_key(k as int),
            },
    {
        self.inner.get(&k).copied()
    }
}

} // verus!
