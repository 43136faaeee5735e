//! Hash-map storage for the replica, backed by `hashbrown`.
//!
//! The maps are held behind opaque wrapper structs; what they contain is
//! named by uninterpreted spec functions, and each method's contract states
//! over those names what `hashbrown`'s map does: standard insert/lookup
//! semantics, with `try_insert` keeping the first writer.

use vstd::prelude::*;
use crate::paxos::Command;

verus! {

/// The decided commands of a replica, keyed by slot.
#[verifier::external_body]
pub struct DecisionStore {
    inner: hashbrown::HashMap<usize, Command>,
}

/// What a `DecisionStore` holds: a map from slot to decided command.
pub uninterp spec fn decision_contents(m: DecisionStore) -> Map<int, Command>;

/// The contents of a decision store with nothing in it.
pub open spec fn no_decisions() -> Map<int, Command> {
    Map::empty()
}

impl DecisionStore {
    /// Relies on hashbrown's `HashMap::new`: the new map is empty.
    #[verifier::external_body]
    pub(crate) fn new() -> (r: DecisionStore)
        ensures
            decision_contents(r) == no_decisions(),
    {
        DecisionStore { inner: hashbrown::HashMap::new() }
    }

    /// Relies on hashbrown's `HashMap::insert`: the key maps to the new
    /// value afterwards and no other entry changes.
    #[verifier::external_body]
    pub(crate) fn insert(&mut self, k: usize, v: Command)
        ensures
            decision_contents(*final(self)) == decision_contents(*old(self)).insert(k as int, v),
    {
        self.inner.insert(k, v);
    }

    /// Relies on hashbrown's `HashMap::get`: returns the entry at the key,
    /// if one exists.
    #[verifier::external_body]
    pub(crate) fn get(&self, k: usize) -> (r: Option<Command>)
        ensures
            match r {
                Some(v) => decision_contents(*self).contains_key(k as int)
                    && v == decision_contents(*self)[k as int],
                None => !decision_contents(*self).contains_key(k as int),
            },
    {
        self.inner.get(&k).map(|v| v.clone())
    }
}

/// The clients a replica knows how to answer: client id to an opaque
/// address token handed in by the network layer.
#[verifier::external_body]
pub struct ClientDir {
    inner: hashbrown::HashMap<usize, u64>,
}

/// What a `ClientDir` holds: a map from client id to address token.
pub uninterp spec fn client_dir_contents(m: ClientDir) -> Map<int, u64>;

/// The contents of a client directory with nothing in it.
pub open spec fn no_clients() -> Map<int, u64> {
    Map::empty()
}

impl ClientDir {
    /// Relies on hashbrown's `HashMap::new`: the new map is empty.
    #[verifier::external_body]
    pub(crate) fn new() -> (r: ClientDir)
        ensures
            client_dir_contents(r) == no_clients(),
    {
        ClientDir { inner: hashbrown::HashMap::new() }
    }

    /// Relies on hashbrown's `HashMap::try_insert`: the entry is added only
    /// if the key is vacant, so the first writer wins.
    #[verifier::external_body]
    pub(crate) fn try_insert(&mut self, k: usize, addr: u64)
        ensures
            client_dir_contents(*final(self)) == if client_dir_contents(
                *old(self),
            ).contains_key(k as int) {
                client_dir_contents(*old(self))
            } else {
                client_dir_contents(*old(self)).insert(k as int, addr)
            },
    {
        let _ = self.inner.try_insert(k, addr);
    }

    /// Relies on hashbrown's `HashMap::get`: returns the entry at the key,
    /// if one exists.
    #[verifier::external_body]
    pub(crate) fn get(&self, k: usize) -> (r: Option<u64>)
        ensures
            match r {
                Some(v) => client_dir_contents(*self).contains_key(k as int)
                    && v == client_dir_contents(*self)[k as int],
                None => !client_dir_contents(*self).contains_key(k as int),
            },
    {
        self.inner.get(&k).copied()
    }
}

} // verus!
