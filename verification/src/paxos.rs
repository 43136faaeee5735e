//! Consensus on a sequence of operations using the Paxos algorithm.
//!
//! Roles: `Acceptor` answers the promise/accept protocol, the Scout and
//! Commander agents in `leader` drive the two phases for a `Leader`, and
//! `Replica` pipelines client requests into slots.

use vstd::prelude::*;

pub mod acceptor;
pub mod leader;
pub mod replica;
pub mod store;

verus! {

/// A ballot number: totally ordered lexicographically by `(num, leader_id)`.
#[derive(Debug, Clone, Copy, PartialEq, Eq, Structural)]
pub struct Ballot {
    pub num: usize,
    pub leader_id: usize,
}

/// Strict lexicographic order on ballots.
pub open spec fn ballot_lt(a: Ballot, b: Ballot) -> bool {
    a.num < b.num || (a.num == b.num && a.leader_id < b.leader_id)
}

/// Reflexive lexicographic order on ballots.
pub open spec fn ballot_le(a: Ballot, b: Ballot) -> bool {
    ballot_lt(a, b) || a == b
}

impl Ballot {
    pub fn new(num: usize, leader_id: usize) -> (r: Ballot)
        ensures
            r == (Ballot { num, leader_id }),
    {
        Ballot { num, leader_id }
    }

    /// Decide `*self < *other` under the lexicographic ballot order.
    pub fn lt(&self, other: &Ballot) -> (r: bool)
        ensures
            r == ballot_lt(*self, *other),
    {
        self.num < other.num || (self.num == other.num && self.leader_id < other.leader_id)
    }
}

/// A client-supplied operation, identified structurally for deduplication
/// across retries.
#[derive(Debug, Eq, Hash)]
pub struct Command {
    pub client_id: usize,
    pub op_id: usize,
    pub op: String,
}

impl Clone for Command {
    fn clone(&self) -> (r: Command)
        ensures
            r == *self,
    {
        Command { client_id: self.client_id, op_id: self.op_id, op: self.op.clone() }
    }
}

impl PartialEq for Command {
    fn eq(&self, other: &Command) -> (r: bool) {
        self.client_id == other.client_id && self.op_id == other.op_id && self.op == other.op
    }
}

impl vstd::std_specs::cmp::PartialEqSpecImpl for Command {
    open spec fn obeys_eq_spec() -> bool {
        true
    }

    open spec fn eq_spec(&self, other: &Command) -> bool {
        self.client_id == other.client_id && self.op_id == other.op_id && self.op@ == other.op@
    }
}

/// A request as a client frames it on the wire; field for field a `Command`.
#[derive(Debug, Eq, Hash)]
pub struct ClientRequest {
    pub client_id: usize,
    pub op_id: usize,
    pub op: String,
}

impl Clone for ClientRequest {
    fn clone(&self) -> (r: ClientRequest)
        ensures
            r == *self,
    {
        ClientRequest { client_id: self.client_id, op_id: self.op_id, op: self.op.clone() }
    }
}

impl PartialEq for ClientRequest {
    fn eq(&self, other: &ClientRequest) -> (r: bool) {
        self.client_id == other.client_id && self.op_id == other.op_id && self.op == other.op
    }
}

impl vstd::std_specs::cmp::PartialEqSpecImpl for ClientRequest {
    open spec fn obeys_eq_spec() -> bool {
        true
    }

    open spec fn eq_spec(&self, other: &ClientRequest) -> bool {
        self.client_id == other.client_id && self.op_id == other.op_id && self.op@ == other.op@
    }
}

impl ClientRequest {
    /// The command this request asks for.
    pub fn to_command(&self) -> (r: Command)
        ensures
            r == (Command { client_id: self.client_id, op_id: self.op_id, op: self.op }),
    {
        Command { client_id: self.client_id, op_id: self.op_id, op: self.op.clone() }
    }
}

/// A proposal binds a command to a slot under a ballot. Proposals are
/// comparable only within one slot; see `proposal_cmp`.
#[derive(Debug)]
pub struct Proposal {
    pub slot: usize,
    pub ballot: Ballot,
    pub command: Command,
}

impl Clone for Proposal {
    fn clone(&self) -> (r: Proposal)
        ensures
            r == *self,
    {
        Proposal { slot: self.slot, ballot: self.ballot, command: self.command.clone() }
    }
}

impl PartialEq for Proposal {
    fn eq(&self, other: &Proposal) -> (r: bool) {
        self.slot == other.slot && self.ballot == other.ballot
    }
}

impl vstd::std_specs::cmp::PartialEqSpecImpl for Proposal {
    open spec fn obeys_eq_spec() -> bool {
        true
    }

    open spec fn eq_spec(&self, other: &Proposal) -> bool {
        self.slot == other.slot && self.ballot == other.ballot
    }
}

impl PartialOrd for Proposal {
    fn partial_cmp(&self, other: &Proposal) -> (r: Option<core::cmp::Ordering>) {
        if self.slot == other.slot {
            Some(self.cmp(other))
        } else {
            None
        }
    }
}

impl vstd::std_specs::cmp::PartialOrdSpecImpl for Proposal {
    open spec fn obeys_partial_cmp_spec() -> bool {
        true
    }

    open spec fn partial_cmp_spec(&self, other: &Proposal) -> Option<core::cmp::Ordering> {
        if self.slot == other.slot {
            Some(proposal_cmp(*self, *other))
        } else {
            None
        }
    }
}

/// Ordering used when an acceptor reports its latest accepted proposals.
/// Within one slot, proposals order by ballot; across slots no order is
/// defined and the comparison falls back to `Equal`. That coarse fallback is
/// part of the protocol as specified and is reproduced here deliberately.
pub open spec fn proposal_cmp(a: Proposal, b: Proposal) -> core::cmp::Ordering {
    if a.slot == b.slot {
        if ballot_lt(a.ballot, b.ballot) {
            core::cmp::Ordering::Less
        } else if a.ballot == b.ballot {
            core::cmp::Ordering::Equal
        } else {
            core::cmp::Ordering::Greater
        }
    } else {
        core::cmp::Ordering::Equal
    }
}

impl Proposal {
    /// Compare two proposals: by ballot within a slot, `Equal` across slots.
    pub fn cmp(&self, other: &Proposal) -> (r: core::cmp::Ordering)
        ensures
            r == proposal_cmp(*self, *other),
    {
        if self.slot == other.slot {
            if self.ballot.lt(&other.ballot) {
                core::cmp::Ordering::Less
            } else if self.ballot.num == other.ballot.num
                && self.ballot.leader_id == other.ballot.leader_id {
                core::cmp::Ordering::Equal
            } else {
                core::cmp::Ordering::Greater
            }
        } else {
            core::cmp::Ordering::Equal
        }
    }
}

/// The tagged message protocol of the Paxos stack, carried over the
/// unreliable channel by an external codec.
#[derive(Debug)]
pub enum Message {
    /// client -> replica
    Request(ClientRequest),
    /// replica -> client: `(op_id, metadata, result)`
    Response(usize, String, Result<String, String>),
    /// replica -> leader: `(slot, command)`
    Propose(usize, Command),
    /// commander -> replica: `(slot, command)`
    Decision(usize, Command),
    /// scout -> acceptor: `(leader_id, ballot)`
    Phase1a(usize, Ballot),
    /// acceptor -> scout: `(leader_id, acceptor_id, ballot, accepted)`
    Phase1b(usize, usize, Ballot, Vec<Proposal>),
    /// commander -> acceptor: `(leader_id, proposal)`
    Phase2a(usize, Proposal),
    /// acceptor -> commander: `(leader_id, acceptor_id, ballot)`
    Phase2b(usize, usize, Ballot),
    /// graceful shutdown of a leader's event loop
    Terminate,
}

} // verus!
