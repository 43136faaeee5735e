//! Replicated-state-machine consensus over an unreliable datagram network.
//!
//! Two independent protocol stacks are provided: a Multi-Paxos variant with
//! separate Scout/Commander agents (`paxos`) and a Raft server (`raft`).
//! Both drive the same trivial deterministic state machine, `ReplicaState`.
//!
//! The crate holds the consensus logic itself: ballot and term bookkeeping,
//! quorum arithmetic, slot-window management and the state transitions of
//! each role. Sockets, timers and the wire codec live outside; the functions
//! here take decoded messages as plain values and return the messages to
//! send, so a thin event loop around them does all I/O.

use vstd::prelude::*;

pub mod paxos;
pub mod raft;
pub mod slotmap;

verus! {

/// State of the replicated state machine. A trivial placeholder value: the
/// protocols around it are indifferent to what the machine actually does.
#[derive(Debug, Clone, PartialEq, Eq, Structural, Hash, Copy)]
pub struct ReplicaState {
    pub n: usize,
}

impl Default for ReplicaState {
    /// The initial machine state.
    fn default() -> (r: ReplicaState)
        ensures
            r == (ReplicaState { n: 0 }),
    {
        ReplicaState { n: 0 }
    }
}

impl ReplicaState {
    /// The deterministic apply function: performing operation `op` on a state
    /// leaves the state unchanged and echoes the operation back as the
    /// client-visible result.
    pub fn triv(state: &ReplicaState, op: String) -> (r: (ReplicaState, Result<String, String>))
        ensures
            r.0 == *state,
            r.1 == Result::<String, String>::Ok(op),
    {
        (*state, Ok(op))
    }
}

} // verus!
