//! Consensus on a sequence of operations using the Raft algorithm: a single
//! server state machine covering leader election, log replication and
//! commit/apply tracking.

use vstd::prelude::*;

pub mod server;
pub mod store;

verus! {

/// A client's network address, as plain data: an IPv4 address and a port.
/// The network layer converts to and from its own socket address type.
#[derive(Debug, Clone, Copy, PartialEq, Eq, Structural, Hash)]
pub struct ClientAddr {
    pub ip: u32,
    pub port: u16,
}

/// A client-supplied operation; `client` is where the leader replies.
#[derive(Debug, Eq, Hash)]
pub struct Command {
    pub client: ClientAddr,
    pub op_id: usize,
    pub op: String,
}

impl Clone for Command {
    fn clone(&self) -> (r: Command)
        ensures
            r == *self,
    {
        Command { client: self.client, op_id: self.op_id, op: self.op.clone() }
    }
}

impl PartialEq for Command {
    fn eq(&self, other: &Command) -> (r: bool) {
        self.client == other.client && self.op_id == other.op_id && self.op == other.op
    }
}

impl vstd::std_specs::cmp::PartialEqSpecImpl for Command {
    open spec fn obeys_eq_spec() -> bool {
        true
    }

    open spec fn eq_spec(&self, other: &Command) -> bool {
        self.client == other.client && self.op_id == other.op_id && self.op@ == other.op@
    }
}

/// One log entry: the term it was created in and its command. Entry 0 is a
/// sentinel carrying no command.
#[derive(Debug, Eq, Hash)]
pub struct Log {
    pub term: usize,
    pub command: Option<Command>,
}

impl Clone for Log {
    fn clone(&self) -> (r: Log)
        ensures
            r == *self,
    {
        Log {
            term: self.term,
            command: match &self.command {
                Some(c) => Some(c.clone()),
                None => None,
            },
        }
    }
}

impl PartialEq for Log {
    fn eq(&self, other: &Log) -> (r: bool) {
        self.term == other.term && match (&self.command, &other.command) {
            (Some(a), Some(b)) => a == b,
            (None, None) => true,
            _ => false,
        }
    }
}

impl vstd::std_specs::cmp::PartialEqSpecImpl for Log {
    open spec fn obeys_eq_spec() -> bool {
        true
    }

    open spec fn eq_spec(&self, other: &Log) -> bool {
        self.term == other.term && match (self.command, other.command) {
            (Some(a), Some(b)) => a.client == b.client && a.op_id == b.op_id && a.op@ == b.op@,
            (None, None) => true,
            _ => false,
        }
    }
}

/// A success/failure reply from one server to another.
#[derive(Debug, Clone, Copy, PartialEq, Eq, Structural, Hash)]
pub struct Reply {
    /// The replying server.
    pub from: usize,
    /// Whether the vote was granted or the heartbeat accepted.
    pub success: bool,
    /// The replier's current term.
    pub term: usize,
}

/// The fixed header of a heartbeat/replication message.
#[derive(Debug, Clone, Copy, PartialEq, Eq, Structural)]
pub struct Heartbeat {
    pub term: usize,
    pub leader_id: usize,
    pub prev_log_index: usize,
    pub prev_log_term: usize,
    pub leader_commit: usize,
}

/// A heartbeat together with the log suffix to splice in: pairs of
/// `(index, entry)`.
#[derive(Debug)]
pub struct Replicate {
    pub hb: Heartbeat,
    pub entries: Vec<(usize, Log)>,
}

/// A candidate's request for votes.
#[derive(Debug, Clone, Copy, PartialEq, Eq, Structural)]
pub struct Campaign {
    pub term: usize,
    pub candidate_id: usize,
    pub last_log_index: usize,
    pub last_log_term: usize,
}

/// The tagged message protocol of the Raft stack.
#[derive(Debug)]
pub enum Message {
    Request(Command),
    Response(Command),
    Heartbeat(Replicate),
    Campaign(Campaign),
    ServerReply(Reply),
}

/// The two timers that drive a server.
#[derive(Debug, Clone, Copy, PartialEq, Eq, Structural)]
pub enum Timer {
    /// The periodic tick on which a leader sends heartbeats.
    Heartbeat,
    /// The randomized timeout on which a follower starts an election.
    Election,
}

} // verus!
