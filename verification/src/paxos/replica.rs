//! The Paxos replica: client-facing role that pipelines requests into
//! proposal slots bounded by a sliding window, tracks decisions, applies
//! decided commands to the state machine and answers the owning clients.

use vstd::prelude::*;
use crate::paxos::store::{client_dir_contents, decision_contents, ClientDir, DecisionStore};
use crate::paxos::{ClientRequest, Command, Message};
use crate::slotmap::SlotMap;
use crate::ReplicaState;

verus! {

/// The sliding window: how many slots may be proposed beyond the last
/// applied one.
pub const WINDOW: usize = 32;

/// Upper bound on usable slot numbers. A machine limit, so that slot
/// arithmetic stays inside `usize` on every platform; a decision for a
/// slot at or beyond it is discarded at the network boundary.
pub const SLOT_LIMIT: usize = 0x1000_0000;

/// The tagged form of a per-operation command: the operation is data,
/// interpreted by the state machine's single apply function, rather than a
/// boxed closure.
#[derive(Debug, Clone, Copy, PartialEq, Eq, Structural, Hash)]
pub struct Op {
    /// The client that asked for the operation.
    pub client_id: usize,
    /// The client's sequence number for it.
    pub op_id: usize,
}

/// Structural equality of commands, with the operation compared by content.
pub open spec fn cmd_eq(a: Command, b: Command) -> bool {
    a.client_id == b.client_id && a.op_id == b.op_id && a.op@ == b.op@
}

/// `m` is the reply a replica owes for the decided command `c`.
pub open spec fn is_response_to(m: Message, c: Command) -> bool {
    &&& m matches Message::Response(op_id, meta, res)
    &&& op_id == c.op_id
    &&& meta@ == "Hello there"@
    &&& res == Result::<String, String>::Ok(c.op)
}

/// What messages a replica sends where.
#[derive(Debug)]
pub enum Outbound {
    /// Broadcast to every leader.
    Leaders(Message),
    /// Send to the client behind this address token.
    Client(u64, Message),
}

/// `o` answers command `c` at the client behind token `a`.
pub open spec fn is_client_send(o: Outbound, a: u64, c: Command) -> bool {
    o matches Outbound::Client(addr, m) && addr == a && is_response_to(m, c)
}

/// The outcome of the proposing loop.
pub ghost struct ProposeOut {
    pub slot_in: int,
    pub requests: Seq<Command>,
    pub proposals: Map<int, Command>,
    pub msgs: Seq<Message>,
}

/// The proposing loop: while the window is open and requests remain, take
/// the most recent request, record it at the next free slot and emit a
/// `Propose` for it; slots already decided are skipped but consumed.
pub open spec fn propose_rec(
    slot_in: int,
    bound: int,
    requests: Seq<Command>,
    props: Map<int, Command>,
    decided: Map<int, Command>,
) -> ProposeOut
    decreases bound - slot_in,
{
    if slot_in >= bound || requests.len() == 0 {
        ProposeOut { slot_in, requests, proposals: props, msgs: Seq::empty() }
    } else if decided.contains_key(slot_in) {
        propose_rec(slot_in + 1, bound, requests, props, decided)
    } else {
        let c = requests.last();
        let rest = propose_rec(
            slot_in + 1,
            bound,
            requests.drop_last(),
            props.insert(slot_in, c),
            decided,
        );
        ProposeOut {
            slot_in: rest.slot_in,
            requests: rest.requests,
            proposals: rest.proposals,
            msgs: seq![Message::Propose(slot_in as usize, c)] + rest.msgs,
        }
    }
}

/// The outcome of the decision-draining loop.
pub ghost struct DrainOut {
    pub slot_out: int,
    pub requests: Seq<Command>,
    pub proposals: Map<int, Command>,
    /// The commands applied whose clients are known, with each client's
    /// address token, in application order.
    pub sends: Seq<(u64, Command)>,
}

/// The draining loop: while a decision exists for the next slot to apply,
/// re-enqueue any differing local proposal for that slot, apply the decided
/// command, answer its client if known, and move on.
///
/// A command decided at several slots is applied once per slot: the state
/// machine is not assumed idempotent, so there is deliberately no
/// deduplication of already-decided commands.
pub open spec fn drain_rec(
    slot_out: int,
    requests: Seq<Command>,
    props: Map<int, Command>,
    decided: Map<int, Command>,
    clients: Map<int, u64>,
) -> DrainOut
    decreases SLOT_LIMIT - slot_out,
{
    if slot_out < 0 || slot_out >= SLOT_LIMIT || !decided.contains_key(slot_out) {
        DrainOut { slot_out, requests, proposals: props, sends: Seq::empty() }
    } else {
        let c1 = decided[slot_out];
        let requests1 = if props.contains_key(slot_out) && !cmd_eq(props[slot_out], c1) {
            requests.push(props[slot_out])
        } else {
            requests
        };
        let props1 = props.remove(slot_out);
        let rest = drain_rec(slot_out + 1, requests1, props1, decided, clients);
        let sends = if clients.contains_key(c1.client_id as int) {
            seq![(clients[c1.client_id as int], c1)] + rest.sends
        } else {
            rest.sends
        };
        DrainOut {
            slot_out: rest.slot_out,
            requests: rest.requests,
            proposals: rest.proposals,
            sends,
        }
    }
}

/// Replica state: the sliding proposal window, the settled decisions, the
/// state machine value and the clients that can still be answered. Slots
/// are 0-indexed throughout: `slot_in` and `slot_out` both start at 0.
pub struct Replica {
    /// Unique among all replicas.
    pub id: usize,
    /// The state machine's current value.
    pub state: ReplicaState,
    /// The next slot to propose into.
    pub slot_in: usize,
    /// The next slot to apply.
    pub slot_out: usize,
    /// Client commands not yet proposed, most recent last.
    pub requests: Vec<Command>,
    /// Proposed but undecided commands, by slot.
    pub proposals: SlotMap<Command>,
    /// The settled decisions, by slot.
    pub decisions: DecisionStore,
    /// Who to answer for each client id; the first writer wins.
    pub clients: ClientDir,
}

impl Replica {
    /// Well-formedness: the window bound (`slot_in` never runs more than
    /// `WINDOW` slots past `slot_out`) and the machine limit on slots.
    pub open spec fn wf(&self) -> bool {
        &&& self.proposals.wf()
        &&& self.slot_in <= self.slot_out + WINDOW
        &&& self.slot_out <= SLOT_LIMIT
        &&& forall|k: int|
            decision_contents(self.decisions).contains_key(k) ==> 0 <= k < SLOT_LIMIT
    }

    pub fn new(id: usize) -> (r: Replica)
        ensures
            r.wf(),
            r.id == id,
            r.state == (ReplicaState { n: 0 }),
            r.slot_in == 0,
            r.slot_out == 0,
            r.requests@ == Seq::<Command>::empty(),
            r.proposals@ == (Map::<int, Command>::empty()),
            decision_contents(r.decisions) == (Map::<int, Command>::empty()),
            client_dir_contents(r.clients) == (Map::<int, u64>::empty()),
    {
        Replica {
            id,
            state: ReplicaState::default(),
            slot_in: 0,
            slot_out: 0,
            requests: Vec::new(),
            proposals: SlotMap::new(),
            decisions: DecisionStore::new(),
            clients: ClientDir::new(),
        }
    }

    /// Move waiting requests into open window slots and emit a `Propose`
    /// for each, to be broadcast to every leader. On return either the
    /// window is full or no request waits.
    #[verifier::loop_isolation(false)]
    pub fn propose(&mut self) -> (r: Vec<Outbound>)
        requires
            old(self).wf(),
        ensures
            final(self).wf(),
            final(self).id == old(self).id,
            final(self).state == old(self).state,
            final(self).slot_out == old(self).slot_out,
            final(self).decisions == old(self).decisions,
            final(self).clients == old(self).clients,
            ({
                let o = propose_rec(
                    old(self).slot_in as int,
                    old(self).slot_out + WINDOW,
                    old(self).requests@,
                    old(self).proposals@,
                    decision_contents(old(self).decisions),
                );
                &&& final(self).slot_in == o.slot_in
                &&& final(self).requests@ == o.requests
                &&& final(self).proposals@ == o.proposals
                &&& r@.len() == o.msgs.len()
                &&& forall|i: int|
                    0 <= i < o.msgs.len() ==> r@[i] == Outbound::Leaders(#[trigger] o.msgs[i])
            }),
            final(self).requests@.len() == 0 || final(self).slot_in == old(self).slot_out
                + WINDOW,
    {
        let bound = self.slot_out + WINDOW;
        let mut out: Vec<Outbound> = Vec::new();
        let ghost msgs_done: Seq<Message> = Seq::empty();
        let mut msgs_done = Ghost(msgs_done);
        proof {
            assert(Seq::<Message>::empty() + propose_rec(
                self.slot_in as int,
                bound as int,
                self.requests@,
                self.proposals@,
                decision_contents(self.decisions),
            ).msgs =~= propose_rec(
                self.slot_in as int,
                bound as int,
                self.requests@,
                self.proposals@,
                decision_contents(self.decisions),
            ).msgs);
        }
        while self.slot_in < bound && self.requests.len() > 0
            invariant
                self.wf(),
                self.id == old(self).id,
                self.state == old(self).state,
                self.slot_out == old(self).slot_out,
                self.decisions == old(self).decisions,
                self.clients == old(self).clients,
                self.slot_in <= bound,
                out@.len() == msgs_done@.len(),
                forall|i: int|
                    0 <= i < msgs_done@.len() ==> out@[i] == Outbound::Leaders(
                        #[trigger] msgs_done@[i],
                    ),
                ({
                    let o0 = propose_rec(
                        old(self).slot_in as int,
                        bound as int,
                        old(self).requests@,
                        old(self).proposals@,
                        decision_contents(old(self).decisions),
                    );
                    let o = propose_rec(
                        self.slot_in as int,
                        bound as int,
                        self.requests@,
                        self.proposals@,
                        decision_contents(self.decisions),
                    );
                    &&& o0.slot_in == o.slot_in
                    &&& o0.requests == o.requests
                    &&& o0.proposals == o.proposals
                    &&& o0.msgs == msgs_done@ + o.msgs
                }),
            decreases bound - self.slot_in,
        {
            let slot = self.slot_in;
            let has_decision = match self.decisions.get(slot) {
                Some(_) => true,
                None => false,
            };
            if !has_decision {
                let c = match self.requests.pop() {
                    Some(c) => c,
                    None => unreached(),
                };
                self.proposals.insert(slot, c.clone());
                let msg = Message::Propose(slot, c);
                proof {
                    let o_mid = propose_rec(
                        slot + 1,
                        bound as int,
                        self.requests@,
                        self.proposals@,
                        decision_contents(self.decisions),
                    );
                    assert(msgs_done@ + (seq![msg] + o_mid.msgs) =~= msgs_done@.push(msg)
                        + o_mid.msgs);
                    msgs_done@ = msgs_done@.push(msg);
                }
                out.push(Outbound::Leaders(msg));
            }
            self.slot_in = slot + 1;
        }
        proof {
            assert(msgs_done@ + Seq::<Message>::empty() =~= msgs_done@);
        }
        out
    }

    /// Apply one decided command to the state machine, advance `slot_out`,
    /// and produce the reply for its client if the client is known. A
    /// command whose client is unknown is applied without a reply.
    pub fn perform(&mut self, op: Command) -> (r: Option<(u64, Message)>)
        requires
            old(self).wf(),
            old(self).slot_out < SLOT_LIMIT,
        ensures
            final(self).wf(),
            final(self).id == old(self).id,
            final(self).state == old(self).state,
            final(self).slot_in == old(self).slot_in,
            final(self).slot_out == old(self).slot_out + 1,
            final(self).requests == old(self).requests,
            final(self).proposals == old(self).proposals,
            final(self).decisions == old(self).decisions,
            final(self).clients == old(self).clients,
            match r {
                Some((a, m)) => {
                    &&& client_dir_contents(old(self).clients).contains_key(op.client_id as int)
                    &&& a == client_dir_contents(old(self).clients)[op.client_id as int]
                    &&& is_response_to(m, op)
                },
                None => !client_dir_contents(old(self).clients).contains_key(
                    op.client_id as int,
                ),
            },
    {
        let addr = self.clients.get(op.client_id);
        let (state, res) = ReplicaState::triv(&self.state, op.op.clone());
        self.state = state;
        self.slot_out = self.slot_out + 1;
        match addr {
            Some(a) => Some((a, Message::Response(op.op_id, "Hello there".to_owned(), res))),
            None => None,
        }
    }

    /// A client's `Request`: remember who to answer (first writer wins per
    /// client id), queue the command, and propose into the open window.
    pub fn handle_request(&mut self, req: ClientRequest, addr: u64) -> (r: Vec<Outbound>)
        requires
            old(self).wf(),
        ensures
            final(self).wf(),
            final(self).id == old(self).id,
            final(self).state == old(self).state,
            final(self).slot_out == old(self).slot_out,
            final(self).decisions == old(self).decisions,
            client_dir_contents(final(self).clients) == if client_dir_contents(
                old(self).clients,
            ).contains_key(req.client_id as int) {
                client_dir_contents(old(self).clients)
            } else {
                client_dir_contents(old(self).clients).insert(req.client_id as int, addr)
            },
            ({
                let cmd = Command { client_id: req.client_id, op_id: req.op_id, op: req.op };
                let o = propose_rec(
                    old(self).slot_in as int,
                    old(self).slot_out + WINDOW,
                    old(self).requests@.push(cmd),
                    old(self).proposals@,
                    decision_contents(old(self).decisions),
                );
                &&& final(self).slot_in == o.slot_in
                &&& final(self).requests@ == o.requests
                &&& final(self).proposals@ == o.proposals
                &&& r@.len() == o.msgs.len()
                &&& forall|i: int|
                    0 <= i < o.msgs.len() ==> r@[i] == Outbound::Leaders(#[trigger] o.msgs[i])
            }),
    {
        self.clients.try_insert(req.client_id, addr);
        let cmd = req.to_command();
        self.requests.push(cmd);
        self.propose()
    }

    /// A `Decision(slot, command)`: record it, drain contiguously settled
    /// slots from `slot_out` — re-enqueueing any differing local proposals
    /// and answering known clients — then refill the window. The replies
    /// come first in the result, then the new `Propose` broadcasts.
    pub fn handle_decision(&mut self, slot: usize, command: Command) -> (r: Vec<Outbound>)
        requires
            old(self).wf(),
            slot < SLOT_LIMIT,
        ensures
            final(self).wf(),
            final(self).id == old(self).id,
            final(self).state == old(self).state,
            final(self).clients == old(self).clients,
            decision_contents(final(self).decisions) == decision_contents(
                old(self).decisions,
            ).insert(slot as int, command),
            ({
                let decided = decision_contents(old(self).decisions).insert(slot as int, command);
                let d = drain_rec(
                    old(self).slot_out as int,
                    old(self).requests@,
                    old(self).proposals@,
                    decided,
                    client_dir_contents(old(self).clients),
                );
                let p = propose_rec(
                    old(self).slot_in as int,
                    d.slot_out + WINDOW,
                    d.requests,
                    d.proposals,
                    decided,
                );
                &&& final(self).slot_out == d.slot_out
                &&& final(self).slot_in == p.slot_in
                &&& final(self).requests@ == p.requests
                &&& final(self).proposals@ == p.proposals
                &&& r@.len() == d.sends.len() + p.msgs.len()
                &&& forall|i: int|
                    0 <= i < d.sends.len() ==> is_client_send(
                        #[trigger] r@[i],
                        d.sends[i].0,
                        d.sends[i].1,
                    )
                &&& forall|i: int|
                    0 <= i < p.msgs.len() ==> r@[d.sends.len() + i] == Outbound::Leaders(
                        #[trigger] p.msgs[i],
                    )
            }),
    {
        self.decisions.insert(slot, command);
        let ghost decided = decision_contents(self.decisions);
        let mut out: Vec<Outbound> = Vec::new();
        let ghost sends_done: Seq<(u64, Command)> = Seq::empty();
        let mut sends_done = Ghost(sends_done);
        proof {
            assert(Seq::<(u64, Command)>::empty() + drain_rec(
                self.slot_out as int,
                self.requests@,
                self.proposals@,
                decided,
                client_dir_contents(self.clients),
            ).sends =~= drain_rec(
                self.slot_out as int,
                self.requests@,
                self.proposals@,
                decided,
                client_dir_contents(self.clients),
            ).sends);
        }
        loop
            invariant
                self.wf(),
                self.id == old(self).id,
                self.state == old(self).state,
                self.slot_in == old(self).slot_in,
                self.clients == old(self).clients,
                decision_contents(self.decisions) == decided,
                out@.len() == sends_done@.len(),
                forall|i: int|
                    0 <= i < sends_done@.len() ==> is_client_send(
                        #[trigger] out@[i],
                        sends_done@[i].0,
                        sends_done@[i].1,
                    ),
                ({
                    let d0 = drain_rec(
                        old(self).slot_out as int,
                        old(self).requests@,
                        old(self).proposals@,
                        decided,
                        client_dir_contents(old(self).clients),
                    );
                    let d = drain_rec(
                        self.slot_out as int,
                        self.requests@,
                        self.proposals@,
                        decided,
                        client_dir_contents(self.clients),
                    );
                    &&& d0.slot_out == d.slot_out
                    &&& d0.requests == d.requests
                    &&& d0.proposals == d.proposals
                    &&& d0.sends == sends_done@ + d.sends
                }),
            ensures
                self.wf(),
                self.id == old(self).id,
                self.state == old(self).state,
                self.slot_in == old(self).slot_in,
                self.clients == old(self).clients,
                decision_contents(self.decisions) == decided,
                out@.len() == sends_done@.len(),
                forall|i: int|
                    0 <= i < sends_done@.len() ==> is_client_send(
                        #[trigger] out@[i],
                        sends_done@[i].0,
                        sends_done@[i].1,
                    ),
                !decided.contains_key(self.slot_out as int),
                ({
                    let d0 = drain_rec(
                        old(self).slot_out as int,
                        old(self).requests@,
                        old(self).proposals@,
                        decided,
                        client_dir_contents(old(self).clients),
                    );
                    &&& d0.slot_out == self.slot_out
                    &&& d0.requests == self.requests@
                    &&& d0.proposals == self.proposals@
                    &&& d0.sends == sends_done@
                }),
            decreases SLOT_LIMIT - self.slot_out,
        {
            let c1 = match self.decisions.get(self.slot_out) {
                Some(c1) => c1,
                None => {
                    proof {
                        assert(sends_done@ + Seq::<(u64, Command)>::empty() =~= sends_done@);
                    }
                    break;
                },
            };
            match self.proposals.remove(self.slot_out) {
                Some(c2) => {
                    if !(c2 == c1) {
                        self.requests.push(c2);
                    }
                },
                None => {},
            }
            let ghost mid_requests = self.requests@;
            let ghost mid_proposals = self.proposals@;
            let resp = self.perform(c1);
            proof {
                let d_next = drain_rec(
                    self.slot_out as int,
                    mid_requests,
                    mid_proposals,
                    decided,
                    client_dir_contents(self.clients),
                );
                if client_dir_contents(self.clients).contains_key(c1.client_id as int) {
                    let a = client_dir_contents(self.clients)[c1.client_id as int];
                    assert(sends_done@ + (seq![(a, c1)] + d_next.sends) =~= sends_done@.push(
                        (a, c1),
                    ) + d_next.sends);
                    sends_done@ = sends_done@.push((a, c1));
                }
            }
            match resp {
                Some((a, m)) => out.push(Outbound::Client(a, m)),
                None => {},
            }
        }
        let mut msgs = self.propose();
        let ghost n_sends = sends_done@.len() as int;
        let ghost n_msgs = msgs@.len() as int;
        out.append(&mut msgs);
        proof {
            assert(out@.len() == n_sends + n_msgs);
        }
        out
    }
}

} // verus!
