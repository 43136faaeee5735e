//! The Raft server: one finite-state machine combining the follower,
//! candidate and leader roles, the replicated log, and per-peer replication
//! progress. Each handler consumes one decoded message or timer event and
//! returns the messages to send and which timers to re-arm, so the
//! surrounding event loop stays thin.

use vstd::prelude::*;
use crate::raft::store::{peer_index_contents, PeerIndexMap};
use crate::raft::{Campaign, ClientAddr, Command, Heartbeat, Log, Message, Replicate, Reply, Timer};
use crate::ReplicaState;

verus! {

/// Upper bound on the log length. A machine limit, so that index
/// arithmetic stays inside `usize` on every platform; a heartbeat that
/// would push the log past it is discarded at the network boundary.
pub const LOG_LIMIT: usize = 0x1000_0000;

/// The three roles a server can be in; a candidate carries its vote count.
#[derive(Debug, Clone, Copy, PartialEq, Eq, Structural)]
pub enum ServerState {
    Follower,
    Candidate(usize),
    Leader,
}

/// Where a server sends a message.
#[derive(Debug)]
pub enum Outbound {
    /// To the peer with this id.
    Peer(usize, Message),
    /// Back to whoever sent the message being handled.
    Sender(Message),
    /// To the client at this address.
    Client(ClientAddr, Message),
}

/// What one handled event asks the event loop to do.
pub struct Effects {
    /// The messages to send, in order.
    pub sends: Vec<Outbound>,
    /// Re-arm the randomized election timeout.
    pub reset_election: bool,
    /// Re-arm the periodic heartbeat tick.
    pub reset_heartbeat: bool,
}

/// `sends` is one per-peer replication message as `decree` builds them:
/// peer `j` gets the log suffix starting just below its `next_index`.
pub open spec fn is_decree_msgs(s: Server, sends: Seq<Outbound>) -> bool {
    &&& sends.len() == s.peers@.len()
    &&& forall|j: int|
        #![trigger sends[j]]
        0 <= j < sends.len() ==> {
            let p = s.peers@[j] as int;
            let start = peer_index_contents(s.next_index)[p] - 1;
            ({
                &&& sends[j] matches Outbound::Peer(pid, m)
                &&& pid == s.peers@[j]
                &&& m matches Message::Heartbeat(rep)
                &&& rep.hb == (Heartbeat {
                    term: s.current_term,
                    leader_id: s.id,
                    prev_log_index: start as usize,
                    prev_log_term: s.log@[start].term,
                    leader_commit: s.commit_index,
                })
                &&& rep.entries@.len() == s.log@.len() - start
                &&& forall|t: int|
                    0 <= t < rep.entries@.len() ==> #[trigger] rep.entries@[t] == (
                    (start + t) as usize,
                    s.log@[start + t],
                    )
            })
        }
}

/// `sends` carries the empty heartbeat `hb` to every peer, in peer order.
pub open spec fn is_heartbeat_broadcast(peers: Seq<usize>, hb: Heartbeat, sends: Seq<Outbound>) -> bool {
    &&& sends.len() == peers.len()
    &&& forall|j: int|
        #![trigger sends[j]]
        0 <= j < sends.len() ==> ({
            &&& sends[j] matches Outbound::Peer(pid, m)
            &&& pid == peers[j]
            &&& m matches Message::Heartbeat(rep)
            &&& rep.hb == hb
            &&& rep.entries@.len() == 0
        })
}

/// How many of the peers have replicated at least up to index `i`.
pub open spec fn count_matching(contents: Map<int, int>, peers: Seq<usize>, i: int) -> int
    decreases peers.len(),
{
    if peers.len() == 0 {
        0
    } else {
        count_matching(contents, peers.drop_last(), i) + if contents.contains_key(
            peers.last() as int,
        ) && contents[peers.last() as int] >= i {
            1int
        } else {
            0int
        }
    }
}

/// The commit index after scanning from `i` down to just above `commit`:
/// the highest index replicated to a strict majority (the leader itself
/// included), or `commit` if none is.
pub open spec fn highest_commit(
    contents: Map<int, int>,
    peers: Seq<usize>,
    commit: int,
    i: int,
) -> int
    decreases i - commit,
{
    if i <= commit {
        commit
    } else if 1 + count_matching(contents, peers, i) > (peers.len() + 1) / 2 {
        i
    } else {
        highest_commit(contents, peers, commit, i - 1)
    }
}

/// The replies owed for applying log entries `lo..=hi`: one per command
/// applied, and only a leader answers clients.
pub open spec fn perform_sends(log: Seq<Log>, lo: int, hi: int, leader: bool) -> Seq<
    (ClientAddr, Command),
>
    decreases hi - lo + 1,
{
    if lo > hi {
        Seq::empty()
    } else {
        let rest = perform_sends(log, lo + 1, hi, leader);
        if leader && log[lo].command is Some {
            seq![((log[lo].command)->Some_0.client, (log[lo].command)->Some_0)] + rest
        } else {
            rest
        }
    }
}

/// The log after splicing in replicated entries: overwrite at an index the
/// log already covers, append otherwise.
pub open spec fn splice(log: Seq<Log>, entries: Seq<(usize, Log)>) -> Seq<Log>
    decreases entries.len(),
{
    if entries.len() == 0 {
        log
    } else {
        let e = entries[0];
        let log1 = if e.0 < log.len() {
            log.update(e.0 as int, e.1)
        } else {
            log.push(e.1)
        };
        splice(log1, entries.skip(1))
    }
}

/// Splicing never shrinks the log and adds at most one entry per pair.
pub proof fn lemma_splice_len(log: Seq<Log>, entries: Seq<(usize, Log)>)
    ensures
        log.len() <= splice(log, entries).len() <= log.len() + entries.len(),
    decreases entries.len(),
{
    if entries.len() != 0 {
        let e = entries[0];
        let log1 = if e.0 < log.len() {
            log.update(e.0 as int, e.1)
        } else {
            log.push(e.1)
        };
        lemma_splice_len(log1, entries.skip(1));
    }
}

/// Splicing one more entry extends the already-spliced log by one step.
pub proof fn lemma_splice_snoc(log: Seq<Log>, es: Seq<(usize, Log)>, e: (usize, Log))
    ensures
        splice(log, es.push(e)) == ({
            let l1 = splice(log, es);
            if e.0 < l1.len() {
                l1.update(e.0 as int, e.1)
            } else {
                l1.push(e.1)
            }
        }),
    decreases es.len(),
{
    if es.len() == 0 {
        assert(es.push(e)[0] == e);
        assert(es.push(e).skip(1) =~= Seq::<(usize, Log)>::empty());
        let l1 = if e.0 < log.len() {
            log.update(e.0 as int, e.1)
        } else {
            log.push(e.1)
        };
        assert(splice(log, es.push(e)) == splice(l1, Seq::<(usize, Log)>::empty()));
        assert(splice(l1, Seq::<(usize, Log)>::empty()) == l1);
        assert(splice(log, es) == log);
    } else {
        assert(es.push(e)[0] == es[0]);
        assert(es.push(e).skip(1) =~= es.skip(1).push(e));
        let log1 = if es[0].0 < log.len() {
            log.update(es[0].0 as int, es[0].1)
        } else {
            log.push(es[0].1)
        };
        lemma_splice_snoc(log1, es.skip(1), e);
    }
}

/// Only a leader owes replies: applying as any other role sends nothing.
pub proof fn lemma_perform_sends_follower(log: Seq<Log>, lo: int, hi: int)
    ensures
        perform_sends(log, lo, hi, false) == Seq::<(ClientAddr, Command)>::empty(),
    decreases hi - lo + 1,
{
    if lo <= hi {
        lemma_perform_sends_follower(log, lo + 1, hi);
    }
}

/// The recomputed commit index never moves down and never passes the scan
/// start.
pub proof fn lemma_highest_commit_bounds(
    contents: Map<int, int>,
    peers: Seq<usize>,
    commit: int,
    i: int,
)
    ensures
        commit <= highest_commit(contents, peers, commit, i),
        highest_commit(contents, peers, commit, i) <= if i > commit {
            i
        } else {
            commit
        },
    decreases i - commit,
{
    if i > commit && !(1 + count_matching(contents, peers, i) > (peers.len() + 1) / 2) {
        lemma_highest_commit_bounds(contents, peers, commit, i - 1);
    }
}

/// The condition under which a server grants its vote to campaign `c`:
/// the candidate's term must not be older; the term must be newer or the
/// candidate's log at least as long; and the server must not yet have
/// voted in this term for anyone else.
pub open spec fn grants(pre: Server, c: Campaign) -> bool {
    &&& c.term >= pre.current_term
    &&& (c.term > pre.current_term || c.last_log_index + 1 >= pre.log@.len())
    &&& (pre.voted_for is None || pre.voted_for == Some(c.candidate_id))
}

/// Vote safety: a server grants at most one vote per term, except repeated
/// grants to the same candidate. Granting records the candidate and the
/// term (as `handle_campaign` ensures), so a second grant at the same term
/// can only go to the same candidate.
pub proof fn lemma_vote_safety(s1: Server, c1: Campaign, c2: Campaign)
    requires
        s1.voted_for == Some(c1.candidate_id),
        s1.current_term == c1.term,
        grants(s1, c2),
        c2.term == c1.term,
    ensures
        c2.candidate_id == c1.candidate_id,
{
}

/// Term monotonicity: each handler ensures its new term is at least its
/// old one, so along any chain of handled events the term never decreases.
pub proof fn lemma_term_chain(terms: Seq<int>)
    requires
        forall|i: int| 0 <= i < terms.len() - 1 ==> #[trigger] terms[i] <= terms[i + 1],
    ensures
        forall|i: int, j: int| 0 <= i <= j < terms.len() ==> terms[i] <= terms[j],
    decreases terms.len(),
{
    if terms.len() > 1 {
        lemma_term_chain(terms.drop_last());
        assert forall|i: int, j: int|
            0 <= i <= j < terms.len() implies terms[i] <= terms[j] by {
            if j < terms.len() - 1 {
                assert(terms.drop_last()[i] == terms[i] && terms.drop_last()[j] == terms[j]);
            } else if i < j {
                assert(terms.drop_last()[i] == terms[i]);
                assert(terms.drop_last()[j - 1] == terms[j - 1]);
                assert(terms[j - 1] <= terms[j]);
            }
        }
    }
}

/// Raft server state.
pub struct Server {
    /// Unique among all servers.
    pub id: usize,
    /// The current role.
    pub state: ServerState,
    /// The replicated state machine's value.
    pub rst: ReplicaState,
    /// The current term; never decreases.
    pub current_term: usize,
    /// Who this server voted for, or recognizes as leader, in this term.
    pub voted_for: Option<usize>,
    /// The replicated log; entry 0 is a sentinel.
    pub log: Vec<Log>,
    /// Index of the highest committed entry.
    pub commit_index: usize,
    /// Index of the highest applied entry.
    pub last_applied: usize,
    /// Per peer: index of the next log entry to send it (leader only).
    pub next_index: PeerIndexMap,
    /// Per peer: index of the highest entry known replicated there.
    pub match_index: PeerIndexMap,
    /// The other servers' ids.
    pub peers: Vec<usize>,
    /// Client requests waiting until a leader is known.
    pub pending: Vec<Command>,
}

impl Server {
    /// Well-formedness: the sentinel log shape, commit/apply ordering,
    /// per-peer progress entries for every peer, and the machine limits.
    pub open spec fn wf(&self) -> bool {
        &&& 1 <= self.log@.len() <= LOG_LIMIT
        &&& self.commit_index < self.log@.len()
        &&& self.last_applied <= self.commit_index
        &&& self.peers@.len() < 0x4000_0000
        &&& forall|i: int, j: int|
            0 <= i < j < self.peers@.len() ==> #[trigger] self.peers@[i] != #[trigger] self.peers@[j]
        &&& forall|i: int|
            0 <= i < self.peers@.len() ==> peer_index_contents(self.next_index).contains_key(
                #[trigger] self.peers@[i] as int,
            ) && 1 <= peer_index_contents(self.next_index)[self.peers@[i] as int] <= self.log@.len()
        &&& forall|i: int|
            0 <= i < self.peers@.len() ==> peer_index_contents(self.match_index).contains_key(
                #[trigger] self.peers@[i] as int,
            )
        &&& (self.state matches ServerState::Candidate(v) ==> 1 <= v <= self.peers@.len() + 1)
    }

    /// A fresh server: follower at term 0, a one-entry sentinel log, every
    /// peer's `next_index` at 1 and `match_index` at 0. The event loop
    /// arms both timers right after construction.
    #[verifier::loop_isolation(false)]
    pub fn new(id: usize, peers: Vec<usize>) -> (r: Server)
        requires
            peers@.len() < 0x4000_0000,
            forall|i: int, j: int|
                0 <= i < j < peers@.len() ==> #[trigger] peers@[i] != #[trigger] peers@[j],
        ensures
            r.wf(),
            r.id == id,
            r.state == ServerState::Follower,
            r.rst == (ReplicaState { n: 0 }),
            r.current_term == 0,
            r.voted_for is None,
            r.log@.len() == 1,
            r.log@[0].term == 0,
            r.log@[0].command is None,
            r.commit_index == 0,
            r.last_applied == 0,
            r.peers == peers,
            r.pending@ == Seq::<Command>::empty(),
            forall|i: int|
                0 <= i < peers@.len() ==> peer_index_contents(r.next_index).contains_key(
                    #[trigger] peers@[i] as int,
                ) && peer_index_contents(r.next_index)[peers@[i] as int] == 1,
            forall|i: int|
                0 <= i < peers@.len() ==> peer_index_contents(r.match_index).contains_key(
                    #[trigger] peers@[i] as int,
                ) && peer_index_contents(r.match_index)[peers@[i] as int] == 0,
    {
        let mut next_index = PeerIndexMap::new();
        let mut match_index = PeerIndexMap::new();
        let n = peers.len();
        let mut i: usize = 0;
        while i < n
            invariant
                i <= n,
                forall|j: int|
                    0 <= j < i ==> peer_index_contents(next_index).contains_key(
                        #[trigger] peers@[j] as int,
                    ) && peer_index_contents(next_index)[peers@[j] as int] == 1,
                forall|j: int|
                    0 <= j < i ==> peer_index_contents(match_index).contains_key(
                        #[trigger] peers@[j] as int,
                    ) && peer_index_contents(match_index)[peers@[j] as int] == 0,
            decreases n - i,
        {
            next_index.insert(peers[i], 1);
            match_index.insert(peers[i], 0);
            i = i + 1;
        }
        let mut log: Vec<Log> = Vec::new();
        log.push(Log { term: 0, command: None });
        Server {
            id,
            state: ServerState::Follower,
            rst: ReplicaState::default(),
            current_term: 0,
            voted_for: None,
            log,
            commit_index: 0,
            last_applied: 0,
            next_index,
            match_index,
            peers,
            pending: Vec::new(),
        }
    }

    /// The empty heartbeat a leader broadcasts to every peer.
    pub fn empty_decree(&self) -> (r: Replicate)
        requires
            self.wf(),
        ensures
            r.hb == (Heartbeat {
                term: self.current_term,
                leader_id: self.id,
                prev_log_index: (self.log@.len() - 1) as usize,
                prev_log_term: self.log@.last().term,
                leader_commit: self.commit_index,
            }),
            r.entries@ == Seq::<(usize, Log)>::empty(),
    {
        let n = self.log.len();
        Replicate {
            hb: Heartbeat {
                term: self.current_term,
                leader_id: self.id,
                prev_log_index: n - 1,
                prev_log_term: self.log[n - 1].term,
                leader_commit: self.commit_index,
            },
            entries: Vec::new(),
        }
    }

    /// Per-peer replication messages: each peer gets the log suffix from
    /// just below its `next_index`, so a lagging follower can check the
    /// entry it already holds. The event loop re-arms the heartbeat tick
    /// after sending these.
    #[verifier::loop_isolation(false)]
    pub fn decree(&self) -> (r: Vec<Outbound>)
        requires
            self.wf(),
        ensures
            is_decree_msgs(*self, r@),
    {
        let mut out: Vec<Outbound> = Vec::new();
        let n = self.peers.len();
        let mut j: usize = 0;
        while j < n
            invariant
                j <= n,
                out@.len() == j,
                forall|q: int|
                    #![trigger out@[q]]
                    0 <= q < j ==> {
                        let p = self.peers@[q] as int;
                        let start = peer_index_contents(self.next_index)[p] - 1;
                        ({
                            &&& out@[q] matches Outbound::Peer(pid, m)
                            &&& pid == self.peers@[q]
                            &&& m matches Message::Heartbeat(rep)
                            &&& rep.hb == (Heartbeat {
                                term: self.current_term,
                                leader_id: self.id,
                                prev_log_index: start as usize,
                                prev_log_term: self.log@[start].term,
                                leader_commit: self.commit_index,
                            })
                            &&& rep.entries@.len() == self.log@.len() - start
                            &&& forall|t: int|
                                0 <= t < rep.entries@.len() ==> #[trigger] rep.entries@[t] == (
                                (start + t) as usize,
                                self.log@[start + t],
                                )
                        })
                    },
            decreases n - j,
        {
            let p = self.peers[j];
            let next = match self.next_index.get(p) {
                Some(v) => v,
                None => unreached(),
            };
            let start = next - 1;
            let mut entries: Vec<(usize, Log)> = Vec::new();
            let len = self.log.len();
            let mut t: usize = start;
            while t < len
                invariant
                    start <= t <= len,
                    entries@.len() == t - start,
                    forall|u: int|
                        0 <= u < entries@.len() ==> #[trigger] entries@[u] == (
                        (start + u) as usize,
                        self.log@[start + u],
                        ),
                decreases len - t,
            {
                entries.push((t, self.log[t].clone()));
                t = t + 1;
            }
            let rep = Replicate {
                hb: Heartbeat {
                    term: self.current_term,
                    leader_id: self.id,
                    prev_log_index: start,
                    prev_log_term: self.log[start].term,
                    leader_commit: self.commit_index,
                },
                entries,
            };
            out.push(Outbound::Peer(p, Message::Heartbeat(rep)));
            j = j + 1;
        }
        out
    }

    /// One copy of the empty heartbeat for every peer.
    #[verifier::loop_isolation(false)]
    fn broadcast_heartbeat(&self, hb: Heartbeat) -> (r: Vec<Outbound>)
        ensures
            is_heartbeat_broadcast(self.peers@, hb, r@),
    {
        let mut out: Vec<Outbound> = Vec::new();
        let n = self.peers.len();
        let mut j: usize = 0;
        while j < n
            invariant
                j <= n,
                out@.len() == j,
                forall|q: int|
                    #![trigger out@[q]]
                    0 <= q < j ==> ({
                        &&& out@[q] matches Outbound::Peer(pid, m)
                        &&& pid == self.peers@[q]
                        &&& m matches Message::Heartbeat(rep)
                        &&& rep.hb == hb
                        &&& rep.entries@.len() == 0
                    }),
            decreases n - j,
        {
            out.push(
                Outbound::Peer(
                    self.peers[j],
                    Message::Heartbeat(Replicate { hb, entries: Vec::new() }),
                ),
            );
            j = j + 1;
        }
        out
    }

    /// One copy of the campaign for every peer.
    #[verifier::loop_isolation(false)]
    fn broadcast_campaign(&self, cp: Campaign) -> (r: Vec<Outbound>)
        ensures
            r@.len() == self.peers@.len(),
            forall|j: int|
                0 <= j < r@.len() ==> #[trigger] r@[j] == Outbound::Peer(
                    self.peers@[j],
                    Message::Campaign(cp),
                ),
    {
        let mut out: Vec<Outbound> = Vec::new();
        let n = self.peers.len();
        let mut j: usize = 0;
        while j < n
            invariant
                j <= n,
                out@.len() == j,
                forall|q: int|
                    0 <= q < j ==> #[trigger] out@[q] == Outbound::Peer(
                        self.peers@[q],
                        Message::Campaign(cp),
                    ),
            decreases n - j,
        {
            out.push(Outbound::Peer(self.peers[j], Message::Campaign(cp)));
            j = j + 1;
        }
        out
    }

    /// Start an election: advance the term, vote for self, become a
    /// candidate with one vote, and return the campaign to broadcast. The
    /// event loop re-arms the election timeout.
    pub fn campaign(&mut self) -> (r: Campaign)
        requires
            old(self).wf(),
            old(self).current_term < usize::MAX,
        ensures
            final(self).wf(),
            final(self).current_term == old(self).current_term + 1,
            final(self).current_term >= old(self).current_term,
            final(self).voted_for == Some(old(self).id),
            final(self).state == ServerState::Candidate(1),
            final(self).id == old(self).id,
            final(self).log == old(self).log,
            final(self).commit_index == old(self).commit_index,
            final(self).last_applied == old(self).last_applied,
            final(self).peers == old(self).peers,
            final(self).pending == old(self).pending,
            final(self).rst == old(self).rst,
            final(self).next_index == old(self).next_index,
            final(self).match_index == old(self).match_index,
            r == (Campaign {
                term: (old(self).current_term + 1) as usize,
                candidate_id: old(self).id,
                last_log_index: (old(self).log@.len() - 1) as usize,
                last_log_term: old(self).log@.last().term,
            }),
    {
        self.current_term = self.current_term + 1;
        self.voted_for = Some(self.id);
        self.state = ServerState::Candidate(1);
        let n = self.log.len();
        Campaign {
            term: self.current_term,
            candidate_id: self.id,
            last_log_index: n - 1,
            last_log_term: self.log[n - 1].term,
        }
    }

    /// Become leader: reset every peer's replication progress — its
    /// `next_index` to the log length and its `match_index` to zero — and
    /// return the empty heartbeat to broadcast at once. The event loop
    /// re-arms the heartbeat tick. `match_index` goes to zero rather than
    /// to the log length: it records what a peer is *known* to hold, and a
    /// fresh leader knows nothing yet, so anything higher would let the
    /// commit rule count unreplicated entries as replicated.
    #[verifier::loop_isolation(false)]
    pub fn crown(&mut self) -> (r: Replicate)
        requires
            old(self).wf(),
        ensures
            final(self).wf(),
            final(self).state == ServerState::Leader,
            final(self).voted_for is None,
            final(self).current_term == old(self).current_term,
            final(self).id == old(self).id,
            final(self).log == old(self).log,
            final(self).commit_index == old(self).commit_index,
            final(self).last_applied == old(self).last_applied,
            final(self).peers == old(self).peers,
            final(self).pending == old(self).pending,
            final(self).rst == old(self).rst,
            forall|i: int|
                0 <= i < final(self).peers@.len() ==> peer_index_contents(
                    final(self).next_index,
                ).contains_key(#[trigger] final(self).peers@[i] as int) && peer_index_contents(
                    final(self).next_index,
                )[final(self).peers@[i] as int] == final(self).log@.len(),
            forall|i: int|
                0 <= i < final(self).peers@.len() ==> peer_index_contents(
                    final(self).match_index,
                ).contains_key(#[trigger] final(self).peers@[i] as int) && peer_index_contents(
                    final(self).match_index,
                )[final(self).peers@[i] as int] == 0,
            r.hb == (Heartbeat {
                term: old(self).current_term,
                leader_id: old(self).id,
                prev_log_index: (old(self).log@.len() - 1) as usize,
                prev_log_term: old(self).log@.last().term,
                leader_commit: old(self).commit_index,
            }),
            r.entries@ == Seq::<(usize, Log)>::empty(),
    {
        self.state = ServerState::Leader;
        self.voted_for = None;
        let r = self.empty_decree();
        let n = self.peers.len();
        let len = self.log.len();
        let mut i: usize = 0;
        while i < n
            invariant
                i <= n,
                self.peers == old(self).peers,
                self.id == old(self).id,
                self.state == ServerState::Leader,
                self.voted_for is None,
                self.current_term == old(self).current_term,
                self.rst == old(self).rst,
                self.log == old(self).log,
                self.commit_index == old(self).commit_index,
                self.last_applied == old(self).last_applied,
                self.pending == old(self).pending,
                forall|j: int|
                    0 <= j < i ==> peer_index_contents(self.next_index).contains_key(
                        #[trigger] self.peers@[j] as int,
                    ) && peer_index_contents(self.next_index)[self.peers@[j] as int] == len,
                forall|j: int|
                    i <= j < n ==> peer_index_contents(self.next_index).contains_key(
                        #[trigger] self.peers@[j] as int,
                    ) && 1 <= peer_index_contents(self.next_index)[self.peers@[j] as int] <= len,
                forall|j: int|
                    0 <= j < i ==> peer_index_contents(self.match_index).contains_key(
                        #[trigger] self.peers@[j] as int,
                    ) && peer_index_contents(self.match_index)[self.peers@[j] as int] == 0,
                forall|j: int|
                    i <= j < n ==> peer_index_contents(self.match_index).contains_key(
                        #[trigger] self.peers@[j] as int,
                    ),
            decreases n - i,
        {
            let p = self.peers[i];
            self.next_index.insert(p, len);
            self.match_index.insert(p, 0);
            proof {
                assert forall|j: int|
                    i + 1 <= j < n implies peer_index_contents(self.next_index).contains_key(
                    #[trigger] self.peers@[j] as int,
                ) && 1 <= peer_index_contents(self.next_index)[self.peers@[j] as int] <= len
                    && peer_index_contents(self.match_index).contains_key(
                    self.peers@[j] as int,
                ) by {
                    assert(self.peers@[j] != self.peers@[i as int]);
                }
            }
            i = i + 1;
        }
        r
    }

    /// The failure reply for a rejected campaign or heartbeat. Any vote
    /// already granted in this term stands: clearing it here would allow a
    /// second vote in the same term.
    pub fn reject(&mut self) -> (r: Reply)
        requires
            old(self).wf(),
        ensures
            *final(self) == *old(self),
            r == (Reply { from: old(self).id, success: false, term: old(self).current_term }),
    {
        Reply { from: self.id, success: false, term: self.current_term }
    }

    /// Grant a vote: adopt the candidate's term, record the vote, fall
    /// back to follower, and reply success. The event loop re-arms the
    /// election timeout.
    pub fn vote(&mut self, c: Campaign) -> (r: Reply)
        requires
            old(self).wf(),
            c.term >= old(self).current_term,
        ensures
            final(self).wf(),
            final(self).current_term == c.term,
            final(self).current_term >= old(self).current_term,
            final(self).voted_for == Some(c.candidate_id),
            final(self).state == ServerState::Follower,
            final(self).id == old(self).id,
            final(self).log == old(self).log,
            final(self).commit_index == old(self).commit_index,
            final(self).last_applied == old(self).last_applied,
            final(self).peers == old(self).peers,
            final(self).pending == old(self).pending,
            r == (Reply { from: old(self).id, success: true, term: c.term }),
    {
        self.current_term = c.term;
        self.voted_for = Some(c.candidate_id);
        self.state = ServerState::Follower;
        Reply { from: self.id, success: true, term: self.current_term }
    }

    /// The success reply for an accepted heartbeat.
    pub fn accept(&self) -> (r: Reply)
        ensures
            r == (Reply { from: self.id, success: true, term: self.current_term }),
    {
        Reply { from: self.id, success: true, term: self.current_term }
    }

    /// Apply every committed-but-unapplied log entry to the state machine.
    /// A leader answers each applied command's client directly; any other
    /// role applies silently.
    #[verifier::loop_isolation(false)]
    pub fn perform(&mut self) -> (r: Vec<Outbound>)
        requires
            old(self).wf(),
        ensures
            final(self).wf(),
            final(self).last_applied == old(self).commit_index,
            final(self).rst == old(self).rst,
            *final(self) == (Server { last_applied: old(self).commit_index, ..*old(self) }),
            ({
                let sends = perform_sends(
                    old(self).log@,
                    old(self).last_applied + 1,
                    old(self).commit_index as int,
                    old(self).state is Leader,
                );
                &&& r@.len() == sends.len()
                &&& forall|i: int|
                    0 <= i < sends.len() ==> r@[i] == Outbound::Client(
                        (#[trigger] sends[i]).0,
                        Message::Response(sends[i].1),
                    )
            }),
    {
        let ghost lo0 = self.last_applied + 1;
        let hi = self.commit_index;
        let is_leader = match self.state {
            ServerState::Leader => true,
            _ => false,
        };
        let mut out: Vec<Outbound> = Vec::new();
        let mut q = self.last_applied + 1;
        let ghost sends_done: Seq<(ClientAddr, Command)> = Seq::empty();
        let mut sends_done = Ghost(sends_done);
        proof {
            assert(Seq::<(ClientAddr, Command)>::empty() + perform_sends(
                self.log@,
                lo0,
                hi as int,
                is_leader,
            ) =~= perform_sends(self.log@, lo0, hi as int, is_leader));
        }
        while q <= hi
            invariant
                lo0 <= q <= hi + 1,
                hi == old(self).commit_index,
                lo0 == old(self).last_applied + 1,
                is_leader == (old(self).state is Leader),
                self.id == old(self).id,
                self.state == old(self).state,
                self.rst == old(self).rst,
                self.current_term == old(self).current_term,
                self.voted_for == old(self).voted_for,
                self.log == old(self).log,
                self.commit_index == old(self).commit_index,
                self.last_applied == old(self).last_applied,
                self.next_index == old(self).next_index,
                self.match_index == old(self).match_index,
                self.peers == old(self).peers,
                self.pending == old(self).pending,
                out@.len() == sends_done@.len(),
                forall|i: int|
                    0 <= i < sends_done@.len() ==> out@[i] == Outbound::Client(
                        (#[trigger] sends_done@[i]).0,
                        Message::Response(sends_done@[i].1),
                    ),
                perform_sends(self.log@, lo0, hi as int, is_leader) == sends_done@ + perform_sends(
                    self.log@,
                    q as int,
                    hi as int,
                    is_leader,
                ),
            decreases hi + 1 - q,
        {
            let cmd_opt = self.log[q].command.clone();
            proof {
                let rest = perform_sends(self.log@, q + 1, hi as int, is_leader);
                if is_leader && self.log@[q as int].command is Some {
                    let c = (self.log@[q as int].command)->Some_0;
                    assert(sends_done@ + (seq![(c.client, c)] + rest) =~= sends_done@.push(
                        (c.client, c),
                    ) + rest);
                    sends_done@ = sends_done@.push((c.client, c));
                }
            }
            match cmd_opt {
                Some(cmd) => {
                    let (state, _res) = ReplicaState::triv(&self.rst, cmd.op.clone());
                    self.rst = state;
                    if is_leader {
                        let addr = cmd.client;
                        out.push(Outbound::Client(addr, Message::Response(cmd)));
                    }
                },
                None => {},
            }
            q = q + 1;
        }
        proof {
            assert(sends_done@ + Seq::<(ClientAddr, Command)>::empty() =~= sends_done@);
        }
        self.last_applied = hi;
        out
    }

    /// One plus the number of peers whose `match_index` is at least `i`:
    /// how many servers (the leader itself included) hold entry `i`.
    #[verifier::loop_isolation(false)]
    fn count_replicated(&self, i: usize) -> (r: usize)
        requires
            self.wf(),
        ensures
            r == 1 + count_matching(peer_index_contents(self.match_index), self.peers@, i as int),
    {
        let mut cnt: usize = 1;
        let n = self.peers.len();
        let mut j: usize = 0;
        proof {
            assert(self.peers@.take(0) =~= Seq::<usize>::empty());
        }
        while j < n
            invariant
                j <= n,
                cnt <= 1 + j,
                cnt == 1 + count_matching(
                    peer_index_contents(self.match_index),
                    self.peers@.take(j as int),
                    i as int,
                ),
            decreases n - j,
        {
            proof {
                assert(self.peers@.take(j + 1).drop_last() =~= self.peers@.take(j as int));
                assert(self.peers@.take(j + 1).last() == self.peers@[j as int]);
            }
            match self.match_index.get(self.peers[j]) {
                Some(v) => {
                    if v >= i {
                        cnt = cnt + 1;
                    }
                },
                None => unreached(),
            }
            j = j + 1;
        }
        proof {
            assert(self.peers@.take(n as int) =~= self.peers@);
        }
        cnt
    }

    /// A client's `Request(cmd)`: a leader appends it to the log and
    /// replicates at once; a follower forwards it to the leader it
    /// recognizes; anyone else queues it until a leader is known.
    pub fn handle_request(&mut self, cmd: Command) -> (r: Effects)
        requires
            old(self).wf(),
            old(self).log@.len() < LOG_LIMIT,
        ensures
            final(self).wf(),
            final(self).commit_index >= old(self).commit_index,
            final(self).current_term == old(self).current_term,
            final(self).id == old(self).id,
            final(self).peers == old(self).peers,
            !r.reset_election,
            match old(self).state {
                ServerState::Follower => match old(self).voted_for {
                    Some(l) => {
                        &&& *final(self) == *old(self)
                        &&& r.sends@.len() == 1
                        &&& r.sends@[0] == Outbound::Peer(l, Message::Request(cmd))
                        &&& !r.reset_heartbeat
                    },
                    None => {
                        &&& final(self).pending@ == old(self).pending@.push(cmd)
                        &&& final(self).state == old(self).state
                        &&& final(self).log == old(self).log
                        &&& r.sends@ == Seq::<Outbound>::empty()
                        &&& !r.reset_heartbeat
                    },
                },
                ServerState::Candidate(_) => {
                    &&& final(self).pending@ == old(self).pending@.push(cmd)
                    &&& final(self).state == old(self).state
                    &&& final(self).log == old(self).log
                    &&& r.sends@ == Seq::<Outbound>::empty()
                    &&& !r.reset_heartbeat
                },
                ServerState::Leader => {
                    &&& final(self).log@ == old(self).log@.push(
                        Log { term: old(self).current_term, command: Some(cmd) },
                    )
                    &&& final(self).state == old(self).state
                    &&& final(self).voted_for == old(self).voted_for
                    &&& final(self).commit_index == old(self).commit_index
                    &&& final(self).last_applied == old(self).last_applied
                    &&& final(self).pending == old(self).pending
                    &&& is_decree_msgs(*final(self), r.sends@)
                    &&& r.reset_heartbeat
                },
            },
    {
        match self.state {
            ServerState::Follower => match self.voted_for {
                Some(l) => {
                    let mut sends: Vec<Outbound> = Vec::new();
                    sends.push(Outbound::Peer(l, Message::Request(cmd)));
                    Effects { sends, reset_election: false, reset_heartbeat: false }
                },
                None => {
                    self.pending.push(cmd);
                    Effects { sends: Vec::new(), reset_election: false, reset_heartbeat: false }
                },
            },
            ServerState::Candidate(_) => {
                self.pending.push(cmd);
                Effects { sends: Vec::new(), reset_election: false, reset_heartbeat: false }
            },
            ServerState::Leader => {
                self.log.push(Log { term: self.current_term, command: Some(cmd) });
                let sends = self.decree();
                Effects { sends, reset_election: false, reset_heartbeat: true }
            },
        }
    }

    /// A candidate's `Campaign`: reject an older term with a failure
    /// reply; grant the vote when `grants` holds (recording candidate and
    /// term, falling back to follower); otherwise abstain silently.
    pub fn handle_campaign(&mut self, c: Campaign) -> (r: Effects)
        requires
            old(self).wf(),
        ensures
            final(self).wf(),
            final(self).commit_index >= old(self).commit_index,
            final(self).current_term >= old(self).current_term,
            final(self).id == old(self).id,
            final(self).log == old(self).log,
            final(self).peers == old(self).peers,
            final(self).pending == old(self).pending,
            final(self).commit_index == old(self).commit_index,
            final(self).last_applied == old(self).last_applied,
            !r.reset_heartbeat,
            if c.term < old(self).current_term {
                &&& *final(self) == *old(self)
                &&& r.sends@.len() == 1
                &&& r.sends@[0] == Outbound::Sender(
                    Message::ServerReply(
                        Reply { from: old(self).id, success: false, term: old(self).current_term },
                    ),
                )
                &&& !r.reset_election
            } else if grants(*old(self), c) {
                &&& final(self).current_term == c.term
                &&& final(self).voted_for == Some(c.candidate_id)
                &&& final(self).state == ServerState::Follower
                &&& r.sends@.len() == 1
                &&& r.sends@[0] == Outbound::Sender(
                    Message::ServerReply(Reply { from: old(self).id, success: true, term: c.term }),
                )
                &&& r.reset_election
            } else {
                &&& *final(self) == *old(self)
                &&& r.sends@ == Seq::<Outbound>::empty()
                &&& !r.reset_election
            },
    {
        if c.term < self.current_term {
            let rep = self.reject();
            let mut sends: Vec<Outbound> = Vec::new();
            sends.push(Outbound::Sender(Message::ServerReply(rep)));
            return Effects { sends, reset_election: false, reset_heartbeat: false };
        }
        let n = self.log.len();
        if c.term > self.current_term || c.last_log_index >= n - 1 {
            let may_vote = match self.voted_for {
                Some(s) => s == c.candidate_id,
                None => true,
            };
            if may_vote {
                let rep = self.vote(c);
                let mut sends: Vec<Outbound> = Vec::new();
                sends.push(Outbound::Sender(Message::ServerReply(rep)));
                return Effects { sends, reset_election: true, reset_heartbeat: false };
            }
        }
        Effects { sends: Vec::new(), reset_election: false, reset_heartbeat: false }
    }

    /// A timer fired: on the heartbeat tick a leader broadcasts an empty
    /// heartbeat and re-arms the tick; on the election timeout the server
    /// campaigns and re-arms the timeout.
    pub fn handle_timer(&mut self, t: Timer) -> (r: Effects)
        requires
            old(self).wf(),
            old(self).current_term < usize::MAX,
        ensures
            final(self).wf(),
            final(self).commit_index >= old(self).commit_index,
            final(self).current_term >= old(self).current_term,
            final(self).id == old(self).id,
            final(self).peers == old(self).peers,
            match t {
                Timer::Heartbeat => {
                    &&& *final(self) == *old(self)
                    &&& !r.reset_election
                    &&& if old(self).state is Leader {
                        &&& is_heartbeat_broadcast(
                            old(self).peers@,
                            (Heartbeat {
                                term: old(self).current_term,
                                leader_id: old(self).id,
                                prev_log_index: (old(self).log@.len() - 1) as usize,
                                prev_log_term: old(self).log@.last().term,
                                leader_commit: old(self).commit_index,
                            }),
                            r.sends@,
                        )
                        &&& r.reset_heartbeat
                    } else {
                        &&& r.sends@ == Seq::<Outbound>::empty()
                        &&& !r.reset_heartbeat
                    }
                },
                Timer::Election => {
                    &&& final(self).current_term == old(self).current_term + 1
                    &&& final(self).voted_for == Some(old(self).id)
                    &&& final(self).state == ServerState::Candidate(1)
                    &&& final(self).log == old(self).log
                    &&& final(self).commit_index == old(self).commit_index
                    &&& final(self).last_applied == old(self).last_applied
                    &&& final(self).pending == old(self).pending
                    &&& final(self).rst == old(self).rst
                    &&& final(self).next_index == old(self).next_index
                    &&& final(self).match_index == old(self).match_index
                    &&& r.sends@.len() == old(self).peers@.len()
                    &&& (forall|j: int|
                        0 <= j < r.sends@.len() ==> #[trigger] r.sends@[j] == Outbound::Peer(
                            old(self).peers@[j],
                            Message::Campaign(
                                Campaign {
                                    term: (old(self).current_term + 1) as usize,
                                    candidate_id: old(self).id,
                                    last_log_index: (old(self).log@.len() - 1) as usize,
                                    last_log_term: old(self).log@.last().term,
                                },
                            ),
                        ))
                    &&& r.reset_election
                    &&& !r.reset_heartbeat
                },
            },
    {
        match t {
            Timer::Heartbeat => match self.state {
                ServerState::Leader => {
                    let rep = self.empty_decree();
                    let sends = self.broadcast_heartbeat(rep.hb);
                    Effects { sends, reset_election: false, reset_heartbeat: true }
                },
                _ => Effects { sends: Vec::new(), reset_election: false, reset_heartbeat: false },
            },
            Timer::Election => {
                let cp = self.campaign();
                let sends = self.broadcast_campaign(cp);
                Effects { sends, reset_election: true, reset_heartbeat: false }
            },
        }
    }

    /// A `ServerReply` from another server.
    ///
    /// A follower ignores it. A candidate counts a success as a vote and
    /// crowns itself on crossing a strict majority; a failure carrying a
    /// newer term ends the candidacy. A leader steps down on a newer term;
    /// a success updates the peer's progress and advances the commit index
    /// to the highest entry a strict majority holds, applying what newly
    /// committed; a failure at the current term backs the peer's
    /// `next_index` off by one and replicates to it again.
    pub fn handle_reply(&mut self, res: Reply) -> (r: Effects)
        requires
            old(self).wf(),
        ensures
            final(self).wf(),
            final(self).commit_index >= old(self).commit_index,
            final(self).current_term >= old(self).current_term,
            final(self).id == old(self).id,
            final(self).peers == old(self).peers,
            final(self).pending == old(self).pending,
            !r.reset_election,
            match old(self).state {
                ServerState::Follower => *final(self) == *old(self) && r.sends@
                    == Seq::<Outbound>::empty() && !r.reset_heartbeat,
                ServerState::Candidate(v) => if res.success {
                    if v + 1 > (old(self).peers@.len() + 1) / 2 {
                        &&& final(self).state == ServerState::Leader
                        &&& final(self).voted_for is None
                        &&& final(self).current_term == old(self).current_term
                        &&& final(self).log == old(self).log
                        &&& final(self).commit_index == old(self).commit_index
                        &&& final(self).last_applied == old(self).last_applied
                        &&& (forall|i: int|
                            0 <= i < final(self).peers@.len() ==> peer_index_contents(
                                final(self).next_index,
                            ).contains_key(#[trigger] final(self).peers@[i] as int)
                                && peer_index_contents(
                                final(self).next_index,
                            )[final(self).peers@[i] as int] == final(self).log@.len())
                        &&& (forall|i: int|
                            0 <= i < final(self).peers@.len() ==> peer_index_contents(
                                final(self).match_index,
                            ).contains_key(#[trigger] final(self).peers@[i] as int)
                                && peer_index_contents(
                                final(self).match_index,
                            )[final(self).peers@[i] as int] == 0)
                        &&& is_heartbeat_broadcast(
                            old(self).peers@,
                            (Heartbeat {
                                term: old(self).current_term,
                                leader_id: old(self).id,
                                prev_log_index: (old(self).log@.len() - 1) as usize,
                                prev_log_term: old(self).log@.last().term,
                                leader_commit: old(self).commit_index,
                            }),
                            r.sends@,
                        )
                        &&& r.reset_heartbeat
                    } else {
                        &&& final(self).state == ServerState::Candidate((v + 1) as usize)
                        &&& final(self).current_term == old(self).current_term
                        &&& final(self).voted_for == old(self).voted_for
                        &&& final(self).log == old(self).log
                        &&& r.sends@ == Seq::<Outbound>::empty()
                        &&& !r.reset_heartbeat
                    }
                } else if res.term > old(self).current_term {
                    &&& final(self).state == ServerState::Follower
                    &&& final(self).current_term == res.term
                    &&& final(self).voted_for is None
                    &&& final(self).log == old(self).log
                    &&& r.sends@ == Seq::<Outbound>::empty()
                    &&& !r.reset_heartbeat
                } else {
                    *final(self) == *old(self) && r.sends@ == Seq::<Outbound>::empty()
                        && !r.reset_heartbeat
                },
                ServerState::Leader => if res.term > old(self).current_term {
                    &&& final(self).state == ServerState::Follower
                    &&& final(self).current_term == res.term
                    &&& final(self).voted_for is None
                    &&& final(self).log == old(self).log
                    &&& final(self).commit_index == old(self).commit_index
                    &&& r.sends@ == Seq::<Outbound>::empty()
                    &&& !r.reset_heartbeat
                } else if res.success {
                    ({
                        let len = old(self).log@.len();
                        let matches2 = peer_index_contents(old(self).match_index).insert(
                            res.from as int,
                            len - 1,
                        );
                        let commit2 = highest_commit(
                            matches2,
                            old(self).peers@,
                            old(self).commit_index as int,
                            len - 1,
                        );
                        let sends = perform_sends(
                            old(self).log@,
                            old(self).last_applied + 1,
                            commit2,
                            true,
                        );
                        &&& final(self).state == old(self).state
                        &&& final(self).current_term == old(self).current_term
                        &&& final(self).voted_for == old(self).voted_for
                        &&& final(self).log == old(self).log
                        &&& peer_index_contents(final(self).match_index) == matches2
                        &&& peer_index_contents(final(self).next_index) == peer_index_contents(
                            old(self).next_index,
                        ).insert(res.from as int, len as int)
                        &&& final(self).commit_index == commit2
                        &&& final(self).last_applied == commit2
                        &&& r.sends@.len() == sends.len()
                        &&& (forall|i: int|
                            0 <= i < sends.len() ==> r.sends@[i] == Outbound::Client(
                                (#[trigger] sends[i]).0,
                                Message::Response(sends[i].1),
                            ))
                        &&& !r.reset_heartbeat
                    })
                } else {
                    ({
                        let prev = peer_index_contents(old(self).next_index);
                        &&& final(self).state == old(self).state
                        &&& final(self).current_term == old(self).current_term
                        &&& final(self).voted_for == old(self).voted_for
                        &&& final(self).log == old(self).log
                        &&& final(self).commit_index == old(self).commit_index
                        &&& final(self).last_applied == old(self).last_applied
                        &&& final(self).match_index == old(self).match_index
                        &&& peer_index_contents(final(self).next_index) == if prev.contains_key(
                            res.from as int,
                        ) && prev[res.from as int] > 1 {
                            prev.insert(res.from as int, prev[res.from as int] - 1)
                        } else {
                            prev
                        }
                        &&& is_decree_msgs(*final(self), r.sends@)
                        &&& r.reset_heartbeat
                    })
                },
            },
    {
        match self.state {
            ServerState::Follower => Effects {
                sends: Vec::new(),
                reset_election: false,
                reset_heartbeat: false,
            },
            ServerState::Candidate(v) => {
                if res.success {
                    if v + 1 > (self.peers.len() + 1) / 2 {
                        let rep = self.crown();
                        let sends = self.broadcast_heartbeat(rep.hb);
                        Effects { sends, reset_election: false, reset_heartbeat: true }
                    } else {
                        self.state = ServerState::Candidate(v + 1);
                        Effects {
                            sends: Vec::new(),
                            reset_election: false,
                            reset_heartbeat: false,
                        }
                    }
                } else if res.term > self.current_term {
                    self.current_term = res.term;
                    self.state = ServerState::Follower;
                    self.voted_for = None;
                    Effects { sends: Vec::new(), reset_election: false, reset_heartbeat: false }
                } else {
                    Effects { sends: Vec::new(), reset_election: false, reset_heartbeat: false }
                }
            },
            ServerState::Leader => {
                if res.term > self.current_term {
                    self.current_term = res.term;
                    self.state = ServerState::Follower;
                    self.voted_for = None;
                    Effects { sends: Vec::new(), reset_election: false, reset_heartbeat: false }
                } else if res.success {
                    let len = self.log.len();
                    self.match_index.insert(res.from, len - 1);
                    self.next_index.insert(res.from, len);
                    let ghost contents = peer_index_contents(self.match_index);
                    let ghost commit0 = self.commit_index as int;
                    let ghost peer_index_contents_frame_next = self.next_index;
                    let ghost match_index_now = self.match_index;
                    let mut i: usize = len - 1;
                    while i > self.commit_index
                        invariant
                            self.wf(),
                            len == self.log@.len(),
                            self.commit_index < len,
                            self.commit_index <= i < len,
                            commit0 <= self.commit_index,
                            self.last_applied <= commit0,
                            self.id == old(self).id,
                            self.state == old(self).state,
                            self.rst == old(self).rst,
                            self.current_term == old(self).current_term,
                            self.voted_for == old(self).voted_for,
                            self.log == old(self).log,
                            self.last_applied == old(self).last_applied,
                            self.next_index == peer_index_contents_frame_next,
                            self.match_index == match_index_now,
                            self.peers == old(self).peers,
                            self.pending == old(self).pending,
                            contents == peer_index_contents(self.match_index),
                            if self.commit_index == commit0 {
                                highest_commit(contents, self.peers@, commit0, len - 1)
                                    == highest_commit(contents, self.peers@, commit0, i as int)
                            } else {
                                self.commit_index == highest_commit(
                                    contents,
                                    self.peers@,
                                    commit0,
                                    len - 1,
                                ) && i == self.commit_index
                            },
                        decreases i - self.commit_index,
                    {
                        let cnt = self.count_replicated(i);
                        if cnt > (self.peers.len() + 1) / 2 {
                            self.commit_index = i;
                        } else {
                            i = i - 1;
                        }
                    }
                    proof {
                        lemma_highest_commit_bounds(contents, self.peers@, commit0, len - 1);
                    }
                    let sends = self.perform();
                    Effects { sends, reset_election: false, reset_heartbeat: false }
                } else {
                    match self.next_index.get(res.from) {
                        Some(u) => {
                            if u > 1 {
                                self.next_index.insert(res.from, u - 1);
                            }
                        },
                        None => {},
                    }
                    let sends = self.decree();
                    Effects { sends, reset_election: false, reset_heartbeat: true }
                }
            },
        }
    }

    /// A leader's `Heartbeat` carrying a log suffix.
    ///
    /// An older term is rejected outright. A log that does not yet reach
    /// `prev_log_index`, or disagrees on its term, is rejected too; when
    /// the heartbeat carries a newer term, the stale follower's term and
    /// recognized leader are corrected first. Otherwise the server adopts
    /// the sender as leader, splices the entries in, forwards any queued
    /// requests to the leader, advances its commit index to the leader's
    /// (bounded by its own log), applies what newly committed, and replies
    /// success; the election timeout is re-armed.
    #[verifier::loop_isolation(false)]
    pub fn handle_heartbeat(&mut self, rep: Replicate) -> (r: Effects)
        requires
            old(self).wf(),
            old(self).log@.len() + rep.entries@.len() <= LOG_LIMIT,
        ensures
            final(self).wf(),
            final(self).commit_index >= old(self).commit_index,
            final(self).current_term >= old(self).current_term,
            final(self).id == old(self).id,
            final(self).peers == old(self).peers,
            final(self).next_index == old(self).next_index,
            final(self).match_index == old(self).match_index,
            !r.reset_heartbeat,
            if rep.hb.term < old(self).current_term {
                &&& *final(self) == *old(self)
                &&& r.sends@.len() == 1
                &&& r.sends@[0] == Outbound::Sender(
                    Message::ServerReply(
                        Reply { from: old(self).id, success: false, term: old(self).current_term },
                    ),
                )
                &&& !r.reset_election
            } else if rep.hb.prev_log_index >= old(self).log@.len() || old(
                self,
            ).log@[rep.hb.prev_log_index as int].term != rep.hb.prev_log_term {
                &&& final(self).state == old(self).state
                &&& final(self).log == old(self).log
                &&& final(self).pending == old(self).pending
                &&& final(self).commit_index == old(self).commit_index
                &&& final(self).last_applied == old(self).last_applied
                &&& final(self).current_term == if rep.hb.term > old(self).current_term {
                    rep.hb.term
                } else {
                    old(self).current_term
                }
                &&& final(self).voted_for == if rep.hb.term > old(self).current_term {
                    Some(rep.hb.leader_id)
                } else {
                    old(self).voted_for
                }
                &&& r.sends@.len() == 1
                &&& r.sends@[0] == Outbound::Sender(
                    Message::ServerReply(
                        Reply {
                            from: old(self).id,
                            success: false,
                            term: final(self).current_term,
                        },
                    ),
                )
                &&& !r.reset_election
            } else {
                ({
                    let log2 = splice(old(self).log@, rep.entries@);
                    let commit2 = if rep.hb.leader_commit > old(self).commit_index {
                        if rep.hb.leader_commit < log2.len() - 1 {
                            rep.hb.leader_commit as int
                        } else {
                            log2.len() - 1
                        }
                    } else {
                        old(self).commit_index as int
                    };
                    let n_fwd = old(self).pending@.len() as int;
                    &&& final(self).current_term == rep.hb.term
                    &&& final(self).state == ServerState::Follower
                    &&& final(self).voted_for == Some(rep.hb.leader_id)
                    &&& final(self).log@ == log2
                    &&& final(self).pending@ == Seq::<Command>::empty()
                    &&& final(self).commit_index == commit2
                    &&& final(self).last_applied == if rep.hb.leader_commit > old(
                        self,
                    ).commit_index && commit2 > old(self).last_applied {
                        commit2
                    } else {
                        old(self).last_applied as int
                    }
                    &&& r.sends@.len() == n_fwd + 1
                    &&& (forall|i: int|
                        0 <= i < n_fwd ==> #[trigger] r.sends@[i] == Outbound::Peer(
                            rep.hb.leader_id,
                            Message::Request(old(self).pending@[n_fwd - 1 - i]),
                        ))
                    &&& r.sends@[n_fwd] == Outbound::Sender(
                        Message::ServerReply(
                            Reply { from: old(self).id, success: true, term: rep.hb.term },
                        ),
                    )
                    &&& r.reset_election
                })
            },
    {
        if rep.hb.term < self.current_term {
            let reply = self.reject();
            let mut sends: Vec<Outbound> = Vec::new();
            sends.push(Outbound::Sender(Message::ServerReply(reply)));
            return Effects { sends, reset_election: false, reset_heartbeat: false };
        }
        let len0 = self.log.len();
        if rep.hb.prev_log_index >= len0 || self.log[rep.hb.prev_log_index].term
            != rep.hb.prev_log_term {
            if rep.hb.term > self.current_term {
                self.current_term = rep.hb.term;
                self.voted_for = Some(rep.hb.leader_id);
            }
            let reply = self.reject();
            let mut sends: Vec<Outbound> = Vec::new();
            sends.push(Outbound::Sender(Message::ServerReply(reply)));
            return Effects { sends, reset_election: false, reset_heartbeat: false };
        }
        self.current_term = rep.hb.term;
        self.state = ServerState::Follower;
        self.voted_for = Some(rep.hb.leader_id);
        let ghost log0 = self.log@;
        let n_entries = rep.entries.len();
        let mut t: usize = 0;
        proof {
            assert(rep.entries@.take(0) =~= Seq::<(usize, Log)>::empty());
        }
        while t < n_entries
            invariant
                t <= n_entries,
                n_entries == rep.entries@.len(),
                self.log@ == splice(log0, rep.entries@.take(t as int)),
                log0.len() <= self.log@.len() <= log0.len() + t,
                self.id == old(self).id,
                self.state == ServerState::Follower,
                self.voted_for == Some(rep.hb.leader_id),
                self.current_term == rep.hb.term,
                self.rst == old(self).rst,
                self.commit_index == old(self).commit_index,
                self.last_applied == old(self).last_applied,
                self.next_index == old(self).next_index,
                self.match_index == old(self).match_index,
                self.peers == old(self).peers,
                self.pending == old(self).pending,
            decreases n_entries - t,
        {
            proof {
                assert(rep.entries@.take(t + 1).drop_last() =~= rep.entries@.take(t as int));
                assert(rep.entries@.take(t + 1).last() == rep.entries@[t as int]);
                lemma_splice_snoc(log0, rep.entries@.take(t as int), rep.entries@[t as int]);
                assert(rep.entries@.take(t as int).push(rep.entries@[t as int]) =~= rep.entries@.take(t + 1));
            }
            let e_idx = rep.entries[t].0;
            let e_log = rep.entries[t].1.clone();
            if e_idx < self.log.len() {
                self.log.set(e_idx, e_log);
            } else {
                self.log.push(e_log);
            }
            t = t + 1;
        }
        proof {
            assert(rep.entries@.take(n_entries as int) =~= rep.entries@);
        }
        let mut sends: Vec<Outbound> = Vec::new();
        let ghost n_fwd = old(self).pending@.len() as int;
        let ghost log1 = self.log@;
        proof {
            assert(self.pending@ =~= old(self).pending@.take(self.pending@.len() as int));
        }
        while self.pending.len() > 0
            invariant
                self.pending@ == old(self).pending@.take(self.pending@.len() as int),
                sends@.len() == n_fwd - self.pending@.len(),
                forall|i: int|
                    0 <= i < sends@.len() ==> #[trigger] sends@[i] == Outbound::Peer(
                        rep.hb.leader_id,
                        Message::Request(old(self).pending@[n_fwd - 1 - i]),
                    ),
                self.log@ == log1,
                self.id == old(self).id,
                self.state == ServerState::Follower,
                self.voted_for == Some(rep.hb.leader_id),
                self.current_term == rep.hb.term,
                self.rst == old(self).rst,
                self.commit_index == old(self).commit_index,
                self.last_applied == old(self).last_applied,
                self.next_index == old(self).next_index,
                self.match_index == old(self).match_index,
                self.peers == old(self).peers,
            decreases self.pending@.len(),
        {
            proof {
                assert(self.pending@.last() == old(self).pending@[self.pending@.len() - 1]);
                assert(self.pending@.drop_last() =~= old(self).pending@.take(
                    self.pending@.len() - 1,
                ));
            }
            let cmd = match self.pending.pop() {
                Some(c) => c,
                None => unreached(),
            };
            sends.push(Outbound::Peer(rep.hb.leader_id, Message::Request(cmd)));
        }
        if rep.hb.leader_commit > self.commit_index {
            let len1 = self.log.len();
            let newc = if rep.hb.leader_commit < len1 - 1 {
                rep.hb.leader_commit
            } else {
                len1 - 1
            };
            self.commit_index = newc;
            if self.commit_index > self.last_applied {
                let mut resp = self.perform();
                proof {
                    lemma_perform_sends_follower(
                        self.log@,
                        old(self).last_applied + 1,
                        self.commit_index as int,
                    );
                }
                sends.append(&mut resp);
            }
        }
        let reply = self.accept();
        sends.push(Outbound::Sender(Message::ServerReply(reply)));
        Effects { sends, reset_election: true, reset_heartbeat: false }
    }
}

} // verus!
