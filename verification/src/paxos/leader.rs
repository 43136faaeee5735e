//! The Paxos leader and its two agents.
//!
//! A `Scout` solicits promises for one ballot, a `Commander` drives the
//! accept phase for one proposal, and the `Leader` reacts to their outcome
//! signals (`Agent`) and to inbound `Propose` messages. The agents here are
//! pure state machines: each handler consumes one decoded message and
//! returns what must be sent, so the surrounding event loops stay thin.

use vstd::prelude::*;
use crate::paxos::{ballot_le, ballot_lt, Ballot, Command, Message, Proposal};
use crate::slotmap::SlotMap;
use vstd::set_lib::lemma_int_range;
use vstd::set_lib::lemma_len_subset;
use vstd::set_lib::set_int_range;

verus! {

/// 'Return type' of a Scout or Commander, signalled back to the leader's
/// event loop.
#[derive(Debug)]
pub enum Agent {
    Committed,
    Adopted(Ballot, SlotMap<Vec<Proposal>>),
    Preempted(Ballot),
}

/// How many entries of the sequence are `true`.
pub open spec fn count_true(s: Seq<bool>) -> int
    decreases s.len(),
{
    if s.len() == 0 {
        0
    } else {
        count_true(s.drop_last()) + if s.last() {
            1int
        } else {
            0int
        }
    }
}

/// The acceptors that have replied: the indices no longer waited for.
pub open spec fn responded_set(s: Seq<bool>) -> Set<int> {
    Set::new(|i: int| 0 <= i < s.len() && !s[i])
}

pub proof fn lemma_count_true_bounds(s: Seq<bool>)
    ensures
        0 <= count_true(s) <= s.len(),
    decreases s.len(),
{
    if s.len() > 0 {
        lemma_count_true_bounds(s.drop_last());
    }
}

pub proof fn lemma_count_true_push(s: Seq<bool>, b: bool)
    ensures
        count_true(s.push(b)) == count_true(s) + if b {
            1int
        } else {
            0int
        },
{
    assert(s.push(b).drop_last() =~= s);
}

pub proof fn lemma_count_true_update(s: Seq<bool>, i: int)
    requires
        0 <= i < s.len(),
        s[i],
    ensures
        count_true(s.update(i, false)) == count_true(s) - 1,
    decreases s.len(),
{
    if i == s.len() - 1 {
        assert(s.update(i, false).drop_last() =~= s.drop_last());
    } else {
        assert(s.update(i, false).drop_last() =~= s.drop_last().update(i, false));
        assert(s.update(i, false).last() == s.last());
        lemma_count_true_update(s.drop_last(), i);
    }
}

/// The acceptors that replied are exactly those not waited for, and there
/// are `len - count_true` of them.
pub proof fn lemma_responded_count(s: Seq<bool>)
    ensures
        responded_set(s).finite(),
        responded_set(s).len() == s.len() - count_true(s),
    decreases s.len(),
{
    broadcast use vstd::set::group_set_axioms;

    if s.len() == 0 {
        assert(responded_set(s) =~= Set::<int>::empty());
    } else {
        lemma_responded_count(s.drop_last());
        if s.last() {
            assert(responded_set(s) =~= responded_set(s.drop_last()));
        } else {
            assert(responded_set(s) =~= responded_set(s.drop_last()).insert(s.len() - 1));
            assert(!responded_set(s.drop_last()).contains(s.len() - 1));
        }
    }
}

/// A responded set only holds acceptor indices, so two of them that are
/// both strict majorities fall under `lemma_quorums_intersect`.
pub proof fn lemma_responded_in_range(s: Seq<bool>)
    ensures
        responded_set(s).subset_of(set_int_range(0, s.len() as int)),
{
}

/// Two disjoint finite sets contribute their full sizes to their union.
proof fn lemma_disjoint_union_len<A>(s1: Set<A>, s2: Set<A>)
    requires
        s1.finite(),
        s2.finite(),
        s1.intersect(s2) == Set::<A>::empty(),
    ensures
        s1.union(s2).len() == s1.len() + s2.len(),
    decreases s1.len(),
{
    broadcast use vstd::set::group_set_axioms;

    if s1.len() == 0 {
        s1.lemma_len0_is_empty();
        assert(s1.union(s2) =~= s2);
    } else {
        let a = s1.choose();
        assert(s1.contains(a));
        assert(!s1.intersect(s2).contains(a));
        assert(!s2.contains(a));
        assert(s1.remove(a).intersect(s2) =~= Set::<A>::empty());
        lemma_disjoint_union_len(s1.remove(a), s2);
        assert(s1.union(s2).remove(a) =~= s1.remove(a).union(s2));
        assert(s1.union(s2).contains(a));
    }
}

/// The heart of agreement: any two strict majorities of the same acceptor
/// set share at least one acceptor. A Commander and a Scout (or two
/// Commanders) that both heard from a strict majority therefore heard from
/// a common acceptor.
pub proof fn lemma_quorums_intersect(n: int, q1: Set<int>, q2: Set<int>)
    requires
        0 <= n,
        q1.subset_of(set_int_range(0, n)),
        q2.subset_of(set_int_range(0, n)),
        2 * q1.len() > n,
        2 * q2.len() > n,
    ensures
        exists|a: int| q1.contains(a) && q2.contains(a),
{
    broadcast use vstd::set::group_set_axioms;

    lemma_int_range(0, n);
    lemma_len_subset(q1, set_int_range(0, n));
    lemma_len_subset(q2, set_int_range(0, n));
    if !(exists|a: int| q1.contains(a) && q2.contains(a)) {
        assert(q1.intersect(q2) =~= Set::<int>::empty());
        lemma_disjoint_union_len(q1, q2);
        lemma_len_subset(q1.union(q2), set_int_range(0, n));
    }
}

/// If two agents over the same acceptor set each heard from a strict
/// majority — as `Scout::handle_p1b` and `Commander::handle_p2b` ensure
/// whenever they emit `Adopted` or `Committed` — then some acceptor
/// answered both. Agreement rests on this: what one quorum settled, any
/// later quorum hears about.
pub proof fn lemma_agents_share_acceptor(n: int, w1: Seq<bool>, w2: Seq<bool>)
    requires
        w1.len() == n,
        w2.len() == n,
        2 * responded_set(w1).len() > n,
        2 * responded_set(w2).len() > n,
    ensures
        exists|a: int| responded_set(w1).contains(a) && responded_set(w2).contains(a),
{
    lemma_responded_in_range(w1);
    lemma_responded_in_range(w2);
    lemma_quorums_intersect(n, responded_set(w1), responded_set(w2));
}

/// The per-slot accepted proposals, with each row abstracted to a sequence.
pub open spec fn pval_rows(m: Map<int, Vec<Proposal>>) -> Map<int, Seq<Proposal>> {
    m.map_values(|v: Vec<Proposal>| v@)
}

/// Every row of the per-slot map is non-empty.
pub open spec fn rows_nonempty(rows: Map<int, Seq<Proposal>>) -> bool {
    forall|k: int| rows.contains_key(k) ==> (#[trigger] rows[k]).len() > 0
}

/// Merging one accepted proposal into the per-slot map: append to its
/// slot's row, or open that row.
pub open spec fn merge_one(rows: Map<int, Seq<Proposal>>, p: Proposal) -> Map<int, Seq<Proposal>> {
    if rows.contains_key(p.slot as int) {
        rows.insert(p.slot as int, rows[p.slot as int].push(p))
    } else {
        rows.insert(p.slot as int, seq![p])
    }
}

/// Merging a whole accepted list, in order.
pub open spec fn merge_pvals(rows: Map<int, Seq<Proposal>>, ps: Seq<Proposal>) -> Map<
    int,
    Seq<Proposal>,
>
    decreases ps.len(),
{
    if ps.len() == 0 {
        rows
    } else {
        merge_pvals(merge_one(rows, ps[0]), ps.skip(1))
    }
}

proof fn lemma_merge_pvals_snoc(rows: Map<int, Seq<Proposal>>, ps: Seq<Proposal>, p: Proposal)
    ensures
        merge_pvals(rows, ps.push(p)) == merge_one(merge_pvals(rows, ps), p),
    decreases ps.len(),
{
    if ps.len() == 0 {
        assert(ps.push(p)[0] == p);
        assert(ps.push(p).skip(1) =~= Seq::<Proposal>::empty());
        assert(merge_pvals(rows, ps.push(p)) == merge_pvals(
            merge_one(rows, p),
            Seq::<Proposal>::empty(),
        ));
        assert(merge_pvals(merge_one(rows, p), Seq::<Proposal>::empty()) == merge_one(rows, p));
        assert(merge_pvals(rows, ps) == rows);
    } else {
        assert(ps.push(p)[0] == ps[0]);
        assert(ps.push(p).skip(1) =~= ps.skip(1).push(p));
        lemma_merge_pvals_snoc(merge_one(rows, ps[0]), ps.skip(1), p);
    }
}

/// Append one accepted proposal to its slot's row.
fn pval_insert(pvals: &mut SlotMap<Vec<Proposal>>, p: Proposal)
    requires
        old(pvals).wf(),
        rows_nonempty(pval_rows(old(pvals)@)),
    ensures
        final(pvals).wf(),
        rows_nonempty(pval_rows(final(pvals)@)),
        pval_rows(final(pvals)@) == merge_one(pval_rows(old(pvals)@), p),
{
    let slot = p.slot;
    let mut row: Vec<Proposal> = match pvals.get(slot) {
        Some(v) => v.clone(),
        None => Vec::new(),
    };
    row.push(p);
    pvals.insert(slot, row);
    proof {
        assert(pval_rows(final(pvals)@) =~= merge_one(pval_rows(old(pvals)@), p));
    }
}

/// The last proposal in the row carrying the maximal ballot, under the
/// full lexicographic `(num, leader_id)` ballot order.
pub open spec fn max_by_ballot(s: Seq<Proposal>) -> Proposal
    recommends
        s.len() > 0,
    decreases s.len(),
{
    if s.len() <= 1 {
        s[0]
    } else {
        let m = max_by_ballot(s.drop_last());
        if !ballot_lt(s.last().ballot, m.ballot) {
            s.last()
        } else {
            m
        }
    }
}

/// For every slot, the proposal with the highest ballot — ordered by the
/// full `(num, leader_id)` pair — among those the acceptors reported for
/// it.
#[verifier::loop_isolation(false)]
pub fn get_pmax(pvals: &SlotMap<Vec<Proposal>>) -> (r: SlotMap<Proposal>)
    requires
        pvals.wf(),
        rows_nonempty(pval_rows(pvals@)),
    ensures
        r.wf(),
        forall|k: int| #![all_triggers] r@.contains_key(k) <==> pvals@.contains_key(k),
        forall|k: int| pvals@.contains_key(k) ==> r@[k] == max_by_ballot((#[trigger] pvals@[k])@),
    {
    let n = pvals.len();
    let mut out: SlotMap<Proposal> = SlotMap::new();
    let mut i: usize = 0;
    while i < n
        invariant
            pvals.wf(),
            rows_nonempty(pval_rows(pvals@)),
            n == pvals.entries_seq().len(),
            i <= n,
            out.wf(),
            forall|k: int|
                out@.contains_key(k) <==> exists|j: int|
                    0 <= j < i && (#[trigger] pvals.entries_seq()[j]).0 == k,
            forall|j: int|
                0 <= j < i ==> out@.contains_key((#[trigger] pvals.entries_seq()[j]).0 as int)
                    && out@[pvals.entries_seq()[j].0 as int] == max_by_ballot(
                    pvals.entries_seq()[j].1@,
                ),
        decreases n - i,
    {
        let slot = pvals.key_at(i);
        let row: &Vec<Proposal> = pvals.val_at(i);
        proof {
            pvals.lemma_entry(i as int);
            assert(pval_rows(pvals@).contains_key(slot as int));
            assert(pval_rows(pvals@)[slot as int] == row@);
        }
        let mut best: Proposal = row[0].clone();
        let mut j: usize = 1;
        proof {
            assert(row@.take(1) =~= seq![row@[0]]);
        }
        while j < row.len()
            invariant
                1 <= j <= row@.len(),
                best == max_by_ballot(row@.take(j as int)),
            decreases row@.len() - j,
        {
            proof {
                assert(row@.take(j + 1).drop_last() =~= row@.take(j as int));
                assert(row@.take(j + 1).last() == row@[j as int]);
            }
            if !row[j].ballot.lt(&best.ballot) {
                best = row[j].clone();
            }
            j = j + 1;
        }
        proof {
            assert(row@.take(row@.len() as int) =~= row@);
        }
        out.insert(slot, best);
        proof {
            assert forall|j: int|
                0 <= j < i + 1 implies out@.contains_key(
                (#[trigger] pvals.entries_seq()[j]).0 as int,
            ) && out@[pvals.entries_seq()[j].0 as int] == max_by_ballot(
                pvals.entries_seq()[j].1@,
            ) by {
                if j < i && pvals.entries_seq()[j].0 == slot {
                    pvals.lemma_key_unique(j, i as int);
                }
            }
        }
        i = i + 1;
    }
    proof {
        assert forall|k: int| out@.contains_key(k) <==> pvals@.contains_key(k) by {
            if pvals@.contains_key(k) {
                pvals.lemma_idx_of(k);
            }
            if out@.contains_key(k) {
                let j = choose|j: int|
                    0 <= j < i && (#[trigger] pvals.entries_seq()[j]).0 == k;
                pvals.lemma_entry(j);
            }
        }
        assert forall|k: int| pvals@.contains_key(k) implies out@[k] == max_by_ballot(
            (#[trigger] pvals@[k])@,
        ) by {
            pvals.lemma_idx_of(k);
            let j = pvals.idx_of(k);
            assert(out@[pvals.entries_seq()[j].0 as int] == max_by_ballot(pvals.entries_seq()[j].1@));
        }
    }
    out
}

/// One long-lived scout per leader, re-armed per ballot: it broadcasts
/// `Phase1a` and collects `Phase1b` promises until a strict majority of
/// distinct acceptors has answered for its ballot.
pub struct Scout {
    /// The leader this scout works for.
    pub leader_id: usize,
    /// The ballot of the current round.
    pub ballot: Ballot,
    /// How many acceptors are configured.
    pub n_acceptors: usize,
    /// `waitfor[a]` holds while acceptor `a` has not answered this round.
    pub waitfor: Vec<bool>,
    /// How many entries of `waitfor` still hold.
    pub outstanding: usize,
    /// The accepted proposals reported so far, per slot, in arrival order.
    pub pvals: SlotMap<Vec<Proposal>>,
    /// Set once the round has emitted `Adopted` or `Preempted`; the scout
    /// then ignores promises until re-armed.
    pub done: bool,
}

impl Scout {
    pub open spec fn wf(&self) -> bool {
        &&& self.waitfor@.len() == self.n_acceptors
        &&& self.outstanding == count_true(self.waitfor@)
        &&& self.pvals.wf()
        &&& rows_nonempty(pval_rows(self.pvals@))
        &&& 1 <= self.n_acceptors < 0x4000_0000
    }

    /// Arm a fresh scout for `ballot`; the returned `Phase1a` goes to every
    /// acceptor. The bound on `n_acceptors` is a machine limit, so that
    /// doubled counts stay well inside `usize`.
    pub fn new(leader_id: usize, ballot: Ballot, n_acceptors: usize) -> (r: (Scout, Message))
        requires
            1 <= n_acceptors < 0x4000_0000,
        ensures
            r.0.wf(),
            r.0.leader_id == leader_id,
            r.0.ballot == ballot,
            r.0.n_acceptors == n_acceptors,
            !r.0.done,
            r.0.outstanding == n_acceptors,
            r.0.pvals@ == (Map::<int, Vec<Proposal>>::empty()),
            r.1 == Message::Phase1a(leader_id, ballot),
    {
        let waitfor = all_waiting(n_acceptors);
        let scout = Scout {
            leader_id,
            ballot,
            n_acceptors,
            waitfor,
            outstanding: n_acceptors,
            pvals: SlotMap::new(),
            done: false,
        };
        (scout, Message::Phase1a(leader_id, ballot))
    }

    /// Restart the round with a new ballot: same scout, fresh collection
    /// state; the returned `Phase1a` goes to every acceptor again.
    pub fn rearm(&mut self, ballot: Ballot) -> (r: Message)
        requires
            old(self).wf(),
        ensures
            final(self).wf(),
            final(self).leader_id == old(self).leader_id,
            final(self).n_acceptors == old(self).n_acceptors,
            final(self).ballot == ballot,
            !final(self).done,
            final(self).outstanding == final(self).n_acceptors,
            final(self).pvals@ == (Map::<int, Vec<Proposal>>::empty()),
            r == Message::Phase1a(old(self).leader_id, ballot),
    {
        self.ballot = ballot;
        self.waitfor = all_waiting(self.n_acceptors);
        self.outstanding = self.n_acceptors;
        self.pvals = SlotMap::new();
        self.done = false;
        Message::Phase1a(self.leader_id, ballot)
    }

    /// Handle one `Phase1b(_, acceptor_id, acc_ballot, accepts)`.
    ///
    /// A promise for the current ballot strikes its sender off `waitfor`
    /// and merges the reported proposals; once a strict majority of the
    /// acceptors has answered, the round closes with `Adopted`. A promise
    /// for any other ballot means some acceptor promised higher: the round
    /// closes immediately with `Preempted`.
    #[verifier::loop_isolation(false)]
    pub fn handle_p1b(
        &mut self,
        acceptor_id: usize,
        acc_ballot: Ballot,
        accepts: &Vec<Proposal>,
    ) -> (r: Option<Agent>)
        requires
            old(self).wf(),
        ensures
            final(self).wf(),
            final(self).leader_id == old(self).leader_id,
            final(self).ballot == old(self).ballot,
            final(self).n_acceptors == old(self).n_acceptors,
            old(self).done ==> *final(self) == *old(self) && r is None,
            !old(self).done && acc_ballot == old(self).ballot ==> ({
                let w2 = if acceptor_id < old(self).n_acceptors && old(
                    self,
                ).waitfor@[acceptor_id as int] {
                    old(self).waitfor@.update(acceptor_id as int, false)
                } else {
                    old(self).waitfor@
                };
                &&& final(self).waitfor@ == w2
                &&& (r is Some <==> 2 * count_true(w2) < old(self).n_acceptors)
            }),
            match r {
                Some(Agent::Adopted(blt, pv)) => {
                    &&& !old(self).done
                    &&& final(self).done
                    &&& blt == old(self).ballot
                    &&& acc_ballot == old(self).ballot
                    &&& 2 * responded_set(final(self).waitfor@).len() > final(self).n_acceptors
                    &&& pv.wf()
                    &&& rows_nonempty(pval_rows(pv@))
                    &&& pval_rows(pv@) == merge_pvals(pval_rows(old(self).pvals@), accepts@)
                },
                Some(Agent::Preempted(blt)) => {
                    &&& !old(self).done
                    &&& final(self).done
                    &&& blt == acc_ballot
                    &&& acc_ballot != old(self).ballot
                    &&& final(self).waitfor == old(self).waitfor
                    &&& final(self).outstanding == old(self).outstanding
                    &&& final(self).pvals == old(self).pvals
                },
                Some(Agent::Committed) => false,
                None => !old(self).done ==> {
                    &&& acc_ballot == old(self).ballot
                    &&& !final(self).done
                    &&& 2 * final(self).outstanding >= final(self).n_acceptors
                    &&& pval_rows(final(self).pvals@) == merge_pvals(
                        pval_rows(old(self).pvals@),
                        accepts@,
                    )
                },
            },
    {
        if self.done {
            return None;
        }
        if acc_ballot.num == self.ballot.num && acc_ballot.leader_id == self.ballot.leader_id {
            if acceptor_id < self.n_acceptors && self.waitfor[acceptor_id] {
                proof {
                    lemma_count_true_update(self.waitfor@, acceptor_id as int);
                    lemma_count_true_bounds(self.waitfor@.update(acceptor_id as int, false));
                }
                self.waitfor.set(acceptor_id, false);
                self.outstanding = self.outstanding - 1;
            }
            proof {
                lemma_count_true_bounds(self.waitfor@);
            }
            let ghost mid = *self;
            let ghost rows0 = pval_rows(self.pvals@);
            let n_accepts = accepts.len();
            let mut i: usize = 0;
            proof {
                assert(accepts@.take(0) =~= Seq::<Proposal>::empty());
            }
            while i < n_accepts
                invariant
                    i <= n_accepts,
                    n_accepts == accepts@.len(),
                    self.pvals.wf(),
                    rows_nonempty(pval_rows(self.pvals@)),
                    pval_rows(self.pvals@) == merge_pvals(rows0, accepts@.take(i as int)),
                    self.waitfor == mid.waitfor,
                    self.outstanding == mid.outstanding,
                    self.done == mid.done,
                    self.ballot == mid.ballot,
                    self.leader_id == mid.leader_id,
                    self.n_acceptors == mid.n_acceptors,
                decreases n_accepts - i,
            {
                proof {
                    assert(accepts@.take(i + 1).drop_last() =~= accepts@.take(i as int));
                    assert(accepts@.take(i + 1).last() == accepts@[i as int]);
                    lemma_merge_pvals_snoc(rows0, accepts@.take(i as int), accepts@[i as int]);
                    assert(accepts@.take(i as int).push(accepts@[i as int]) =~= accepts@.take(
                        i + 1,
                    ));
                }
                pval_insert(&mut self.pvals, accepts[i].clone());
                i = i + 1;
            }
            proof {
                assert(accepts@.take(n_accepts as int) =~= accepts@);
            }
            if 2 * self.outstanding < self.n_acceptors {
                self.done = true;
                let mut pv: SlotMap<Vec<Proposal>> = SlotMap::new();
                core::mem::swap(&mut self.pvals, &mut pv);
                proof {
                    lemma_responded_count(self.waitfor@);
                }
                return Some(Agent::Adopted(self.ballot, pv));
            }
            None
        } else {
            self.done = true;
            Some(Agent::Preempted(acc_ballot))
        }
    }
}

/// A waitfor vector with every acceptor outstanding.
#[verifier::loop_isolation(false)]
fn all_waiting(n: usize) -> (r: Vec<bool>)
    ensures
        r@.len() == n,
        count_true(r@) == n,
        forall|i: int| 0 <= i < n ==> r@[i],
    {
    let mut r: Vec<bool> = Vec::new();
    let mut i: usize = 0;
    while i < n
        invariant
            i <= n,
            r@.len() == i,
            count_true(r@) == i,
            forall|j: int| 0 <= j < i ==> r@[j],
        decreases n - i,
    {
        proof {
            lemma_count_true_push(r@, true);
        }
        r.push(true);
        i = i + 1;
    }
    r
}

/// One short-lived commander per proposal: it broadcasts `Phase2a` and
/// collects `Phase2b` acknowledgements until a strict majority of distinct
/// acceptors has accepted, then announces the decision to the replicas.
pub struct Commander {
    /// The leader this commander works for.
    pub leader_id: usize,
    /// The proposal this commander drives.
    pub proposal: Proposal,
    /// How many acceptors are configured.
    pub n_acceptors: usize,
    /// `waitfor[a]` holds while acceptor `a` has not acknowledged.
    pub waitfor: Vec<bool>,
    /// How many entries of `waitfor` still hold.
    pub outstanding: usize,
    /// Set once `Committed` or `Preempted` has been emitted; the commander
    /// is finished then.
    pub done: bool,
}

impl Commander {
    pub open spec fn wf(&self) -> bool {
        &&& self.waitfor@.len() == self.n_acceptors
        &&& self.outstanding == count_true(self.waitfor@)
        &&& 1 <= self.n_acceptors < 0x4000_0000
    }

    /// Arm a commander for one proposal; the returned `Phase2a` goes to
    /// every acceptor.
    pub fn new(leader_id: usize, proposal: Proposal, n_acceptors: usize) -> (r: (
        Commander,
        Message,
    ))
        requires
            1 <= n_acceptors < 0x4000_0000,
        ensures
            r.0.wf(),
            r.0.leader_id == leader_id,
            r.0.proposal == proposal,
            r.0.n_acceptors == n_acceptors,
            !r.0.done,
            r.0.outstanding == n_acceptors,
            r.1 == Message::Phase2a(leader_id, proposal),
    {
        let msg = Message::Phase2a(leader_id, proposal.clone());
        let commander = Commander {
            leader_id,
            proposal,
            n_acceptors,
            waitfor: all_waiting(n_acceptors),
            outstanding: n_acceptors,
            done: false,
        };
        (commander, msg)
    }

    /// Handle one `Phase2b(_, acceptor_id, acc_ballot)`.
    ///
    /// An acknowledgement carrying the proposal's own ballot strikes its
    /// sender off `waitfor`; once a strict majority of the acceptors has
    /// acknowledged, the decision goes to every replica (`r.0`) and
    /// `Committed` to the leader (`r.1`). Any other ballot preempts the
    /// commander immediately.
    pub fn handle_p2b(&mut self, acceptor_id: usize, acc_ballot: Ballot) -> (r: (
        Option<Message>,
        Option<Agent>,
    ))
        requires
            old(self).wf(),
        ensures
            final(self).wf(),
            final(self).leader_id == old(self).leader_id,
            final(self).proposal == old(self).proposal,
            final(self).n_acceptors == old(self).n_acceptors,
            old(self).done ==> *final(self) == *old(self) && r.0 is None && r.1 is None,
            !old(self).done && acc_ballot == old(self).proposal.ballot ==> ({
                let w2 = if acceptor_id < old(self).n_acceptors && old(
                    self,
                ).waitfor@[acceptor_id as int] {
                    old(self).waitfor@.update(acceptor_id as int, false)
                } else {
                    old(self).waitfor@
                };
                &&& final(self).waitfor@ == w2
                &&& (r.1 is Some <==> 2 * count_true(w2) < old(self).n_acceptors)
            }),
            match r.1 {
                Some(Agent::Committed) => {
                    &&& !old(self).done
                    &&& final(self).done
                    &&& acc_ballot == old(self).proposal.ballot
                    &&& 2 * responded_set(final(self).waitfor@).len() > final(self).n_acceptors
                    &&& r.0 matches Some(m) && m == Message::Decision(
                        old(self).proposal.slot,
                        old(self).proposal.command,
                    )
                },
                Some(Agent::Preempted(blt)) => {
                    &&& !old(self).done
                    &&& final(self).done
                    &&& blt == acc_ballot
                    &&& acc_ballot != old(self).proposal.ballot
                    &&& r.0 is None
                    &&& final(self).waitfor == old(self).waitfor
                    &&& final(self).outstanding == old(self).outstanding
                },
                Some(Agent::Adopted(_, _)) => false,
                None => r.0 is None && (!old(self).done ==> {
                    &&& acc_ballot == old(self).proposal.ballot
                    &&& !final(self).done
                    &&& 2 * final(self).outstanding >= final(self).n_acceptors
                }),
            },
    {
        if self.done {
            return (None, None);
        }
        if acc_ballot.num == self.proposal.ballot.num && acc_ballot.leader_id
            == self.proposal.ballot.leader_id {
            if acceptor_id < self.n_acceptors && self.waitfor[acceptor_id] {
                proof {
                    lemma_count_true_update(self.waitfor@, acceptor_id as int);
                    lemma_count_true_bounds(self.waitfor@.update(acceptor_id as int, false));
                }
                self.waitfor.set(acceptor_id, false);
                self.outstanding = self.outstanding - 1;
            }
            proof {
                lemma_count_true_bounds(self.waitfor@);
            }
            if 2 * self.outstanding < self.n_acceptors {
                self.done = true;
                proof {
                    lemma_responded_count(self.waitfor@);
                }
                let decision = Message::Decision(
                    self.proposal.slot,
                    self.proposal.command.clone(),
                );
                return (Some(decision), Some(Agent::Committed));
            }
            (None, None)
        } else {
            self.done = true;
            (None, Some(Agent::Preempted(acc_ballot)))
        }
    }
}

/// The leader: one ballot, one activity flag, and its belief of what should
/// be decided at each slot.
pub struct Leader {
    /// Unique among all leaders.
    pub id: usize,
    /// What should be decided at each slot, by the leader's lights.
    pub proposals: SlotMap<Command>,
    /// Whether this leader currently believes its ballot is adopted.
    pub active: bool,
    /// The leader's own current ballot.
    pub ballot: Ballot,
}

impl Leader {
    pub open spec fn wf(&self) -> bool {
        self.proposals.wf()
    }

    /// A fresh leader starts passive at ballot `(0, id)`.
    pub fn new(id: usize) -> (r: Leader)
        ensures
            r.wf(),
            r.id == id,
            !r.active,
            r.ballot == (Ballot { num: 0, leader_id: id }),
            r.proposals@ == (Map::<int, Command>::empty()),
    {
        Leader { id, proposals: SlotMap::new(), active: false, ballot: Ballot::new(0, id) }
    }

    /// Merge the adopted maxima into the proposal map: at every slot the
    /// maxima cover, the adopted command replaces whatever was believed
    /// there; other slots keep their commands.
    #[verifier::loop_isolation(false)]
    pub fn update(&mut self, pmax: &SlotMap<Proposal>)
        requires
            old(self).wf(),
            pmax.wf(),
        ensures
            final(self).wf(),
            final(self).id == old(self).id,
            final(self).active == old(self).active,
            final(self).ballot == old(self).ballot,
            forall|k: int| #![all_triggers]
                final(self).proposals@.contains_key(k) <==> old(self).proposals@.contains_key(k)
                    || pmax@.contains_key(k),
            forall|k: int|
                pmax@.contains_key(k) ==> final(self).proposals@[k] == (#[trigger] pmax@[k]).command,
            forall|k: int| #![all_triggers]
                old(self).proposals@.contains_key(k) && !pmax@.contains_key(k)
                    ==> final(self).proposals@[k] == old(self).proposals@[k],
    {
        let n = pmax.len();
        let mut i: usize = 0;
        while i < n
            invariant
                pmax.wf(),
                n == pmax.entries_seq().len(),
                i <= n,
                self.proposals.wf(),
                self.id == old(self).id,
                self.active == old(self).active,
                self.ballot == old(self).ballot,
                forall|k: int|
                    self.proposals@.contains_key(k) <==> old(self).proposals@.contains_key(k)
                        || exists|j: int|
                        0 <= j < i && (#[trigger] pmax.entries_seq()[j]).0 == k,
                forall|j: int|
                    0 <= j < i ==> self.proposals@.contains_key(
                        (#[trigger] pmax.entries_seq()[j]).0 as int,
                    ) && self.proposals@[pmax.entries_seq()[j].0 as int]
                        == pmax.entries_seq()[j].1.command,
                forall|k: int|
                    self.proposals@.contains_key(k) && !(exists|j: int|
                        0 <= j < i && (#[trigger] pmax.entries_seq()[j]).0 == k)
                        ==> old(self).proposals@.contains_key(k) && self.proposals@[k] == old(
                        self,
                    ).proposals@[k],
            decreases n - i,
        {
            let slot = pmax.key_at(i);
            let prop: &Proposal = pmax.val_at(i);
            self.proposals.insert(slot, prop.command.clone());
            proof {
                assert forall|j: int|
                    0 <= j < i + 1 implies self.proposals@.contains_key(
                    (#[trigger] pmax.entries_seq()[j]).0 as int,
                ) && self.proposals@[pmax.entries_seq()[j].0 as int]
                    == pmax.entries_seq()[j].1.command by {
                    if j < i && pmax.entries_seq()[j].0 == slot {
                        pmax.lemma_key_unique(j, i as int);
                    }
                }
            }
            i = i + 1;
        }
        proof {
            assert forall|k: int|
                self.proposals@.contains_key(k) <==> old(self).proposals@.contains_key(k)
                    || pmax@.contains_key(k) by {
                if pmax@.contains_key(k) {
                    pmax.lemma_idx_of(k);
                }
                if exists|j: int|
                    0 <= j < i && (#[trigger] pmax.entries_seq()[j]).0 == k {
                    let j = choose|j: int|
                        0 <= j < i && (#[trigger] pmax.entries_seq()[j]).0 == k;
                    pmax.lemma_entry(j);
                }
            }
            assert forall|k: int| pmax@.contains_key(k) implies self.proposals@[k] == (
            #[trigger] pmax@[k]).command by {
                pmax.lemma_idx_of(k);
                let j = pmax.idx_of(k);
                assert(self.proposals@[pmax.entries_seq()[j].0 as int] == pmax.entries_seq()[j].1.command);
            }
            assert forall|k: int|
                old(self).proposals@.contains_key(k) && !pmax@.contains_key(k)
                    implies self.proposals@[k] == old(self).proposals@[k] by {
                if exists|j: int|
                    0 <= j < i && (#[trigger] pmax.entries_seq()[j]).0 == k {
                    let j = choose|j: int|
                        0 <= j < i && (#[trigger] pmax.entries_seq()[j]).0 == k;
                    pmax.lemma_entry(j);
                }
            }
        }
    }

    /// The ballot was adopted: fold the reported per-slot highest-ballot
    /// commands into the proposal map, go active, and return one fresh
    /// proposal per believed slot — each under the leader's own ballot —
    /// for a commander apiece.
    #[verifier::loop_isolation(false)]
    pub fn handle_adopted(&mut self, pvals: &SlotMap<Vec<Proposal>>) -> (r: Vec<Proposal>)
        requires
            old(self).wf(),
            pvals.wf(),
            rows_nonempty(pval_rows(pvals@)),
        ensures
            final(self).wf(),
            final(self).id == old(self).id,
            final(self).ballot == old(self).ballot,
            final(self).active,
            forall|k: int| #![all_triggers]
                final(self).proposals@.contains_key(k) <==> old(self).proposals@.contains_key(k)
                    || pvals@.contains_key(k),
            forall|k: int|
                pvals@.contains_key(k) ==> final(self).proposals@[k] == max_by_ballot(
                    (#[trigger] pvals@[k])@,
                ).command,
            forall|k: int| #![all_triggers]
                old(self).proposals@.contains_key(k) && !pvals@.contains_key(k)
                    ==> final(self).proposals@[k] == old(self).proposals@[k],
            r@.len() == final(self).proposals.entries_seq().len(),
            forall|j: int|
                0 <= j < r@.len() ==> r@[j] == (Proposal {
                    slot: (#[trigger] final(self).proposals.entries_seq()[j]).0,
                    ballot: old(self).ballot,
                    command: final(self).proposals.entries_seq()[j].1,
                }),
    {
        let pmax = get_pmax(pvals);
        self.update(&pmax);
        self.active = true;
        let n = self.proposals.len();
        let mut out: Vec<Proposal> = Vec::new();
        let mut i: usize = 0;
        while i < n
            invariant
                self.wf(),
                n == self.proposals.entries_seq().len(),
                i <= n,
                out@.len() == i,
                forall|j: int|
                    0 <= j < i ==> out@[j] == (Proposal {
                        slot: (#[trigger] self.proposals.entries_seq()[j]).0,
                        ballot: self.ballot,
                        command: self.proposals.entries_seq()[j].1,
                    }),
            decreases n - i,
        {
            let slot = self.proposals.key_at(i);
            let cmd = self.proposals.val_at(i).clone();
            out.push(Proposal { slot, ballot: self.ballot, command: cmd });
            i = i + 1;
        }
        out
    }

    /// A higher ballot was seen: go passive and move the own ballot just
    /// past it, keeping the own leader id. Stale preemptions are ignored.
    /// The returned ballot, if any, re-arms the scout.
    pub fn handle_preempted(&mut self, blt: Ballot) -> (r: Option<Ballot>)
        requires
            old(self).wf(),
            blt.num < usize::MAX,
        ensures
            final(self).wf(),
            final(self).id == old(self).id,
            final(self).proposals == old(self).proposals,
            ballot_le(old(self).ballot, final(self).ballot),
            if ballot_lt(old(self).ballot, blt) {
                &&& !final(self).active
                &&& final(self).ballot == (Ballot {
                    num: (blt.num + 1) as usize,
                    leader_id: old(self).ballot.leader_id,
                })
                &&& r == Some(final(self).ballot)
            } else {
                &&& final(self).active == old(self).active
                &&& final(self).ballot == old(self).ballot
                &&& r is None
            },
    {
        if self.ballot.lt(&blt) {
            self.active = false;
            self.ballot = Ballot { num: blt.num + 1, leader_id: self.ballot.leader_id };
            Some(self.ballot)
        } else {
            None
        }
    }

    /// An inbound `Propose(slot, command)`: record the command at the slot
    /// (overwriting any earlier belief there) and, if the leader is active,
    /// return the proposal a commander should drive.
    pub fn handle_propose(&mut self, slot: usize, command: Command) -> (r: Option<Proposal>)
        requires
            old(self).wf(),
        ensures
            final(self).wf(),
            final(self).id == old(self).id,
            final(self).active == old(self).active,
            final(self).ballot == old(self).ballot,
            final(self).proposals@ == old(self).proposals@.insert(slot as int, command),
            r == if old(self).active {
                Some(Proposal { slot, ballot: old(self).ballot, command })
            } else {
                Option::<Proposal>::None
            },
    {
        let prop = Proposal { slot, ballot: self.ballot, command: command.clone() };
        self.proposals.insert(slot, command);
        if self.active {
            Some(prop)
        } else {
            None
        }
    }
}

} // verus!
