//! The Paxos acceptor: one ballot, a list of accepted proposals, and the
//! promise/accept protocol over them.

use vstd::prelude::*;
use crate::paxos::{ballot_le, ballot_lt, proposal_cmp, Ballot, Message, Proposal};
use itertools::Itertools;

verus! {

/// One step of the left-to-right scan behind `latest_accepts_spec`: every
/// element tying the front of the accumulator is kept, a strictly greater
/// element restarts the accumulator, a smaller one is dropped.
pub open spec fn max_set_fold(acc: Seq<Proposal>, rest: Seq<Proposal>) -> Seq<Proposal>
    decreases rest.len(),
{
    if rest.len() == 0 {
        acc
    } else {
        let x = rest[0];
        let acc2 = if acc.len() == 0 {
            seq![x]
        } else {
            match proposal_cmp(acc[0], x) {
                core::cmp::Ordering::Less => seq![x],
                core::cmp::Ordering::Equal => acc.push(x),
                core::cmp::Ordering::Greater => acc,
            }
        };
        max_set_fold(acc2, rest.skip(1))
    }
}

/// All proposals tied for the maximum under `proposal_cmp`, scanning the
/// accepted list in order. Because that ordering falls back to `Equal`
/// across slots, this degrades to ties within the globally-maximal
/// comparable proposal — a coarse behaviour that is part of the protocol.
pub open spec fn latest_accepts_spec(s: Seq<Proposal>) -> Seq<Proposal> {
    max_set_fold(Seq::empty(), s)
}

/// Relies on itertools' `Itertools::max_set_by`: it seeds the result with
/// the first element, then for each further element compares it against the
/// first kept element, restarting the result on `Less`, appending on
/// `Equal` and skipping on `Greater` — exactly the fold `max_set_fold`,
/// with the comparison given here being `Proposal::cmp`.
#[verifier::external_body]
fn max_set_by_cmp(props: &Vec<Proposal>) -> (r: Vec<Proposal>)
    ensures
        r@ == latest_accepts_spec(props@),
{
    props.iter().max_set_by(|a, b| Proposal::cmp(*a, *b)).into_iter().cloned().collect()
}

/// How a handled message moves an acceptor's ballot: a `Phase1a` raises it
/// to the requested ballot if that one is higher; nothing else touches it.
pub open spec fn acceptor_ballot_after(b: Ballot, req: Message) -> Ballot {
    match req {
        Message::Phase1a(_lid, blt) => if ballot_lt(b, blt) {
            blt
        } else {
            b
        },
        _ => b,
    }
}

/// The ballot after a whole sequence of handled messages.
pub open spec fn acceptor_ballot_fold(b: Ballot, reqs: Seq<Message>) -> Ballot
    decreases reqs.len(),
{
    if reqs.len() == 0 {
        b
    } else {
        acceptor_ballot_fold(acceptor_ballot_after(b, reqs[0]), reqs.skip(1))
    }
}

/// An acceptor's ballot never decreases, whatever sequence of messages it
/// handles: each `handle` call ensures its new ballot is
/// `acceptor_ballot_after` of the old one, and folding that over any
/// message sequence only moves the ballot up.
pub proof fn lemma_acceptor_ballot_monotonic(b: Ballot, reqs: Seq<Message>)
    ensures
        ballot_le(b, acceptor_ballot_fold(b, reqs)),
    decreases reqs.len(),
{
    if reqs.len() != 0 {
        lemma_acceptor_ballot_monotonic(acceptor_ballot_after(b, reqs[0]), reqs.skip(1));
    }
}

/// What `receive_p1` does: adopt the higher ballot and report the current
/// ballot together with the latest accepted proposals.
pub open spec fn p1_post(pre: Acceptor, post: Acceptor, ballot: Ballot, r: Message) -> bool {
    &&& post.id == pre.id
    &&& post.accepted == pre.accepted
    &&& post.ballot == if ballot_lt(pre.ballot, ballot) {
        ballot
    } else {
        pre.ballot
    }
    &&& r matches Message::Phase1b(lid, aid, blt, accs) && lid == ballot.leader_id && aid == pre.id
        && blt == post.ballot && accs@ == latest_accepts_spec(pre.accepted@)
}

/// What `receive_p2` does: append the proposal exactly when its ballot
/// matches the current one, and always acknowledge with `Phase2b`.
pub open spec fn p2_post(
    pre: Acceptor,
    post: Acceptor,
    leader_id: usize,
    proposal: Proposal,
    r: Message,
) -> bool {
    &&& post.id == pre.id
    &&& post.ballot == pre.ballot
    &&& post.accepted@ == if proposal.ballot == pre.ballot {
        pre.accepted@.push(proposal)
    } else {
        pre.accepted@
    }
    &&& r == Message::Phase2b(leader_id, pre.id, proposal.ballot)
}

/// Acceptor state: a single monotonically non-decreasing ballot and the
/// multiset of proposals ever accepted, in acceptance order.
pub struct Acceptor {
    /// Unique among all acceptors.
    pub id: usize,
    /// The current ballot; only promise handling ever raises it.
    pub ballot: Ballot,
    /// Every proposal accepted so far, appended in order.
    pub accepted: Vec<Proposal>,
}

impl Acceptor {
    pub fn new(id: usize) -> (r: Acceptor)
        ensures
            r.id == id,
            r.ballot == (Ballot { num: 0, leader_id: 0 }),
            r.accepted@ == Seq::<Proposal>::empty(),
    {
        Acceptor { id, ballot: Ballot::new(0, 0), accepted: Vec::new() }
    }

    /// The maximal subset of `accepted` under the proposal ordering.
    pub fn get_latest_accepts(&self) -> (r: Vec<Proposal>)
        ensures
            r@ == latest_accepts_spec(self.accepted@),
    {
        max_set_by_cmp(&self.accepted)
    }

    /// Promise: adopt the ballot if it is higher, and report the current
    /// ballot with the latest accepted proposals.
    pub fn receive_p1(&mut self, ballot: Ballot) -> (r: Message)
        ensures
            p1_post(*old(self), *final(self), ballot, r),
            ballot_le(old(self).ballot, final(self).ballot),
    {
        if self.ballot.lt(&ballot) {
            self.ballot = ballot;
        }
        Message::Phase1b(ballot.leader_id, self.id, self.ballot, self.get_latest_accepts())
    }

    /// Accept: record the proposal if its ballot matches the current one,
    /// and always acknowledge.
    pub fn receive_p2(&mut self, leader_id: usize, proposal: Proposal) -> (r: Message)
        ensures
            p2_post(*old(self), *final(self), leader_id, proposal, r),
            ballot_le(old(self).ballot, final(self).ballot),
    {
        let matches_current = proposal.ballot.num == self.ballot.num
            && proposal.ballot.leader_id == self.ballot.leader_id;
        let blt = proposal.ballot;
        if matches_current {
            self.accepted.push(proposal);
        }
        Message::Phase2b(leader_id, self.id, blt)
    }

    /// Handle one inbound message. Only `Phase1a` and `Phase2a` are valid
    /// input to an acceptor; anything else is a protocol violation, which
    /// the caller must treat as fatal before calling.
    pub fn handle(&mut self, req: Message) -> (r: Message)
        requires
            req matches Message::Phase1a(_, _) || req matches Message::Phase2a(_, _),
        ensures
            match req {
                Message::Phase1a(_lid, blt) => p1_post(*old(self), *final(self), blt, r),
                Message::Phase2a(lid, prop) => p2_post(*old(self), *final(self), lid, prop, r),
                _ => false,
            },
            final (self).ballot == acceptor_ballot_after(old(self).ballot, req),
            ballot_le(old(self).ballot, final(self).ballot),
    {
        match req {
            Message::Phase1a(_num, ballot) => self.receive_p1(ballot),
            Message::Phase2a(lid, prop) => self.receive_p2(lid, prop),
            _ => unreached(),
        }
    }
}

} // verus!
