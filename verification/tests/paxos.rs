use dc_project::paxos::acceptor::Acceptor;
use dc_project::paxos::leader::{get_pmax, Agent, Commander, Leader, Scout};
use dc_project::paxos::replica::{Outbound, Replica, WINDOW};
use dc_project::paxos::{Ballot, ClientRequest, Command, Message, Proposal};

fn cmd(client_id: usize, op_id: usize, op: &str) -> Command {
    Command { client_id, op_id, op: op.to_string() }
}

fn prop(slot: usize, num: usize, leader_id: usize, op: &str) -> Proposal {
    Proposal { slot, ballot: Ballot::new(num, leader_id), command: cmd(0, 0, op) }
}

#[test]
fn ballot_order_is_lexicographic() {
    assert!(Ballot::new(0, 0).lt(&Ballot::new(0, 1)));
    assert!(Ballot::new(0, 9).lt(&Ballot::new(1, 0)));
    assert!(!Ballot::new(1, 0).lt(&Ballot::new(0, 9)));
    assert!(!Ballot::new(2, 3).lt(&Ballot::new(2, 3)));
    assert_eq!(Ballot::new(2, 3), Ballot::new(2, 3));
}

#[test]
fn proposal_compare_falls_back_across_slots() {
    let a = prop(1, 0, 0, "a");
    let b = prop(1, 5, 0, "b");
    let c = prop(2, 9, 9, "c");
    assert_eq!(a.cmp(&b), std::cmp::Ordering::Less);
    assert_eq!(b.cmp(&a), std::cmp::Ordering::Greater);
    // different slots are incomparable: the ordering degrades to Equal
    assert_eq!(a.cmp(&c), std::cmp::Ordering::Equal);
    assert_eq!(a, prop(1, 0, 0, "other-op"));
    assert_ne!(a, b);
}

#[test]
fn acceptor_promise_adopts_higher_ballot() {
    let mut acc = Acceptor::new(3);
    let r = acc.receive_p1(Ballot::new(1, 2));
    assert_eq!(acc.ballot, Ballot::new(1, 2));
    match r {
        Message::Phase1b(lid, aid, blt, accs) => {
            assert_eq!(lid, 2);
            assert_eq!(aid, 3);
            assert_eq!(blt, Ballot::new(1, 2));
            assert!(accs.is_empty());
        },
        _ => panic!("expected Phase1b"),
    }
    // a lower ballot does not lower the acceptor's ballot
    let r = acc.receive_p1(Ballot::new(0, 9));
    match r {
        Message::Phase1b(_, _, blt, _) => assert_eq!(blt, Ballot::new(1, 2)),
        _ => panic!("expected Phase1b"),
    }
    assert_eq!(acc.ballot, Ballot::new(1, 2));
}

#[test]
fn acceptor_accepts_only_current_ballot() {
    let mut acc = Acceptor::new(0);
    acc.receive_p1(Ballot::new(1, 0));
    let p = prop(4, 1, 0, "x");
    let r = acc.receive_p2(0, p);
    assert_eq!(acc.accepted.len(), 1);
    match r {
        Message::Phase2b(lid, aid, blt) => {
            assert_eq!((lid, aid), (0, 0));
            assert_eq!(blt, Ballot::new(1, 0));
        },
        _ => panic!("expected Phase2b"),
    }
    // stale ballot: acknowledged but not recorded
    let stale = prop(5, 0, 0, "y");
    acc.receive_p2(0, stale);
    assert_eq!(acc.accepted.len(), 1);
}

#[test]
fn acceptor_reports_maximal_accepted_set() {
    let mut acc = Acceptor::new(0);
    acc.receive_p1(Ballot::new(0, 0));
    acc.receive_p2(0, prop(1, 0, 0, "low"));
    acc.receive_p1(Ballot::new(1, 0));
    acc.receive_p2(0, prop(1, 1, 0, "high"));
    let r = acc.receive_p1(Ballot::new(2, 0));
    match r {
        Message::Phase1b(_, _, _, accs) => {
            // within slot 1, only the proposal at the higher ballot survives
            assert_eq!(accs.len(), 1);
            assert_eq!(accs[0].ballot, Ballot::new(1, 0));
        },
        _ => panic!("expected Phase1b"),
    }
}

#[test]
fn acceptor_maximal_set_keeps_cross_slot_ties() {
    // proposals in different slots compare Equal, so both are kept
    let mut acc = Acceptor::new(0);
    acc.receive_p1(Ballot::new(0, 0));
    acc.receive_p2(0, prop(1, 0, 0, "a"));
    acc.receive_p2(0, prop(2, 0, 0, "b"));
    let r = acc.receive_p1(Ballot::new(1, 0));
    match r {
        Message::Phase1b(_, _, _, accs) => assert_eq!(accs.len(), 2),
        _ => panic!("expected Phase1b"),
    }
}

#[test]
fn scout_adopts_after_strict_majority() {
    // Scenario: 3 acceptors all at ballot (0,0); leader 0 solicits them
    let b00 = Ballot::new(0, 0);
    let mut accs = vec![Acceptor::new(0), Acceptor::new(1), Acceptor::new(2)];
    let (mut scout, msg) = Scout::new(0, b00, 3);
    match msg {
        Message::Phase1a(lid, blt) => {
            assert_eq!(lid, 0);
            assert_eq!(blt, b00);
        },
        _ => panic!("expected Phase1a"),
    }
    let mut replies = Vec::new();
    for a in accs.iter_mut() {
        replies.push(a.handle(Message::Phase1a(0, b00)));
    }
    let mut emitted = Vec::new();
    for r in replies {
        match r {
            Message::Phase1b(_, aid, blt, pvals) => {
                if let Some(sig) = scout.handle_p1b(aid, blt, &pvals) {
                    emitted.push(sig);
                }
            },
            _ => panic!("expected Phase1b"),
        }
    }
    // the second reply crosses the majority; the third is ignored
    assert_eq!(emitted.len(), 1);
    match &emitted[0] {
        Agent::Adopted(blt, pv) => {
            assert_eq!(*blt, b00);
            assert_eq!(pv.len(), 0);
        },
        _ => panic!("expected Adopted"),
    }
}

#[test]
fn scout_single_reply_is_not_a_majority() {
    let b00 = Ballot::new(0, 0);
    let (mut scout, _) = Scout::new(0, b00, 3);
    assert!(scout.handle_p1b(0, b00, &Vec::new()).is_none());
    // a duplicate reply from the same acceptor does not count twice
    assert!(scout.handle_p1b(0, b00, &Vec::new()).is_none());
}

#[test]
fn scout_preempted_by_higher_ballot() {
    let b00 = Ballot::new(0, 0);
    let b51 = Ballot::new(5, 1);
    let (mut scout, _) = Scout::new(0, b00, 3);
    match scout.handle_p1b(1, b51, &Vec::new()) {
        Some(Agent::Preempted(blt)) => assert_eq!(blt, b51),
        _ => panic!("expected Preempted"),
    }
    // the round is closed until re-armed
    assert!(scout.handle_p1b(0, b00, &Vec::new()).is_none());
    let msg = scout.rearm(Ballot::new(6, 0));
    match msg {
        Message::Phase1a(0, blt) => assert_eq!(blt, Ballot::new(6, 0)),
        _ => panic!("expected Phase1a"),
    }
    assert!(scout.handle_p1b(0, Ballot::new(6, 0), &Vec::new()).is_none());
}

#[test]
fn commander_commits_after_strict_majority() {
    let p = prop(3, 1, 0, "op");
    let (mut com, msg) = Commander::new(0, p, 3);
    match msg {
        Message::Phase2a(lid, q) => {
            assert_eq!(lid, 0);
            assert_eq!(q.slot, 3);
        },
        _ => panic!("expected Phase2a"),
    }
    let b = Ballot::new(1, 0);
    let (d, sig) = com.handle_p2b(0, b);
    assert!(d.is_none() && sig.is_none());
    let (d, sig) = com.handle_p2b(1, b);
    match sig {
        Some(Agent::Committed) => {},
        _ => panic!("expected Committed"),
    }
    match d {
        Some(Message::Decision(slot, c)) => {
            assert_eq!(slot, 3);
            assert_eq!(c.op, "op");
        },
        _ => panic!("expected Decision"),
    }
    // finished: later acknowledgements are ignored
    let (d, sig) = com.handle_p2b(2, b);
    assert!(d.is_none() && sig.is_none());
}

#[test]
fn majority_of_four_needs_three() {
    let b = Ballot::new(0, 0);
    let (mut scout, _) = Scout::new(0, b, 4);
    assert!(scout.handle_p1b(0, b, &Vec::new()).is_none());
    assert!(scout.handle_p1b(1, b, &Vec::new()).is_none());
    match scout.handle_p1b(2, b, &Vec::new()) {
        Some(Agent::Adopted(_, _)) => {},
        _ => panic!("three of four acceptors are a strict majority"),
    }
}

#[test]
fn rearmed_scout_collects_afresh() {
    let b0 = Ballot::new(0, 0);
    let b1 = Ballot::new(1, 0);
    let (mut scout, _) = Scout::new(0, b0, 3);
    let report = vec![prop(3, 0, 0, "stale")];
    assert!(scout.handle_p1b(0, b0, &report).is_none());
    let _ = scout.rearm(b1);
    // the earlier round's promises and proposals are gone
    assert!(scout.handle_p1b(0, b1, &Vec::new()).is_none());
    match scout.handle_p1b(1, b1, &Vec::new()) {
        Some(Agent::Adopted(blt, pv)) => {
            assert_eq!(blt, b1);
            assert_eq!(pv.len(), 0);
        },
        _ => panic!("expected Adopted"),
    }
}

#[test]
fn commander_preempted_by_other_ballot() {
    let p = prop(3, 1, 0, "op");
    let (mut com, _) = Commander::new(0, p, 3);
    let (d, sig) = com.handle_p2b(0, Ballot::new(2, 1));
    assert!(d.is_none());
    match sig {
        Some(Agent::Preempted(blt)) => assert_eq!(blt, Ballot::new(2, 1)),
        _ => panic!("expected Preempted"),
    }
}

#[test]
fn leader_preempted_advances_ballot() {
    // Scenario: leader at ballot (5,2) preempted by (7,3) goes to (8,2)
    let mut leader = Leader::new(2);
    leader.ballot = Ballot::new(5, 2);
    leader.active = true;
    let r = leader.handle_preempted(Ballot::new(7, 3));
    assert_eq!(r, Some(Ballot::new(8, 2)));
    assert!(!leader.active);
    assert_eq!(leader.ballot, Ballot::new(8, 2));
    // a stale preemption is ignored
    let r = leader.handle_preempted(Ballot::new(3, 0));
    assert!(r.is_none());
    assert_eq!(leader.ballot, Ballot::new(8, 2));
}

#[test]
fn leader_proposes_only_while_active() {
    let mut leader = Leader::new(0);
    assert!(leader.handle_propose(4, cmd(1, 0, "a")).is_none());
    leader.active = true;
    let p = leader.handle_propose(5, cmd(1, 1, "b")).expect("active leader proposes");
    assert_eq!(p.slot, 5);
    assert_eq!(p.ballot, Ballot::new(0, 0));
    assert_eq!(p.command, cmd(1, 1, "b"));
}

#[test]
fn get_pmax_picks_highest_ballot() {
    let b0 = Ballot::new(0, 0);
    let mut accs = vec![Acceptor::new(0), Acceptor::new(1), Acceptor::new(2)];
    let (mut scout, _) = Scout::new(0, b0, 3);
    // two acceptors report different proposals for slot 1
    let report0 = vec![prop(1, 0, 0, "old")];
    let report1 = vec![prop(1, 2, 0, "new"), prop(2, 0, 0, "other")];
    let _ = accs[0].handle(Message::Phase1a(0, b0));
    let _ = accs[1].handle(Message::Phase1a(0, b0));
    assert!(scout.handle_p1b(0, b0, &report0).is_none());
    match scout.handle_p1b(1, b0, &report1) {
        Some(Agent::Adopted(_, pv)) => {
            let pmax = get_pmax(&pv);
            let p1 = pmax.get(1).expect("slot 1 present");
            assert_eq!(p1.command.op, "new");
            let p2 = pmax.get(2).expect("slot 2 present");
            assert_eq!(p2.command.op, "other");
        },
        _ => panic!("expected Adopted"),
    }
}

#[test]
fn get_pmax_orders_ballots_lexicographically() {
    // equal ballot numbers: the higher leader id wins, wherever it stands
    let mut pv = dc_project::slotmap::SlotMap::new();
    pv.insert(1, vec![prop(1, 5, 2, "right"), prop(1, 5, 1, "wrong")]);
    let pmax = get_pmax(&pv);
    let p = pmax.get(1).expect("slot 1 present");
    assert_eq!(p.ballot, Ballot::new(5, 2));
    assert_eq!(p.command.op, "right");
}

#[test]
fn leader_adopted_respawns_under_own_ballot() {
    let b0 = Ballot::new(0, 0);
    let mut leader = Leader::new(0);
    leader.handle_propose(7, cmd(9, 9, "mine"));
    let (mut scout, _) = Scout::new(0, b0, 1);
    let report = vec![prop(1, 3, 0, "won")];
    match scout.handle_p1b(0, b0, &report) {
        Some(Agent::Adopted(_, pv)) => {
            let props = leader.handle_adopted(&pv);
            assert!(leader.active);
            assert_eq!(props.len(), 2);
            for p in &props {
                // fresh proposals all carry the leader's own ballot
                assert_eq!(p.ballot, Ballot::new(0, 0));
            }
            let slots: Vec<usize> = props.iter().map(|p| p.slot).collect();
            assert!(slots.contains(&7) && slots.contains(&1));
        },
        _ => panic!("expected Adopted"),
    }
}

#[test]
fn replica_request_proposes_next_slot() {
    // Scenario: a request becomes Propose(slot_in, command) and slot_in advances by one
    let mut rep = Replica::new(0);
    let req = ClientRequest { client_id: 1, op_id: 0, op: "42".to_string() };
    let out = rep.handle_request(req, 77);
    assert_eq!(rep.slot_in, 1);
    assert_eq!(out.len(), 1);
    match &out[0] {
        Outbound::Leaders(Message::Propose(slot, c)) => {
            assert_eq!(*slot, 0);
            assert_eq!(*c, cmd(1, 0, "42"));
        },
        _ => panic!("expected Propose to the leaders"),
    }
}

#[test]
fn replica_window_bounds_outstanding_slots() {
    let mut rep = Replica::new(0);
    for i in 0..(WINDOW + 5) {
        let req = ClientRequest { client_id: 1, op_id: i, op: format!("{i}") };
        rep.handle_request(req, 7);
    }
    // never more than WINDOW slots outstanding
    assert_eq!(rep.slot_in - rep.slot_out, WINDOW);
    assert_eq!(rep.requests.len(), 5);
}

#[test]
fn replica_decision_applies_and_replies() {
    let mut rep = Replica::new(0);
    let req = ClientRequest { client_id: 1, op_id: 0, op: "42".to_string() };
    rep.handle_request(req, 77);
    let out = rep.handle_decision(0, cmd(1, 0, "42"));
    assert_eq!(rep.slot_out, 1);
    // the reply to the client comes before any new proposals
    match &out[0] {
        Outbound::Client(addr, Message::Response(op_id, _, res)) => {
            assert_eq!(*addr, 77);
            assert_eq!(*op_id, 0);
            assert_eq!(res.as_deref(), Ok("42"));
        },
        _ => panic!("expected a client response"),
    }
}

#[test]
fn replica_requeues_lost_proposal() {
    let mut rep = Replica::new(0);
    let req = ClientRequest { client_id: 1, op_id: 0, op: "mine".to_string() };
    rep.handle_request(req, 5);
    assert_eq!(rep.slot_in, 1);
    // a different command was decided at slot 0: the local one lost the race
    let out = rep.handle_decision(0, cmd(2, 0, "theirs"));
    assert_eq!(rep.slot_out, 1);
    // the lost command was re-enqueued and proposed again at the next slot
    let reproposed: Vec<&Outbound> = out
        .iter()
        .filter(|o| matches!(o, Outbound::Leaders(Message::Propose(_, c)) if c.op == "mine"))
        .collect();
    assert_eq!(reproposed.len(), 1);
    match reproposed[0] {
        Outbound::Leaders(Message::Propose(slot, _)) => assert_eq!(*slot, 1),
        _ => unreachable!(),
    }
}

#[test]
fn replica_applies_without_reply_for_unknown_client() {
    let mut rep = Replica::new(0);
    let out = rep.handle_decision(0, cmd(9, 0, "anon"));
    assert_eq!(rep.slot_out, 1);
    assert!(out.iter().all(|o| matches!(o, Outbound::Leaders(_))));
}

#[test]
fn replica_first_client_address_wins() {
    let mut rep = Replica::new(0);
    rep.handle_request(ClientRequest { client_id: 1, op_id: 0, op: "a".to_string() }, 11);
    rep.handle_request(ClientRequest { client_id: 1, op_id: 1, op: "b".to_string() }, 22);
    let out = rep.handle_decision(0, cmd(1, 0, "b"));
    match &out[0] {
        Outbound::Client(addr, _) => assert_eq!(*addr, 11),
        _ => panic!("expected a client response"),
    }
}

#[test]
fn replica_drains_contiguously() {
    let mut rep = Replica::new(0);
    // decision for slot 1 first: nothing can be applied yet
    let _ = rep.handle_decision(1, cmd(1, 1, "b"));
    assert_eq!(rep.slot_out, 0);
    // slot 0 settles: both apply in order
    let _ = rep.handle_decision(0, cmd(1, 0, "a"));
    assert_eq!(rep.slot_out, 2);
}
