use dc_project::raft::server::{Outbound, Server, ServerState};
use dc_project::raft::{Campaign, ClientAddr, Command, Heartbeat, Log, Message, Replicate, Reply, Timer};

fn addr(port: u16) -> ClientAddr {
    ClientAddr { ip: 0x7f000001, port }
}

fn rcmd(port: u16, op_id: usize, op: &str) -> Command {
    Command { client: addr(port), op_id, op: op.to_string() }
}

fn heartbeat(term: usize, leader_id: usize, prev_i: usize, prev_t: usize, commit: usize) -> Replicate {
    Replicate {
        hb: Heartbeat {
            term,
            leader_id,
            prev_log_index: prev_i,
            prev_log_term: prev_t,
            leader_commit: commit,
        },
        entries: Vec::new(),
    }
}

fn make_candidate(server: &mut Server, term: usize) {
    for _ in 0..term {
        let fx = server.handle_timer(Timer::Election);
        assert!(fx.reset_election);
    }
}

#[test]
fn new_server_is_follower_with_sentinel_log() {
    let s = Server::new(0, vec![1, 2]);
    assert_eq!(s.state, ServerState::Follower);
    assert_eq!(s.current_term, 0);
    assert_eq!(s.log.len(), 1);
    assert_eq!(s.log[0].term, 0);
    assert!(s.log[0].command.is_none());
    assert_eq!(s.commit_index, 0);
    assert_eq!(s.last_applied, 0);
}

#[test]
fn election_timeout_starts_campaign() {
    let mut s = Server::new(0, vec![1, 2]);
    let fx = s.handle_timer(Timer::Election);
    assert_eq!(s.current_term, 1);
    assert_eq!(s.state, ServerState::Candidate(1));
    assert_eq!(s.voted_for, Some(0));
    assert!(fx.reset_election && !fx.reset_heartbeat);
    assert_eq!(fx.sends.len(), 2);
    match &fx.sends[0] {
        Outbound::Peer(p, Message::Campaign(c)) => {
            assert_eq!(*p, 1);
            assert_eq!(c.term, 1);
            assert_eq!(c.candidate_id, 0);
            assert_eq!(c.last_log_index, 0);
            assert_eq!(c.last_log_term, 0);
        },
        _ => panic!("expected a campaign to peer 1"),
    }
}

#[test]
fn candidate_crowns_on_majority() {
    // Scenario: candidate at term 3 with 2 peers; one success reply makes
    // the vote count 2, which exceeds (2+1)/2 = 1, so it becomes leader
    let mut s = Server::new(0, vec![1, 2]);
    make_candidate(&mut s, 3);
    assert_eq!(s.current_term, 3);
    assert_eq!(s.state, ServerState::Candidate(1));
    let fx = s.handle_reply(Reply { from: 1, success: true, term: 3 });
    assert_eq!(s.state, ServerState::Leader);
    assert!(fx.reset_heartbeat);
    // the coronation heartbeat goes to every peer
    assert_eq!(fx.sends.len(), 2);
    match &fx.sends[0] {
        Outbound::Peer(1, Message::Heartbeat(rep)) => {
            assert_eq!(rep.hb.term, 3);
            assert!(rep.entries.is_empty());
        },
        _ => panic!("expected a heartbeat to peer 1"),
    }
}

#[test]
fn candidate_needs_a_majority() {
    // with 4 peers (5 servers) one extra vote is not enough
    let mut s = Server::new(0, vec![1, 2, 3, 4]);
    make_candidate(&mut s, 1);
    let fx = s.handle_reply(Reply { from: 1, success: true, term: 1 });
    assert_eq!(s.state, ServerState::Candidate(2));
    assert!(fx.sends.is_empty());
    let _ = s.handle_reply(Reply { from: 2, success: true, term: 1 });
    assert_eq!(s.state, ServerState::Leader);
}

#[test]
fn candidate_steps_down_on_newer_term() {
    let mut s = Server::new(0, vec![1, 2]);
    make_candidate(&mut s, 1);
    let _ = s.handle_reply(Reply { from: 1, success: false, term: 5 });
    assert_eq!(s.state, ServerState::Follower);
    assert_eq!(s.current_term, 5);
    assert_eq!(s.voted_for, None);
    // a stale failure reply changes nothing
    let mut s2 = Server::new(0, vec![1, 2]);
    make_candidate(&mut s2, 3);
    let _ = s2.handle_reply(Reply { from: 1, success: false, term: 1 });
    assert_eq!(s2.current_term, 3);
    assert_eq!(s2.state, ServerState::Candidate(1));
}

#[test]
fn follower_rejects_short_log_heartbeat() {
    // Scenario: follower log has indices 0..=4; prev_log_index 6 is beyond it
    let mut s = Server::new(0, vec![1]);
    for i in 1..5 {
        s.log.push(Log { term: 0, command: Some(rcmd(9000, i, "x")) });
    }
    assert_eq!(s.log.len(), 5);
    let fx = s.handle_heartbeat(heartbeat(0, 1, 6, 0, 0));
    assert_eq!(fx.sends.len(), 1);
    match &fx.sends[0] {
        Outbound::Sender(Message::ServerReply(r)) => {
            assert!(!r.success);
            assert_eq!(r.from, 0);
        },
        _ => panic!("expected a failure reply to the sender"),
    }
    assert!(!fx.reset_election);
    assert_eq!(s.log.len(), 5);
}

#[test]
fn follower_accepts_heartbeat_and_splices() {
    let mut s = Server::new(0, vec![1]);
    let e1 = Log { term: 2, command: Some(rcmd(9000, 0, "a")) };
    let e2 = Log { term: 2, command: Some(rcmd(9000, 1, "b")) };
    let rep = Replicate {
        hb: Heartbeat { term: 2, leader_id: 1, prev_log_index: 0, prev_log_term: 0, leader_commit: 0 },
        entries: vec![(1, e1), (2, e2)],
    };
    let fx = s.handle_heartbeat(rep);
    assert_eq!(s.state, ServerState::Follower);
    assert_eq!(s.current_term, 2);
    assert_eq!(s.voted_for, Some(1));
    assert_eq!(s.log.len(), 3);
    assert_eq!(s.log[1].term, 2);
    assert!(fx.reset_election);
    match fx.sends.last() {
        Some(Outbound::Sender(Message::ServerReply(r))) => {
            assert!(r.success);
            assert_eq!(r.term, 2);
        },
        _ => panic!("expected a success reply"),
    }
}

#[test]
fn follower_overwrites_conflicting_entries() {
    let mut s = Server::new(0, vec![1]);
    s.log.push(Log { term: 1, command: Some(rcmd(9000, 0, "stale")) });
    let fresh = Log { term: 3, command: Some(rcmd(9000, 0, "fresh")) };
    let rep = Replicate {
        hb: Heartbeat { term: 3, leader_id: 1, prev_log_index: 0, prev_log_term: 0, leader_commit: 0 },
        entries: vec![(1, fresh)],
    };
    let _ = s.handle_heartbeat(rep);
    assert_eq!(s.log.len(), 2);
    assert_eq!(s.log[1].term, 3);
    assert_eq!(s.log[1].command.as_ref().unwrap().op, "fresh");
}

#[test]
fn follower_advances_commit_to_leaders() {
    let mut s = Server::new(0, vec![1]);
    let e1 = Log { term: 1, command: Some(rcmd(9000, 0, "a")) };
    let rep = Replicate {
        hb: Heartbeat { term: 1, leader_id: 1, prev_log_index: 0, prev_log_term: 0, leader_commit: 7 },
        entries: vec![(1, e1)],
    };
    let _ = s.handle_heartbeat(rep);
    // commit is capped by the local log's last index
    assert_eq!(s.commit_index, 1);
    assert_eq!(s.last_applied, 1);
}

#[test]
fn stale_heartbeat_is_rejected_without_state_change() {
    let mut s = Server::new(0, vec![1]);
    make_candidate(&mut s, 4);
    let fx = s.handle_heartbeat(heartbeat(2, 1, 0, 0, 0));
    assert_eq!(s.current_term, 4);
    assert_eq!(s.state, ServerState::Candidate(1));
    match &fx.sends[0] {
        Outbound::Sender(Message::ServerReply(r)) => {
            assert!(!r.success);
            assert_eq!(r.term, 4);
        },
        _ => panic!("expected a failure reply"),
    }
}

#[test]
fn vote_granted_once_per_term() {
    let mut s = Server::new(0, vec![1, 2]);
    let c1 = Campaign { term: 1, candidate_id: 1, last_log_index: 0, last_log_term: 0 };
    let fx = s.handle_campaign(c1);
    assert_eq!(s.voted_for, Some(1));
    assert_eq!(s.current_term, 1);
    assert!(fx.reset_election);
    match &fx.sends[0] {
        Outbound::Sender(Message::ServerReply(r)) => assert!(r.success),
        _ => panic!("expected a reply"),
    }
    // another candidate at the same term is refused silently
    let c2 = Campaign { term: 1, candidate_id: 2, last_log_index: 0, last_log_term: 0 };
    let fx = s.handle_campaign(c2);
    assert_eq!(s.voted_for, Some(1));
    assert!(fx.sends.is_empty());
    // the same candidate may be granted again
    let fx = s.handle_campaign(c1);
    assert_eq!(fx.sends.len(), 1);
    assert_eq!(s.voted_for, Some(1));
}

#[test]
fn stale_campaign_is_rejected() {
    let mut s = Server::new(0, vec![1]);
    make_candidate(&mut s, 3);
    let c = Campaign { term: 1, candidate_id: 1, last_log_index: 9, last_log_term: 1 };
    let fx = s.handle_campaign(c);
    match &fx.sends[0] {
        Outbound::Sender(Message::ServerReply(r)) => {
            assert!(!r.success);
            assert_eq!(r.term, 3);
        },
        _ => panic!("expected a failure reply"),
    }
    // the reject does not clear the vote this server cast for itself
    assert_eq!(s.voted_for, Some(0));
}

#[test]
fn short_candidate_log_is_refused() {
    let mut s = Server::new(0, vec![1]);
    s.log.push(Log { term: 0, command: Some(rcmd(9000, 0, "x")) });
    // same term, candidate's log shorter than ours: abstain
    let c = Campaign { term: 0, candidate_id: 1, last_log_index: 0, last_log_term: 0 };
    let fx = s.handle_campaign(c);
    assert!(fx.sends.is_empty());
    assert_eq!(s.voted_for, None);
}

#[test]
fn leader_appends_and_replicates_requests() {
    let mut s = Server::new(0, vec![1, 2]);
    make_candidate(&mut s, 1);
    let _ = s.handle_reply(Reply { from: 1, success: true, term: 1 });
    assert_eq!(s.state, ServerState::Leader);
    let fx = s.handle_request(rcmd(9100, 0, "put"));
    assert_eq!(s.log.len(), 2);
    assert!(fx.reset_heartbeat);
    assert_eq!(fx.sends.len(), 2);
    match &fx.sends[0] {
        Outbound::Peer(_, Message::Heartbeat(rep)) => {
            // next_index was reset to the old log length at coronation, so
            // the suffix starts at the entry the peer is known to hold
            assert_eq!(rep.hb.prev_log_index, 0);
            assert_eq!(rep.entries.len(), 2);
            assert_eq!(rep.entries[1].0, 1);
        },
        _ => panic!("expected replication"),
    }
}

#[test]
fn leader_commits_on_majority_acknowledgement() {
    let mut s = Server::new(0, vec![1, 2]);
    make_candidate(&mut s, 1);
    let _ = s.handle_reply(Reply { from: 1, success: true, term: 1 });
    let _ = s.handle_request(rcmd(9100, 7, "put"));
    assert_eq!(s.commit_index, 0);
    let fx = s.handle_reply(Reply { from: 2, success: true, term: 1 });
    // one peer plus the leader is 2 of 3: entry 1 commits and is applied
    assert_eq!(s.commit_index, 1);
    assert_eq!(s.last_applied, 1);
    // the leader answers the client directly
    assert_eq!(fx.sends.len(), 1);
    match &fx.sends[0] {
        Outbound::Client(a, Message::Response(c)) => {
            assert_eq!(*a, addr(9100));
            assert_eq!(c.op_id, 7);
        },
        _ => panic!("expected a client response"),
    }
}

#[test]
fn leader_backs_off_next_index_on_failure() {
    let mut s = Server::new(0, vec![1]);
    make_candidate(&mut s, 1);
    let _ = s.handle_reply(Reply { from: 1, success: true, term: 1 });
    let _ = s.handle_request(rcmd(9100, 0, "a"));
    let _ = s.handle_request(rcmd(9100, 1, "b"));
    assert_eq!(s.log.len(), 3);
    // the follower's log mismatched: retry from one entry earlier
    let fx = s.handle_reply(Reply { from: 1, success: false, term: 1 });
    assert!(fx.reset_heartbeat);
    assert_eq!(fx.sends.len(), 1);
    match &fx.sends[0] {
        Outbound::Peer(1, Message::Heartbeat(rep)) => {
            assert_eq!(rep.hb.prev_log_index, 0);
            assert_eq!(rep.entries.len(), 3);
        },
        _ => panic!("expected replication"),
    }
}

#[test]
fn leader_steps_down_on_newer_term_reply() {
    let mut s = Server::new(0, vec![1, 2]);
    make_candidate(&mut s, 1);
    let _ = s.handle_reply(Reply { from: 1, success: true, term: 1 });
    let _ = s.handle_reply(Reply { from: 2, success: false, term: 9 });
    assert_eq!(s.state, ServerState::Follower);
    assert_eq!(s.current_term, 9);
}

#[test]
fn follower_forwards_requests_to_recognized_leader() {
    let mut s = Server::new(0, vec![1]);
    let _ = s.handle_heartbeat(heartbeat(1, 1, 0, 0, 0));
    let fx = s.handle_request(rcmd(9100, 0, "fwd"));
    assert_eq!(fx.sends.len(), 1);
    match &fx.sends[0] {
        Outbound::Peer(1, Message::Request(c)) => assert_eq!(c.op, "fwd"),
        _ => panic!("expected a forward to the leader"),
    }
}

#[test]
fn queued_requests_flush_on_heartbeat_acceptance() {
    let mut s = Server::new(0, vec![1]);
    // no leader known yet: requests queue up
    let fx = s.handle_request(rcmd(9100, 0, "a"));
    assert!(fx.sends.is_empty());
    let fx = s.handle_request(rcmd(9100, 1, "b"));
    assert!(fx.sends.is_empty());
    assert_eq!(s.pending.len(), 2);
    let fx = s.handle_heartbeat(heartbeat(1, 1, 0, 0, 0));
    assert!(s.pending.is_empty());
    // both queued requests go to the new leader, then the success reply
    assert_eq!(fx.sends.len(), 3);
    assert!(matches!(&fx.sends[0], Outbound::Peer(1, Message::Request(_))));
    assert!(matches!(&fx.sends[1], Outbound::Peer(1, Message::Request(_))));
    assert!(matches!(&fx.sends[2], Outbound::Sender(Message::ServerReply(_))));
}

#[test]
fn heartbeat_tick_only_matters_to_leaders() {
    let mut s = Server::new(0, vec![1, 2]);
    let fx = s.handle_timer(Timer::Heartbeat);
    assert!(fx.sends.is_empty() && !fx.reset_heartbeat);
    make_candidate(&mut s, 1);
    let _ = s.handle_reply(Reply { from: 1, success: true, term: 1 });
    let fx = s.handle_timer(Timer::Heartbeat);
    assert!(fx.reset_heartbeat);
    assert_eq!(fx.sends.len(), 2);
}

#[test]
fn term_never_decreases() {
    let mut s = Server::new(0, vec![1, 2]);
    let mut seen = vec![s.current_term];
    make_candidate(&mut s, 2);
    seen.push(s.current_term);
    let _ = s.handle_heartbeat(heartbeat(1, 1, 0, 0, 0));
    seen.push(s.current_term);
    let _ = s.handle_campaign(Campaign { term: 6, candidate_id: 1, last_log_index: 0, last_log_term: 0 });
    seen.push(s.current_term);
    let _ = s.handle_reply(Reply { from: 1, success: false, term: 3 });
    seen.push(s.current_term);
    for w in seen.windows(2) {
        assert!(w[0] <= w[1]);
    }
}
