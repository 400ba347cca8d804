use std::collections::BTreeMap;

use raft_core::config::Config;
use raft_core::election::VoteTally;
use raft_core::error::Error;
use raft_core::rpc::{AppendEntriesArgs, RequestVoteArgs};
use raft_core::state::{LeaderState, LogEntry, Role, State};

fn node(id: u64) -> State {
    State::new(id, String::from("/tmp/raft-state"))
}

fn entry(term: u64, command: &str) -> LogEntry {
    LogEntry { term, command: String::from(command) }
}

#[test]
fn it_works() {}

#[test]
fn fresh_state_defaults() {
    let s = node(7);
    assert_eq!(s.config.this_id, 7);
    assert_eq!(s.current_term, 0);
    assert!(s.voted_for.is_none());
    assert_eq!(s.log.len(), 0);
    assert_eq!(s.commit_index, 0);
    assert_eq!(s.last_applied, 0);
    assert!(matches!(s.role, Role::Follower));
}

#[test]
fn restart_keeps_persisted_fields() {
    let log = vec![entry(1, "a"), entry(1, "b"), entry(3, "c")];
    let s = State::from_persisted(9, String::from("/tmp/raft-state"), 4, Some(2), log);
    assert_eq!(s.current_term, 4);
    assert_eq!(s.voted_for, Some(2));
    assert_eq!(s.log.len(), 3);
    assert_eq!(s.commit_index, 0);
    assert_eq!(s.last_applied, 0);
    assert!(matches!(s.role, Role::Follower));
}

#[test]
fn error_message_not_leader() {
    assert_eq!(Error::NotLeader.message(), "not a leader");
}

#[test]
fn not_leader_refusals() {
    let mut s = node(1);
    assert_eq!(s.propose(String::from("x=1")), Err(Error::NotLeader));
    assert_eq!(s.get_next_index(&2), Err(Error::NotLeader));
    assert_eq!(s.get_match_index(&2), Err(Error::NotLeader));
    assert!(s.make_append_entries(2).is_err());
    assert!(s.advance_commit_index(&vec![2, 3]).is_err());
}

#[test]
fn leader_indices_lazily_initialized() {
    let mut s = node(1);
    s.start_election();
    s.become_leader(&vec![2, 3]);
    // become_leader seeds every given peer; an unknown peer gets the
    // lazy defaults on first reference.
    assert_eq!(s.get_next_index(&2), Ok(1));
    assert_eq!(s.get_match_index(&2), Ok(0));
    assert_eq!(s.get_next_index(&9), Ok(1));
    assert_eq!(s.get_match_index(&9), Ok(0));
    s.propose(String::from("x=1")).unwrap();
    assert_eq!(s.get_next_index(&10), Ok(2));
}

#[test]
fn term_dominance_steps_a_leader_down() {
    let mut s = node(1);
    s.start_election();
    s.become_leader(&vec![2, 3]);
    assert!(matches!(s.role, Role::Leader(_)));
    s.observe_term(5);
    assert_eq!(s.current_term, 5);
    assert!(s.voted_for.is_none());
    assert!(matches!(s.role, Role::Follower));
    // An older or equal term changes nothing.
    s.observe_term(4);
    assert_eq!(s.current_term, 5);
}

#[test]
fn vote_denied_to_less_up_to_date_candidate() {
    let log = vec![entry(1, "a"), entry(2, "b")];
    let mut voter = State::from_persisted(2, String::from("/tmp/raft-state"), 2, None, log);
    // Same last term but shorter log: denied.
    let reply = voter.handle_request_vote(&RequestVoteArgs {
        term: 3,
        candidate_id: 1,
        last_log_index: 1,
        last_log_term: 2,
    });
    assert!(!reply.vote_granted);
    assert_eq!(reply.term, 3);
    // Higher last term wins even with a shorter log.
    let reply = voter.handle_request_vote(&RequestVoteArgs {
        term: 3,
        candidate_id: 1,
        last_log_index: 1,
        last_log_term: 3,
    });
    assert!(reply.vote_granted);
}

#[test]
fn one_vote_per_term() {
    let mut voter = node(3);
    let ask = |id: u64, term: u64| RequestVoteArgs {
        term,
        candidate_id: id,
        last_log_index: 0,
        last_log_term: 0,
    };
    assert!(voter.handle_request_vote(&ask(1, 1)).vote_granted);
    // A different candidate in the same term is denied ...
    assert!(!voter.handle_request_vote(&ask(2, 1)).vote_granted);
    // ... the same candidate asking again is granted again ...
    assert!(voter.handle_request_vote(&ask(1, 1)).vote_granted);
    // ... and a new term clears the vote.
    assert!(voter.handle_request_vote(&ask(2, 2)).vote_granted);
    assert_eq!(voter.voted_for, Some(2));
    assert_eq!(voter.current_term, 2);
}

#[test]
fn stale_request_vote_rejected() {
    let mut voter = node(3);
    voter.observe_term(5);
    let reply = voter.handle_request_vote(&RequestVoteArgs {
        term: 4,
        candidate_id: 1,
        last_log_index: 0,
        last_log_term: 0,
    });
    assert!(!reply.vote_granted);
    assert_eq!(reply.term, 5);
}

#[test]
fn tally_counts_each_voter_once() {
    let mut tally = VoteTally::new(1, 1);
    assert_eq!(tally.count(), 1);
    assert!(!tally.has_majority(3));
    tally.record(2);
    tally.record(2);
    assert_eq!(tally.count(), 2);
    assert!(tally.has_majority(3));
    // A strict majority: 2 of 4 is not enough, 3 of 4 is.
    assert!(!tally.has_majority(4));
    tally.record(3);
    assert!(tally.has_majority(4));
}

#[test]
fn three_node_cluster_elects_replicates_commits_applies() {
    // A 3-node cluster; node A (id 1) times out first.
    let mut a = node(1);
    let mut b = node(2);
    let mut c = node(3);

    let args = a.start_election();
    assert_eq!(args.term, 1);
    assert!(matches!(a.role, Role::Candidate));
    let mut tally = VoteTally::new(args.term, 1);

    // B and C grant their votes: all logs are empty.
    let rb = b.handle_request_vote(&args);
    let rc = c.handle_request_vote(&args);
    assert!(rb.vote_granted && rc.vote_granted);
    a.handle_vote_reply(&mut tally, 2, &rb);
    a.handle_vote_reply(&mut tally, 3, &rc);
    assert!(tally.has_majority(3));
    a.become_leader(&vec![2, 3]);
    assert!(matches!(a.role, Role::Leader(_)));

    // A appends "x=1" at index 1 and replicates it.
    assert_eq!(a.propose(String::from("x=1")), Ok(1));
    for (id, peer) in [(2u64, &mut b), (3u64, &mut c)] {
        let ae = a.make_append_entries(id).unwrap();
        assert_eq!(ae.prev_log_index, 0);
        assert_eq!(ae.entries.len(), 1);
        let reply = peer.handle_append_entries(&ae);
        assert!(reply.success);
        assert!(!a.handle_append_reply(id, ae.prev_log_index, ae.entries.len() as u64, &reply));
    }
    assert_eq!(a.get_match_index(&2), Ok(1));
    assert_eq!(a.get_next_index(&2), Ok(2));

    // Both acknowledged: commit_index advances to 1 on A ...
    assert_eq!(a.advance_commit_index(&vec![2, 3]), Ok(1));
    assert_eq!(a.commit_index, 1);

    // ... then on B and C after the next heartbeat ...
    for (id, peer) in [(2u64, &mut b), (3u64, &mut c)] {
        let hb = a.make_append_entries(id).unwrap();
        assert_eq!(hb.entries.len(), 0);
        assert_eq!(hb.leader_commit, 1);
        assert!(peer.handle_append_entries(&hb).success);
        assert_eq!(peer.commit_index, 1);
    }

    // ... and "x=1" is applied exactly once on each.
    for s in [&mut a, &mut b, &mut c] {
        let applied = s.take_next_to_apply();
        assert_eq!(applied, Some((1, String::from("x=1"))));
        assert_eq!(s.last_applied, 1);
        assert_eq!(s.take_next_to_apply(), None);
        assert_eq!(s.last_applied, 1);
    }
}

#[test]
fn leader_backtracks_over_short_follower_log() {
    // Leader A at term 2 with three entries believes B is up to date
    // (next_index starts past its log); follower B has only two.
    let mut a = State {
        config: Config { this_id: 1, state_directory: String::from("/tmp/raft-state") },
        current_term: 2,
        voted_for: Some(1),
        log: vec![entry(1, "a"), entry(2, "b"), entry(2, "c")],
        commit_index: 0,
        last_applied: 0,
        role: Role::Leader(LeaderState {
            next_index: BTreeMap::new(),
            match_index: BTreeMap::new(),
        }),
    };
    let mut b = State::from_persisted(
        2,
        String::from("/tmp/raft-state"),
        2,
        None,
        vec![entry(1, "a"), entry(2, "b")],
    );

    // First try: prev_log_index=3, prev_log_term=2 — beyond B's log.
    let first = a.make_append_entries(2).unwrap();
    assert_eq!(first.prev_log_index, 3);
    assert_eq!(first.prev_log_term, 2);
    assert_eq!(first.entries.len(), 0);
    let reply = b.handle_append_entries(&first);
    assert!(!reply.success);
    assert_eq!(reply.conflict_index, Some(3));
    assert!(!a.handle_append_reply(2, first.prev_log_index, 0, &reply));

    // A stepped next_index back and retries with prev_log_index=2.
    let second = a.make_append_entries(2).unwrap();
    assert_eq!(second.prev_log_index, 2);
    assert_eq!(second.prev_log_term, 2);
    assert_eq!(second.entries.len(), 1);
    let reply = b.handle_append_entries(&second);
    assert!(reply.success);
    assert!(!a.handle_append_reply(2, second.prev_log_index, 1, &reply));

    // Converged: B holds A's log.
    assert_eq!(b.log.len(), 3);
    assert_eq!(b.log[2].term, 2);
    assert_eq!(b.log[2].command, "c");
    assert_eq!(a.get_next_index(&2), Ok(4));
    assert_eq!(a.get_match_index(&2), Ok(3));
}

#[test]
fn append_truncates_conflicting_suffix() {
    let mut f = State::from_persisted(
        2,
        String::from("/tmp/raft-state"),
        3,
        None,
        vec![entry(1, "a"), entry(1, "old-b"), entry(2, "old-c")],
    );
    let args = AppendEntriesArgs {
        term: 3,
        leader_id: 1,
        prev_log_index: 1,
        prev_log_term: 1,
        entries: vec![entry(3, "new-b"), entry(3, "new-c")],
        leader_commit: 0,
    };
    let reply = f.handle_append_entries(&args);
    assert!(reply.success);
    assert_eq!(f.log.len(), 3);
    assert_eq!(f.log[0].command, "a");
    assert_eq!(f.log[1].command, "new-b");
    assert_eq!(f.log[1].term, 3);
    assert_eq!(f.log[2].command, "new-c");
}

#[test]
fn append_keeps_matching_entries_untouched() {
    let mut f = State::from_persisted(
        2,
        String::from("/tmp/raft-state"),
        2,
        None,
        vec![entry(1, "a"), entry(1, "b"), entry(2, "c")],
    );
    // Everything sent is already present: the log stays as it is,
    // including the entry past what was sent.
    let args = AppendEntriesArgs {
        term: 2,
        leader_id: 1,
        prev_log_index: 0,
        prev_log_term: 0,
        entries: vec![entry(1, "a"), entry(1, "b")],
        leader_commit: 0,
    };
    let reply = f.handle_append_entries(&args);
    assert!(reply.success);
    assert_eq!(f.log.len(), 3);
    assert_eq!(f.log[2].command, "c");
}

#[test]
fn stale_append_entries_rejected() {
    let mut f = node(2);
    f.observe_term(4);
    let args = AppendEntriesArgs {
        term: 3,
        leader_id: 1,
        prev_log_index: 0,
        prev_log_term: 0,
        entries: vec![entry(3, "x")],
        leader_commit: 0,
    };
    let reply = f.handle_append_entries(&args);
    assert!(!reply.success);
    assert_eq!(reply.term, 4);
    assert_eq!(f.log.len(), 0);
}

#[test]
fn conflict_hint_names_first_index_of_conflicting_term() {
    let mut f = State::from_persisted(
        2,
        String::from("/tmp/raft-state"),
        2,
        None,
        vec![entry(1, "a"), entry(2, "b"), entry(2, "c"), entry(2, "d")],
    );
    let args = AppendEntriesArgs {
        term: 3,
        leader_id: 1,
        prev_log_index: 4,
        prev_log_term: 3,
        entries: vec![],
        leader_commit: 0,
    };
    let reply = f.handle_append_entries(&args);
    assert!(!reply.success);
    // The run of term 2 starts at index 2.
    assert_eq!(reply.conflict_index, Some(2));
}

#[test]
fn follower_commit_follows_leader_capped_by_log() {
    let mut f = node(2);
    let args = AppendEntriesArgs {
        term: 1,
        leader_id: 1,
        prev_log_index: 0,
        prev_log_term: 0,
        entries: vec![entry(1, "a"), entry(1, "b")],
        leader_commit: 5,
    };
    assert!(f.handle_append_entries(&args).success);
    assert_eq!(f.commit_index, 2);
    // A later heartbeat with a smaller leader_commit never moves it back.
    let hb = AppendEntriesArgs {
        term: 1,
        leader_id: 1,
        prev_log_index: 2,
        prev_log_term: 1,
        entries: vec![],
        leader_commit: 1,
    };
    assert!(f.handle_append_entries(&hb).success);
    assert_eq!(f.commit_index, 2);
}

#[test]
fn old_term_entries_are_not_committed_by_counting() {
    // Leader at term 2 whose only entry is from term 1: even though a
    // majority holds it, it must not be committed by counting replicas.
    let mut a = State::from_persisted(
        1,
        String::from("/tmp/raft-state"),
        1,
        None,
        vec![entry(1, "a")],
    );
    a.start_election();
    a.become_leader(&vec![2, 3]);
    assert_eq!(a.current_term, 2);
    let reply_success = raft_core::rpc::AppendEntriesReply {
        term: 2,
        success: true,
        conflict_index: None,
    };
    assert!(!a.handle_append_reply(2, 0, 1, &reply_success));
    assert!(!a.handle_append_reply(3, 0, 1, &reply_success));
    assert_eq!(a.advance_commit_index(&vec![2, 3]), Ok(0));
    assert_eq!(a.commit_index, 0);

    // A new entry of the current term commits, and carries the old
    // one with it.
    a.propose(String::from("b")).unwrap();
    assert!(!a.handle_append_reply(2, 1, 1, &reply_success));
    assert!(!a.handle_append_reply(3, 1, 1, &reply_success));
    assert_eq!(a.advance_commit_index(&vec![2, 3]), Ok(2));
    assert_eq!(a.commit_index, 2);
}

#[test]
fn reply_with_higher_term_steps_leader_down() {
    let mut a = node(1);
    a.start_election();
    a.become_leader(&vec![2]);
    let reply = raft_core::rpc::AppendEntriesReply {
        term: 7,
        success: false,
        conflict_index: None,
    };
    assert!(a.handle_append_reply(2, 0, 0, &reply));
    assert_eq!(a.current_term, 7);
    assert!(matches!(a.role, Role::Follower));
}

#[test]
fn candidate_steps_down_for_current_leader() {
    let mut b = node(2);
    b.start_election();
    assert!(matches!(b.role, Role::Candidate));
    let args = AppendEntriesArgs {
        term: 1,
        leader_id: 1,
        prev_log_index: 0,
        prev_log_term: 0,
        entries: vec![],
        leader_commit: 0,
    };
    assert!(b.handle_append_entries(&args).success);
    assert!(matches!(b.role, Role::Follower));
}

#[test]
fn applies_in_index_order_exactly_once() {
    let mut f = node(2);
    let args = AppendEntriesArgs {
        term: 1,
        leader_id: 1,
        prev_log_index: 0,
        prev_log_term: 0,
        entries: vec![entry(1, "a"), entry(1, "b"), entry(1, "c")],
        leader_commit: 2,
    };
    assert!(f.handle_append_entries(&args).success);
    assert_eq!(f.take_next_to_apply(), Some((1, String::from("a"))));
    assert_eq!(f.take_next_to_apply(), Some((2, String::from("b"))));
    // The third entry is not yet committed.
    assert_eq!(f.take_next_to_apply(), None);
    assert_eq!(f.last_applied, 2);
}

#[test]
fn split_vote_elects_at_most_one_leader_per_term() {
    // A and B both time out for term 1; C can vote only once.
    let mut a = node(1);
    let mut b = node(2);
    let mut c = node(3);
    let ask_a = a.start_election();
    let ask_b = b.start_election();

    let c_for_a = c.handle_request_vote(&ask_a);
    let c_for_b = c.handle_request_vote(&ask_b);
    assert!(c_for_a.vote_granted);
    assert!(!c_for_b.vote_granted);
    // A and B each voted for themselves, so they deny each other.
    assert!(!a.handle_request_vote(&ask_b).vote_granted);
    assert!(!b.handle_request_vote(&ask_a).vote_granted);

    let mut tally_a = VoteTally::new(1, 1);
    a.handle_vote_reply(&mut tally_a, 3, &c_for_a);
    let mut tally_b = VoteTally::new(1, 2);
    b.handle_vote_reply(&mut tally_b, 3, &c_for_b);
    assert!(tally_a.has_majority(3));
    assert!(!tally_b.has_majority(3));
}

#[test]
fn committed_entry_survives_leader_change() {
    // A leads term 1 and commits "x=1" on a majority (itself and C).
    let mut a = node(1);
    let mut b = node(2);
    let mut c = node(3);
    let ask = a.start_election();
    let rb = b.handle_request_vote(&ask);
    let rc = c.handle_request_vote(&ask);
    let mut tally = VoteTally::new(ask.term, 1);
    a.handle_vote_reply(&mut tally, 2, &rb);
    a.handle_vote_reply(&mut tally, 3, &rc);
    assert!(tally.has_majority(3));
    a.become_leader(&vec![2, 3]);
    a.propose(String::from("x=1")).unwrap();
    let ae = a.make_append_entries(3).unwrap();
    let reply = c.handle_append_entries(&ae);
    assert!(reply.success);
    a.handle_append_reply(3, ae.prev_log_index, ae.entries.len() as u64, &reply);
    assert_eq!(a.advance_commit_index(&vec![2, 3]), Ok(1));

    // A goes quiet; C times out and stands for the next term.  B,
    // whose log is empty, grants its vote, and C has a majority with
    // its own.  The committed entry is in the new leader's log.
    let ask = c.start_election();
    let b_vote = b.handle_request_vote(&ask);
    assert!(b_vote.vote_granted);
    let mut tally = VoteTally::new(ask.term, 3);
    c.handle_vote_reply(&mut tally, 2, &b_vote);
    assert!(tally.has_majority(3));
    c.become_leader(&vec![1, 2]);
    assert!(matches!(c.role, Role::Leader(_)));
    assert_eq!(c.log.len(), 1);
    assert_eq!(c.log[0].command, "x=1");
}

#[test]
fn single_node_cluster_commits_alone() {
    let mut a = node(1);
    a.start_election();
    a.become_leader(&vec![]);
    assert_eq!(a.propose(String::from("only")), Ok(1));
    assert_eq!(a.advance_commit_index(&vec![]), Ok(1));
    assert_eq!(a.take_next_to_apply(), Some((1, String::from("only"))));
}

#[test]
fn logs_matching_at_an_index_match_below_it() {
    // Replicate a three-entry log onto a follower whose log diverged,
    // then check the Log Matching Property pointwise: equal terms at
    // an index mean equal entries there and below.
    let mut leader = State {
        config: Config { this_id: 1, state_directory: String::from("/tmp/raft-state") },
        current_term: 3,
        voted_for: Some(1),
        log: vec![entry(1, "a"), entry(3, "b2"), entry(3, "c2")],
        commit_index: 0,
        last_applied: 0,
        role: Role::Leader(LeaderState {
            next_index: BTreeMap::new(),
            match_index: BTreeMap::new(),
        }),
    };
    let mut f = State::from_persisted(
        2,
        String::from("/tmp/raft-state"),
        2,
        None,
        vec![entry(1, "a"), entry(2, "b"), entry(2, "c")],
    );
    // Backtrack until the follower accepts.
    let mut tries = 0;
    loop {
        let ae = leader.make_append_entries(2).unwrap();
        let reply = f.handle_append_entries(&ae);
        leader.handle_append_reply(2, ae.prev_log_index, ae.entries.len() as u64, &reply);
        tries += 1;
        if reply.success {
            break;
        }
        assert!(tries < 10);
    }
    assert_eq!(f.log.len(), leader.log.len());
    for i in 0..f.log.len() {
        if f.log[i].term == leader.log[i].term {
            for j in 0..=i {
                assert_eq!(f.log[j].term, leader.log[j].term);
                assert_eq!(f.log[j].command, leader.log[j].command);
            }
        }
    }
}
