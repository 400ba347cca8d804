//! Leader election: the term-dominance rule, the election timeout
//! transition into candidacy, the up-to-date comparison voters apply,
//! the tally of granted votes, and the transition into leadership on
//! a strict majority.
//!
//! Timers themselves live in the driver loop: it delivers "the
//! election timeout fired" by calling [`State::start_election`] and
//! delivers each vote reply by calling [`State::handle_vote_reply`].

use std::collections::BTreeMap;
use vstd::prelude::*;

use crate::rpc::{RequestVoteArgs, RequestVoteReply};
use crate::state::{LeaderState, Role, State};

verus! {

/// Whether a log whose last entry has term `last_term_a` at 1-based
/// index `last_index_a` is at least as up-to-date as one ending with
/// `last_term_b` at `last_index_b`: the later last term wins, and
/// between equal last terms the longer log wins.
pub open spec fn spec_up_to_date(
    last_term_a: u64,
    last_index_a: u64,
    last_term_b: u64,
    last_index_b: u64,
) -> bool {
    ||| last_term_a > last_term_b
    ||| (last_term_a == last_term_b && last_index_a >= last_index_b)
}

/// Executable form of [`spec_up_to_date`].
pub fn up_to_date(
    last_term_a: u64,
    last_index_a: u64,
    last_term_b: u64,
    last_index_b: u64,
) -> (r: bool)
    ensures
        r == spec_up_to_date(last_term_a, last_index_a, last_term_b, last_index_b),
{
    last_term_a > last_term_b || (last_term_a == last_term_b && last_index_a >= last_index_b)
}

/// A strict majority of a cluster of `cluster_size` servers.
pub open spec fn spec_majority(count: int, cluster_size: int) -> bool {
    2 * count > cluster_size
}

/// The granted votes a candidate has collected in one term.  Raft
/// keeps a server's role free of candidate-only data, so the driver
/// loop holds the tally beside the state while an election runs and
/// discards it when the election is decided or superseded.
pub struct VoteTally {
    /// The term the votes were granted in.
    pub term: u64,
    /// The distinct servers whose granted votes were counted, the
    /// candidate itself included.
    pub voters: Vec<u64>,
}

impl VoteTally {
    /// Each vote is counted at most once.
    pub open spec fn wf(&self) -> bool {
        self.voters@.no_duplicates()
    }

    /// A fresh tally for an election in `term`, holding the
    /// candidate's own vote for itself.
    pub fn new(term: u64, self_id: u64) -> (t: VoteTally)
        ensures
            t.wf(),
            t.term == term,
            t.voters@ =~= seq![self_id],
    {
        let mut voters: Vec<u64> = Vec::new();
        voters.push(self_id);
        VoteTally { term, voters }
    }

    /// Whether `voter`'s vote has been counted.
    pub fn contains(&self, voter: u64) -> (r: bool)
        ensures
            r == self.voters@.contains(voter),
    {
        let mut i: usize = 0;
        while i < self.voters.len()
            invariant
                0 <= i <= self.voters@.len(),
                forall|j: int| 0 <= j < i ==> self.voters@[j] != voter,
            decreases self.voters@.len() - i,
        {
            if self.voters[i] == voter {
                return true;
            }
            i += 1;
        }
        false
    }

    /// Count `voter`'s granted vote, at most once.
    pub fn record(&mut self, voter: u64)
        requires
            old(self).wf(),
        ensures
            final(self).wf(),
            final(self).term == old(self).term,
            final(self).voters@.to_set() =~= old(self).voters@.to_set().insert(voter),
            final(self).voters@.len() == old(self).voters@.len() + (if old(
                self,
            ).voters@.contains(voter) {
                0int
            } else {
                1int
            }),
    {
        if !self.contains(voter) {
            self.voters.push(voter);
            proof {
                let s0 = old(self).voters@;
                let s1 = self.voters@;
                assert forall|x: u64| s1.to_set().contains(x) implies s0.to_set().insert(
                    voter,
                ).contains(x) by {
                    let i = choose|i: int| 0 <= i < s1.len() && s1[i] == x;
                    if i < s0.len() {
                        assert(s0[i] == x);
                    }
                }
                assert forall|x: u64| s0.to_set().insert(voter).contains(x) implies
                    s1.to_set().contains(x) by {
                    if x == voter {
                        assert(s1[s1.len() - 1] == x);
                    } else {
                        let i = choose|i: int| 0 <= i < s0.len() && s0[i] == x;
                        assert(s1[i] == x);
                    }
                }
            }
        }
    }

    /// How many distinct granted votes were counted.
    pub fn count(&self) -> (n: usize)
        ensures
            n == self.voters@.len(),
    {
        self.voters.len()
    }

    /// Whether the counted votes are a strict majority of a cluster
    /// of `cluster_size` servers.
    pub fn has_majority(&self, cluster_size: u64) -> (r: bool)
        ensures
            r == spec_majority(self.voters@.len() as int, cluster_size as int),
    {
        let count = self.voters.len() as u128;
        2 * count > cluster_size as u128
    }
}

impl State {
    /// The term-dominance rule: any RPC or reply carrying a term
    /// greater than `current_term` forces this server to adopt that
    /// term, forget its vote, and revert to follower, whatever its
    /// role was.  A term that is not greater changes nothing.
    pub fn observe_term(&mut self, term: u64)
        requires
            old(self).wf(),
        ensures
            final(self).wf(),
            term > old(self).current_term ==> {
                &&& final(self).current_term == term
                &&& final(self).voted_for is None
                &&& final(self).role is Follower
            },
            term <= old(self).current_term ==> *final(self) == *old(self),
            final(self).current_term >= old(self).current_term,
            final(self).abs_log() == old(self).abs_log(),
            final(self).commit_index == old(self).commit_index,
            final(self).last_applied == old(self).last_applied,
            final(self).config == old(self).config,
    {
        if term > self.current_term {
            self.current_term = term;
            self.voted_for = None;
            self.role = Role::Follower;
        }
    }

    /// The election timeout fired with no word from a leader: move to
    /// candidate, start the next term, vote for this server itself,
    /// and build the RequestVote to broadcast to every peer.  The
    /// caller pairs it with `VoteTally::new(term, id)` for the
    /// candidate's own vote.
    pub fn start_election(&mut self) -> (args: RequestVoteArgs)
        requires
            old(self).wf(),
            old(self).current_term < u64::MAX,
        ensures
            final(self).wf(),
            final(self).current_term == old(self).current_term + 1,
            final(self).voted_for == Some(old(self).config.this_id),
            final(self).role is Candidate,
            final(self).abs_log() == old(self).abs_log(),
            final(self).commit_index == old(self).commit_index,
            final(self).last_applied == old(self).last_applied,
            final(self).config == old(self).config,
            args.term == final(self).current_term,
            args.candidate_id == old(self).config.this_id,
            args.last_log_index == old(self).spec_log_len(),
            args.last_log_term == old(self).spec_last_log_term(),
    {
        self.current_term = self.current_term + 1;
        self.voted_for = Some(self.config.this_id);
        self.role = Role::Candidate;
        RequestVoteArgs {
            term: self.current_term,
            candidate_id: self.config.this_id,
            last_log_index: self.last_log_index(),
            last_log_term: self.last_log_term(),
        }
    }

    /// Process one vote reply.  A higher term forces a step down (and
    /// the stale tally is left alone, to be discarded); otherwise a
    /// vote granted in the current term, while this server is still a
    /// candidate and the tally is for that term, is counted.  Stale
    /// or denied replies change nothing.
    pub fn handle_vote_reply(&mut self, tally: &mut VoteTally, from: u64, reply: &RequestVoteReply)
        requires
            old(self).wf(),
            old(tally).wf(),
        ensures
            final(self).wf(),
            final(tally).wf(),
            reply.term > old(self).current_term ==> {
                &&& final(self).current_term == reply.term
                &&& final(self).voted_for is None
                &&& final(self).role is Follower
                &&& *final(tally) == *old(tally)
            },
            reply.term <= old(self).current_term ==> {
                &&& *final(self) == *old(self)
                &&& if reply.vote_granted && reply.term == old(self).current_term && old(
                    tally,
                ).term == old(self).current_term && old(self).role is Candidate {
                    &&& final(tally).term == old(tally).term
                    &&& final(tally).voters@.to_set() =~= old(tally).voters@.to_set().insert(from)
                } else {
                    *final(tally) == *old(tally)
                }
            },
            final(self).abs_log() == old(self).abs_log(),
            final(self).commit_index == old(self).commit_index,
            final(self).last_applied == old(self).last_applied,
            final(self).config == old(self).config,
    {
        if reply.term > self.current_term {
            self.observe_term(reply.term);
        } else if reply.vote_granted && reply.term == self.current_term && tally.term
            == self.current_term {
            let is_candidate = match self.role {
                Role::Candidate => true,
                _ => false,
            };
            if is_candidate {
                tally.record(from);
            }
        }
    }

    /// A candidate that collected a strict majority becomes leader:
    /// fresh replication indices are built for the given peers, every
    /// `next_index` at the leader's last log index + 1 and every
    /// `match_index` at 0.  The caller then starts the heartbeat
    /// cycle.
    pub fn become_leader(&mut self, peers: &Vec<u64>)
        requires
            old(self).wf(),
            old(self).role is Candidate,
        ensures
            final(self).wf(),
            final(self).role is Leader,
            match final(self).role {
                Role::Leader(ls) => {
                    &&& forall|j: int|
                        0 <= j < peers@.len() ==> ls.next_index@.contains_key(#[trigger] peers@[j])
                    &&& forall|j: int|
                        0 <= j < peers@.len() ==> ls.match_index@.contains_key(
                            #[trigger] peers@[j],
                        )
                    &&& forall|p: u64|
                        #[trigger] ls.next_index@.contains_key(p) ==> ls.next_index@[p] == old(
                            self,
                        ).spec_log_len() + 1 && peers@.contains(p)
                    &&& forall|p: u64|
                        #[trigger] ls.match_index@.contains_key(p) ==> ls.match_index@[p] == 0
                            && peers@.contains(p)
                },
                _ => false,
            },
            final(self).current_term == old(self).current_term,
            final(self).voted_for == old(self).voted_for,
            final(self).abs_log() == old(self).abs_log(),
            final(self).commit_index == old(self).commit_index,
            final(self).last_applied == old(self).last_applied,
            final(self).config == old(self).config,
    {
        let next_default = self.log.len() as u64 + 1;
        let mut next_index: BTreeMap<u64, u64> = BTreeMap::new();
        let mut match_index: BTreeMap<u64, u64> = BTreeMap::new();
        let mut i: usize = 0;
        while i < peers.len()
            invariant
                0 <= i <= peers@.len(),
                next_default == self.spec_log_len() + 1,
                forall|j: int| 0 <= j < i ==> next_index@.contains_key(#[trigger] peers@[j]),
                forall|j: int| 0 <= j < i ==> match_index@.contains_key(#[trigger] peers@[j]),
                forall|p: u64|
                    #[trigger] next_index@.contains_key(p) ==> next_index@[p] == next_default
                        && peers@.contains(p),
                forall|p: u64|
                    #[trigger] match_index@.contains_key(p) ==> match_index@[p] == 0
                        && peers@.contains(p),
            decreases peers@.len() - i,
        {
            next_index.insert(peers[i], next_default);
            match_index.insert(peers[i], 0);
            i += 1;
        }
        self.role = Role::Leader(LeaderState { next_index, match_index });
    }
}

} // verus!
