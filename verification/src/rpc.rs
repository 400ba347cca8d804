//! The two Raft RPCs as plain request/response values, and the
//! handlers that process an incoming request against a server's
//! state.  The external transport carries these values between
//! servers; the handlers are where the safety rules are enforced.

use vstd::prelude::*;

use crate::election::{spec_up_to_date, up_to_date};
use crate::log::{
    first_conflict_of_term, lemma_merged_props, lemma_merged_terms, match_len, merge_entries,
    spec_consistent, spec_first_of_term, spec_match_len, spec_merged,
};
use crate::state::{log_model, Entry, LogEntry, Role, State};

verus! {

/// Arguments of a RequestVote RPC, sent by a candidate to every peer.
pub struct RequestVoteArgs {
    /// The candidate's term.
    pub term: u64,
    /// The candidate asking for the vote.
    pub candidate_id: u64,
    /// 1-based index of the candidate's last log entry (0 if none).
    pub last_log_index: u64,
    /// Term of the candidate's last log entry (0 if none).
    pub last_log_term: u64,
}

/// Reply to a RequestVote RPC.
pub struct RequestVoteReply {
    /// The voter's term, for the candidate to update itself by.
    pub term: u64,
    /// Whether the voter granted its vote for `term`.
    pub vote_granted: bool,
}

/// Arguments of an AppendEntries RPC, sent by a leader to replicate
/// log entries and, when `entries` is empty, as a heartbeat.
pub struct AppendEntriesArgs {
    /// The leader's term.
    pub term: u64,
    /// The sender, so followers can redirect clients.
    pub leader_id: u64,
    /// 1-based index of the entry immediately preceding `entries`
    /// (0 when sending from the start of the log).
    pub prev_log_index: u64,
    /// Term of the entry at `prev_log_index` (0 when it is 0).
    pub prev_log_term: u64,
    /// The entries to store, in log order; empty for a heartbeat.
    pub entries: Vec<LogEntry>,
    /// The leader's `commit_index`.
    pub leader_commit: u64,
}

/// Reply to an AppendEntries RPC.
pub struct AppendEntriesReply {
    /// The receiver's term, for the leader to update itself by.
    pub term: u64,
    /// Whether the receiver's log matched at
    /// `prev_log_index`/`prev_log_term` and now holds the entries.
    pub success: bool,
    /// On a log mismatch, the first 1-based index the leader should
    /// try next: past the receiver's log when it is too short, else
    /// the first index of the run of equal terms that conflicts.
    pub conflict_index: Option<u64>,
}

impl AppendEntriesArgs {
    /// The mathematical value of the carried entries.
    pub open spec fn abs_entries(&self) -> Seq<Entry> {
        log_model(self.entries@)
    }

    /// What the protocol guarantees of every AppendEntries a leader
    /// builds from its own well-formed log: the carried indices fit
    /// the machine, entry terms never decrease, never fall below the
    /// term at `prev_log_index`, and never exceed the sender's term.
    pub open spec fn wf(&self) -> bool {
        &&& self.prev_log_index + self.entries@.len() < u64::MAX
        &&& forall|i: int, j: int|
            0 <= i <= j < self.abs_entries().len() ==> #[trigger] self.abs_entries()[i].term
                <= #[trigger] self.abs_entries()[j].term
        &&& self.abs_entries().len() > 0 ==> self.prev_log_term <= self.abs_entries()[0].term
        &&& self.abs_entries().len() > 0 ==> self.abs_entries()[self.abs_entries().len()
            - 1].term <= self.term
    }
}

/// When a RequestVote is granted: the candidate's term is current or
/// newer, this server has cast no vote for anyone else in that term,
/// and the candidate's log is at least as up-to-date as the voter's.
pub open spec fn spec_vote_granted(s: State, args: RequestVoteArgs) -> bool {
    &&& args.term >= s.current_term
    &&& (args.term > s.current_term || s.voted_for is None || s.voted_for == Some(
        args.candidate_id,
    ))
    &&& spec_up_to_date(
        args.last_log_term,
        args.last_log_index,
        s.spec_last_log_term(),
        s.spec_log_len() as u64,
    )
}

/// When an AppendEntries is accepted: the sender's term is current or
/// newer, this server is not itself the leader of that term, the
/// consistency check at `prev_log_index`/`prev_log_term` passes, and
/// no conflict would truncate an already committed entry (a correct
/// leader never sends one that would).
pub open spec fn spec_append_accepted(s: State, args: AppendEntriesArgs) -> bool {
    let log = s.abs_log();
    let prev = args.prev_log_index as int;
    let k = spec_match_len(log, prev, args.abs_entries());
    &&& args.term >= s.current_term
    &&& !(s.role is Leader && args.term == s.current_term)
    &&& spec_consistent(log, prev, args.prev_log_term)
    &&& (k < args.abs_entries().len() && prev + k < log.len() ==> prev + k >= s.commit_index)
}

impl State {
    /// Process an incoming RequestVote.  The term-dominance rule is
    /// applied first; the vote is granted exactly under
    /// [`spec_vote_granted`], read over the state the request found.
    /// The driver persists `current_term`/`voted_for` and resets the
    /// election timer before sending the reply of a granted vote.
    pub fn handle_request_vote(&mut self, args: &RequestVoteArgs) -> (reply: RequestVoteReply)
        requires
            old(self).wf(),
        ensures
            final(self).wf(),
            reply.term == final(self).current_term,
            final(self).current_term == if args.term > old(self).current_term {
                args.term
            } else {
                old(self).current_term
            },
            reply.vote_granted == spec_vote_granted(*old(self), *args),
            reply.vote_granted ==> final(self).voted_for == Some(args.candidate_id),
            !reply.vote_granted ==> final(self).voted_for == (if args.term > old(self).current_term {
                None::<u64>
            } else {
                old(self).voted_for
            }),
            args.term > old(self).current_term ==> final(self).role is Follower,
            args.term <= old(self).current_term ==> final(self).role == old(self).role,
            final(self).abs_log() == old(self).abs_log(),
            final(self).commit_index == old(self).commit_index,
            final(self).last_applied == old(self).last_applied,
            final(self).config == old(self).config,
    {
        self.observe_term(args.term);
        let grant = if args.term < self.current_term {
            false
        } else {
            let vote_free = match self.voted_for {
                None => true,
                Some(c) => c == args.candidate_id,
            };
            if vote_free {
                up_to_date(
                    args.last_log_term,
                    args.last_log_index,
                    self.last_log_term(),
                    self.last_log_index(),
                )
            } else {
                false
            }
        };
        if grant {
            self.voted_for = Some(args.candidate_id);
        }
        RequestVoteReply { term: self.current_term, vote_granted: grant }
    }

    /// Process an incoming AppendEntries.  The term-dominance rule is
    /// applied first; the request is accepted exactly under
    /// [`spec_append_accepted`], read over the state the request
    /// found.  On acceptance the log becomes [`spec_merged`] — kept
    /// where it already matches, truncated at the first conflict,
    /// extended with what is new — and `commit_index` follows the
    /// leader's, capped by the log length; it never decreases, and
    /// the committed prefix of the log is never changed.  On refusal
    /// for a log mismatch the reply carries a conflict hint: one past
    /// the log when it is too short, else the first index of the run
    /// of equal terms that conflicts.  The driver persists the log
    /// before sending a success reply.
    pub fn handle_append_entries(&mut self, args: &AppendEntriesArgs) -> (reply:
        AppendEntriesReply)
        requires
            old(self).wf(),
            args.wf(),
        ensures
            final(self).wf(),
            reply.term == final(self).current_term,
            final(self).current_term == if args.term > old(self).current_term {
                args.term
            } else {
                old(self).current_term
            },
            reply.success == spec_append_accepted(*old(self), *args),
            reply.success ==> final(self).abs_log() == spec_merged(
                old(self).abs_log(),
                args.prev_log_index as int,
                args.abs_entries(),
            ),
            !reply.success ==> final(self).abs_log() == old(self).abs_log(),
            final(self).abs_log().take(old(self).commit_index as int) == old(self).abs_log().take(old(self).commit_index as int),
            final(self).commit_index >= old(self).commit_index,
            reply.success ==> final(self).commit_index == (if args.leader_commit > old(self).commit_index {
                if args.leader_commit <= final(self).spec_log_len() {
                    args.leader_commit
                } else {
                    final(self).spec_log_len() as u64
                }
            } else {
                old(self).commit_index
            }),
            !reply.success ==> final(self).commit_index == old(self).commit_index,
            final(self).last_applied == old(self).last_applied,
            final(self).config == old(self).config,
            args.term > old(self).current_term ==> final(self).role is Follower && final(self).voted_for is None,
            args.term == old(self).current_term && !(old(self).role is Leader) ==> final(self).role is Follower,
            args.term <= old(self).current_term ==> final(self).voted_for == old(self).voted_for,
            args.term < old(self).current_term ==> *final(self) == *old(self),
            old(self).role is Leader && args.term == old(self).current_term ==> *final(self)
                == *old(self),
            reply.conflict_index == (if args.term >= old(self).current_term && !(old(self).role is Leader && args.term == old(self).current_term) && !spec_consistent(
                old(self).abs_log(),
                args.prev_log_index as int,
                args.prev_log_term,
            ) {
                if args.prev_log_index as int > old(self).abs_log().len() {
                    Some((old(self).spec_log_len() + 1) as u64)
                } else {
                    Some(spec_first_of_term(old(self).abs_log(), args.prev_log_index as int)
                        as u64)
                }
            } else {
                None::<u64>
            }),
    {
        if args.term < self.current_term {
            return AppendEntriesReply {
                term: self.current_term,
                success: false,
                conflict_index: None,
            };
        }
        self.observe_term(args.term);
        let was_leader = match self.role {
            Role::Leader(_) => true,
            _ => false,
        };
        if was_leader {
            // Two leaders never share a term (election safety), so a
            // leader refuses a same-term AppendEntries untouched.
            return AppendEntriesReply {
                term: self.current_term,
                success: false,
                conflict_index: None,
            };
        }
        self.role = Role::Follower;
        let len = self.log.len() as u64;
        if args.prev_log_index > len {
            return AppendEntriesReply {
                term: self.current_term,
                success: false,
                conflict_index: Some(len + 1),
            };
        }
        if args.prev_log_index > 0 {
            let prev_slot = (args.prev_log_index - 1) as usize;
            if self.log[prev_slot].term != args.prev_log_term {
                let hint = first_conflict_of_term(&self.log, args.prev_log_index);
                return AppendEntriesReply {
                    term: self.current_term,
                    success: false,
                    conflict_index: Some(hint),
                };
            }
        }
        let prev = args.prev_log_index as usize;
        let log_len = self.log.len();
        let k = match_len(&self.log, prev, &args.entries);
        if k < args.entries.len() && prev + k < log_len && ((prev + k) as u64)
            < self.commit_index {
            // A correct leader never conflicts with a committed
            // entry; refuse rather than truncate one.
            return AppendEntriesReply {
                term: self.current_term,
                success: false,
                conflict_index: None,
            };
        }
        let ghost old_model = old(self).abs_log();
        let ghost entries_model = args.abs_entries();
        proof {
            lemma_merged_props(old_model, prev as int, entries_model);
            lemma_merged_terms(
                old_model,
                prev as int,
                entries_model,
                args.prev_log_term,
                self.current_term,
            );
        }
        merge_entries(&mut self.log, prev, &args.entries);
        proof {
            let m = spec_merged(old_model, prev as int, entries_model);
            let c = old(self).commit_index as int;
            let sk = spec_match_len(old_model, prev as int, entries_model);
            assert forall|x: int| 0 <= x < c implies m[x] == old_model[x] by {
                assert(x < old_model.len());
                if sk < entries_model.len() && prev + sk < old_model.len() {
                    assert(x < prev + sk);
                }
            }
            assert(m.take(c) =~= old_model.take(c));
        }
        let new_len = self.log.len() as u64;
        if args.leader_commit > self.commit_index {
            self.commit_index = if args.leader_commit <= new_len {
                args.leader_commit
            } else {
                new_len
            };
        }
        AppendEntriesReply { term: self.current_term, success: true, conflict_index: None }
    }
}

} // verus!
