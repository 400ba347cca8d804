//! The state of a single Raft server: persistent fields (term, vote,
//! log), volatile indices (commit, applied) and the role variant with
//! its leader-only replication indices.
//!
//! This module only stores; the rules that decide how the fields move
//! live in the election, replication and rpc modules.

use std::collections::BTreeMap;
use vstd::prelude::*;

use crate::config::Config;
use crate::error::Error;

verus! {

/// A log entry: a command for the distributed state machine, stamped
/// with the term in which a leader first received it.
pub struct LogEntry {
    pub term: u64,
    pub command: String,
}

/// The mathematical value of a [`LogEntry`]: its term and the
/// characters of its command.
#[verifier::ext_equal]
pub ghost struct Entry {
    pub term: u64,
    pub command: Seq<char>,
}

impl View for LogEntry {
    type V = Entry;

    open spec fn view(&self) -> Entry {
        Entry { term: self.term, command: self.command@ }
    }
}

/// The mathematical value of a log: the sequence of entry values.
pub open spec fn log_model(log: Seq<LogEntry>) -> Seq<Entry> {
    log.map_values(|e: LogEntry| e@)
}

/// An exact copy of a log entry (the command characters are kept).
pub fn clone_entry(e: &LogEntry) -> (r: LogEntry)
    ensures
        r@ == e@,
{
    LogEntry { term: e.term, command: e.command.clone() }
}

/// Volatile state held by a leader, rebuilt on every election win:
/// for each peer, the next log index to send it and the highest log
/// index known replicated on it.
pub struct LeaderState {
    /// For each peer, the index of the next log entry to send to that
    /// peer (first initialized to the leader's last log index + 1).
    pub next_index: BTreeMap<u64, u64>,
    /// For each peer, the index of the highest log entry known to be
    /// replicated on that peer (first initialized to 0, increases
    /// monotonically while the leadership lasts).
    pub match_index: BTreeMap<u64, u64>,
}

/// A server has one of three roles: a follower takes commands from
/// the leader it knows, a candidate is trying to get elected, and a
/// leader was elected by a majority and replicates its log.
pub enum Role {
    /// Node following the leader.
    Follower,
    /// Node attempting to become the leader.
    Candidate,
    /// Cluster leader, with its replication indices.
    Leader(LeaderState),
}

/// The state of a Raft server.
pub struct State {
    /// Configuration of this server.
    pub config: Config,
    /// Latest term this server has seen (0 on first boot, increases
    /// monotonically).  Persisted before it is acted upon.
    pub current_term: u64,
    /// Candidate that received this server's vote in `current_term`,
    /// if any.  Reset whenever `current_term` increases.  Persisted.
    pub voted_for: Option<u64>,
    /// The replicated log, 1-indexed; append-only except for
    /// truncation of uncommitted conflicting suffixes.  Persisted.
    pub log: Vec<LogEntry>,
    /// Index of the highest log entry known to be committed
    /// (initialized to 0, never decreases).
    pub commit_index: u64,
    /// Index of the highest log entry applied to the state machine
    /// (initialized to 0, never decreases, never exceeds
    /// `commit_index`).
    pub last_applied: u64,
    /// Role of the server, including role-specific state.
    pub role: Role,
}

/// The replication indices of a leader stay within its log: every
/// known `next_index` lies in `1 ..= len + 1` and every known
/// `match_index` in `0 ..= len`.
pub open spec fn leader_wf(ls: LeaderState, log_len: nat) -> bool {
    &&& forall|p: u64|
        ls.next_index@.contains_key(p) ==> 1 <= #[trigger] ls.next_index@[p] <= log_len + 1
    &&& forall|p: u64| ls.match_index@.contains_key(p) ==> #[trigger] ls.match_index@[p] <= log_len
}

/// Terms never decrease along a log: a later entry was created in the
/// same or a later term.
pub open spec fn terms_nondecreasing(log: Seq<Entry>) -> bool {
    forall|i: int, j: int| 0 <= i <= j < log.len() ==> #[trigger] log[i].term <= #[trigger] log[j].term
}

impl State {
    /// The mathematical value of this server's log.
    pub open spec fn abs_log(&self) -> Seq<Entry> {
        log_model(self.log@)
    }

    /// Number of entries in the log (also the 1-based index of the
    /// last entry).
    pub open spec fn spec_log_len(&self) -> nat {
        self.log@.len()
    }

    /// Term of the entry at 1-based index `i`, or 0 before the start
    /// of the log.
    pub open spec fn spec_term_at(&self, i: int) -> u64 {
        if 1 <= i <= self.abs_log().len() {
            self.abs_log()[i - 1].term
        } else {
            0
        }
    }

    /// Term of the last log entry, or 0 for an empty log.
    pub open spec fn spec_last_log_term(&self) -> u64 {
        self.spec_term_at(self.spec_log_len() as int)
    }

    /// Well-formedness of a server's state: the applied prefix lies
    /// within the committed prefix, which lies within the log; log
    /// terms never decrease and never exceed the server's own term;
    /// a leader's replication indices stay within its log.  The bound
    /// on the log length is a machine limit: indices are held in
    /// `u64`.
    pub open spec fn wf(&self) -> bool {
        &&& self.last_applied <= self.commit_index
        &&& self.commit_index as nat <= self.spec_log_len()
        &&& self.spec_log_len() < u64::MAX as nat
        &&& terms_nondecreasing(self.abs_log())
        &&& forall|i: int|
            0 <= i < self.abs_log().len() ==> #[trigger] self.abs_log()[i].term <= self.current_term
        &&& match self.role {
            Role::Leader(ls) => leader_wf(ls, self.spec_log_len()),
            _ => true,
        }
    }

    /// A fresh server: term 0, no vote cast, empty log, nothing
    /// committed or applied, following.
    pub fn new(this_id: u64, state_directory: String) -> (s: State)
        ensures
            s.wf(),
            s.config.this_id == this_id,
            s.config.state_directory@ == state_directory@,
            s.current_term == 0,
            s.voted_for is None,
            s.abs_log() =~= Seq::<Entry>::empty(),
            s.commit_index == 0,
            s.last_applied == 0,
            s.role is Follower,
    {
        let config = Config { this_id, state_directory };
        State {
            config,
            current_term: 0,
            voted_for: None,
            log: Vec::new(),
            commit_index: 0,
            last_applied: 0,
            role: Role::Follower,
        }
    }

    /// A server restarted from the values the durable store last
    /// persisted.  The volatile indices restart at 0 and the server
    /// comes back as a follower.
    pub fn from_persisted(
        this_id: u64,
        state_directory: String,
        current_term: u64,
        voted_for: Option<u64>,
        log: Vec<LogEntry>,
    ) -> (s: State)
        requires
            log@.len() < u64::MAX as nat,
            terms_nondecreasing(log_model(log@)),
            forall|i: int| 0 <= i < log@.len() ==> #[trigger] log_model(log@)[i].term <= current_term,
        ensures
            s.wf(),
            s.config.this_id == this_id,
            s.config.state_directory@ == state_directory@,
            s.current_term == current_term,
            s.voted_for == voted_for,
            s.abs_log() =~= log_model(log@),
            s.commit_index == 0,
            s.last_applied == 0,
            s.role is Follower,
    {
        let config = Config { this_id, state_directory };
        State {
            config,
            current_term,
            voted_for,
            log,
            commit_index: 0,
            last_applied: 0,
            role: Role::Follower,
        }
    }

    /// The peer's `next_index`, readable only on a leader; absent
    /// entries are created at the lazy default, the leader's last log
    /// index + 1.
    pub fn get_next_index(&mut self, follower_id: &u64) -> (r: Result<u64, Error>)
        requires
            old(self).wf(),
        ensures
            final(self).wf(),
            r is Ok <==> old(self).role is Leader,
            match r {
                Ok(idx) => {
                    &&& match (old(self).role, final(self).role) {
                        (Role::Leader(ls0), Role::Leader(ls1)) => {
                            &&& idx == if ls0.next_index@.contains_key(*follower_id) {
                                ls0.next_index@[*follower_id]
                            } else {
                                (old(self).spec_log_len() + 1) as u64
                            }
                            &&& ls1.next_index@ == ls0.next_index@.insert(*follower_id, idx)
                            &&& ls1.match_index@ == ls0.match_index@
                        },
                        _ => false,
                    }
                    &&& 1 <= idx <= old(self).spec_log_len() + 1
                },
                Err(e) => e == Error::NotLeader && *final(self) == *old(self),
            },
            final(self).current_term == old(self).current_term,
            final(self).voted_for == old(self).voted_for,
            final(self).abs_log() == old(self).abs_log(),
            final(self).commit_index == old(self).commit_index,
            final(self).last_applied == old(self).last_applied,
            final(self).config == old(self).config,
    {
        let log_len = self.log.len() as u64;
        match &mut self.role {
            Role::Leader(leader_state) => {
                let idx = match leader_state.next_index.get(follower_id) {
                    Some(v) => *v,
                    None => log_len + 1,
                };
                leader_state.next_index.insert(*follower_id, idx);
                Ok(idx)
            },
            _ => Err(Error::NotLeader),
        }
    }

    /// The peer's `match_index`, readable only on a leader; absent
    /// entries are created at the lazy default 0.
    pub fn get_match_index(&mut self, follower_id: &u64) -> (r: Result<u64, Error>)
        requires
            old(self).wf(),
        ensures
            final(self).wf(),
            r is Ok <==> old(self).role is Leader,
            match r {
                Ok(idx) => {
                    &&& match (old(self).role, final(self).role) {
                        (Role::Leader(ls0), Role::Leader(ls1)) => {
                            &&& idx == if ls0.match_index@.contains_key(*follower_id) {
                                ls0.match_index@[*follower_id]
                            } else {
                                0
                            }
                            &&& ls1.match_index@ == ls0.match_index@.insert(*follower_id, idx)
                            &&& ls1.next_index@ == ls0.next_index@
                        },
                        _ => false,
                    }
                    &&& idx <= old(self).spec_log_len()
                },
                Err(e) => e == Error::NotLeader && *final(self) == *old(self),
            },
            final(self).current_term == old(self).current_term,
            final(self).voted_for == old(self).voted_for,
            final(self).abs_log() == old(self).abs_log(),
            final(self).commit_index == old(self).commit_index,
            final(self).last_applied == old(self).last_applied,
            final(self).config == old(self).config,
    {
        match &mut self.role {
            Role::Leader(leader_state) => {
                let idx = match leader_state.match_index.get(follower_id) {
                    Some(v) => *v,
                    None => 0,
                };
                leader_state.match_index.insert(*follower_id, idx);
                Ok(idx)
            },
            _ => Err(Error::NotLeader),
        }
    }

    /// The 1-based index of the last log entry (0 for an empty log).
    pub fn last_log_index(&self) -> (r: u64)
        requires
            self.wf(),
        ensures
            r == self.spec_log_len(),
    {
        self.log.len() as u64
    }

    /// The term of the last log entry (0 for an empty log).
    pub fn last_log_term(&self) -> (r: u64)
        requires
            self.wf(),
        ensures
            r == self.spec_last_log_term(),
    {
        if self.log.len() == 0 {
            0
        } else {
            self.log[self.log.len() - 1].term
        }
    }
}

} // verus!
