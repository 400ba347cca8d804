//! Log replication, active only on a leader: accepting client
//! commands into the log, building the AppendEntries to push entries
//! (or an empty heartbeat) to each peer, digesting the replies, and
//! advancing the commit index over majority-replicated entries of the
//! current term.

use std::collections::BTreeMap;
use vstd::prelude::*;

use crate::election::spec_majority;
use crate::error::Error;
use crate::log::copy_suffix;
use crate::rpc::{AppendEntriesArgs, AppendEntriesReply};
use crate::state::{log_model, Entry, LogEntry, Role, State};

verus! {

/// How many of the given peers are known to hold the entry at
/// 1-based index `idx`, according to a leader's `match_index` map.
pub open spec fn spec_ack_count(mi: Map<u64, u64>, peers: Seq<u64>, idx: u64) -> int
    decreases peers.len(),
{
    if peers.len() == 0 {
        0
    } else {
        spec_ack_count(mi, peers.drop_last(), idx) + if mi.contains_key(peers.last())
            && mi[peers.last()] >= idx {
            1int
        } else {
            0int
        }
    }
}

/// Whether a leader may commit 1-based index `idx`: the entry is
/// replicated on a strict majority of the cluster (the leader itself
/// included) and carries the leader's current term — an entry from an
/// older term is never committed by counting replicas, however many
/// servers hold it.
pub open spec fn spec_committable(s: State, peers: Seq<u64>, idx: u64) -> bool {
    match s.role {
        Role::Leader(ls) => {
            &&& spec_majority(1 + spec_ack_count(ls.match_index@, peers, idx), peers.len() as int + 1)
            &&& s.spec_term_at(idx as int) == s.current_term
        },
        _ => false,
    }
}

/// Count the peers whose `match_index` reaches `idx`.
pub fn count_acks(mi: &BTreeMap<u64, u64>, peers: &Vec<u64>, idx: u64) -> (n: usize)
    ensures
        n as int == spec_ack_count(mi@, peers@, idx),
        n <= peers@.len(),
{
    let mut n: usize = 0;
    let mut i: usize = 0;
    while i < peers.len()
        invariant
            0 <= i <= peers@.len(),
            n <= i,
            n as int == spec_ack_count(mi@, peers@.take(i as int), idx),
        decreases peers@.len() - i,
    {
        let acked = match mi.get(&peers[i]) {
            Some(v) => *v >= idx,
            None => false,
        };
        proof {
            assert(peers@.take(i + 1).drop_last() =~= peers@.take(i as int));
            assert(peers@.take(i + 1).last() == peers@[i as int]);
        }
        if acked {
            n += 1;
        }
        i += 1;
    }
    proof {
        assert(peers@.take(peers@.len() as int) =~= peers@);
    }
    n
}

impl State {
    /// A client command arrives: only a leader accepts it, appending
    /// it to its own log under the current term and returning the
    /// 1-based index it was placed at (not yet committed).  Any other
    /// role refuses with `NotLeader` and changes nothing.
    pub fn propose(&mut self, command: String) -> (r: Result<u64, Error>)
        requires
            old(self).wf(),
            old(self).spec_log_len() + 1 < u64::MAX,
        ensures
            final(self).wf(),
            r is Ok <==> old(self).role is Leader,
            match r {
                Ok(idx) => {
                    &&& idx == old(self).spec_log_len() + 1
                    &&& final(self).abs_log() =~= old(self).abs_log().push(
                        Entry { term: old(self).current_term, command: command@ },
                    )
                },
                Err(e) => e == Error::NotLeader && *final(self) == *old(self),
            },
            final(self).current_term == old(self).current_term,
            final(self).voted_for == old(self).voted_for,
            final(self).commit_index == old(self).commit_index,
            final(self).last_applied == old(self).last_applied,
            final(self).role == old(self).role,
            final(self).config == old(self).config,
    {
        let is_leader = match self.role {
            Role::Leader(_) => true,
            _ => false,
        };
        if !is_leader {
            return Err(Error::NotLeader);
        }
        let idx = self.log.len() as u64 + 1;
        let ghost pre = self.log@;
        let entry = LogEntry { term: self.current_term, command };
        let ghost entry_model = entry@;
        self.log.push(entry);
        proof {
            assert forall|x: int| 0 <= x < self.log@.len() implies #[trigger] log_model(
                self.log@,
            )[x] == log_model(pre).push(entry_model)[x] by {
                if x < pre.len() {
                    assert(self.log@[x] == pre[x]);
                } else {
                    assert(self.log@[x] == entry);
                }
            }
            assert(log_model(self.log@) =~= log_model(pre).push(entry_model));
        }
        Ok(idx)
    }

    /// Build the AppendEntries for one peer: the entries from the
    /// peer's `next_index` onward (none — a heartbeat — when the peer
    /// is believed up to date), behind the index and term of the
    /// entry just before them, carrying the leader's term and commit
    /// index.  Only a leader builds one.
    pub fn make_append_entries(&self, peer: u64) -> (r: Result<AppendEntriesArgs, Error>)
        requires
            self.wf(),
        ensures
            r is Ok <==> self.role is Leader,
            match r {
                Ok(args) => {
                    &&& args.wf()
                    &&& args.term == self.current_term
                    &&& args.leader_id == self.config.this_id
                    &&& args.leader_commit == self.commit_index
                    &&& match self.role {
                        Role::Leader(ls) => {
                            let next = if ls.next_index@.contains_key(peer) {
                                ls.next_index@[peer] as int
                            } else {
                                self.spec_log_len() as int + 1
                            };
                            &&& args.prev_log_index == next - 1
                            &&& args.prev_log_term == self.spec_term_at(next - 1)
                            &&& args.abs_entries() =~= self.abs_log().skip(next - 1)
                        },
                        _ => false,
                    }
                },
                Err(e) => e == Error::NotLeader,
            },
    {
        let next = match &self.role {
            Role::Leader(ls) => {
                let n = match ls.next_index.get(&peer) {
                    Some(v) => *v,
                    None => self.log.len() as u64 + 1,
                };
                proof {
                    if ls.next_index@.contains_key(peer) {
                        assert(1 <= ls.next_index@[peer] <= self.spec_log_len() + 1);
                    }
                }
                n
            },
            _ => {
                return Err(Error::NotLeader);
            },
        };
        let len = self.log.len();
        assert(1 <= next <= len as u64 + 1);
        let prev_log_index = next - 1;
        let prev_log_term = if prev_log_index == 0 {
            0
        } else {
            self.log[(prev_log_index - 1) as usize].term
        };
        let from = prev_log_index as usize;
        let entries = copy_suffix(&self.log, from);
        let args = AppendEntriesArgs {
            term: self.current_term,
            leader_id: self.config.this_id,
            prev_log_index,
            prev_log_term,
            entries,
            leader_commit: self.commit_index,
        };
        proof {
            let m = self.abs_log();
            assert(args.abs_entries() =~= m.skip(from as int));
            assert forall|i: int, j: int|
                0 <= i <= j < args.abs_entries().len() implies #[trigger] args.abs_entries()[i].term
                <= #[trigger] args.abs_entries()[j].term by {
                assert(args.abs_entries()[i] == m[from + i]);
                assert(args.abs_entries()[j] == m[from + j]);
            }
            if args.abs_entries().len() > 0 {
                assert(args.abs_entries()[0] == m[from as int]);
                assert(args.abs_entries()[args.abs_entries().len() - 1] == m[m.len() - 1]);
                if from > 0 {
                    assert(m[from - 1].term <= m[from as int].term);
                }
            }
        }
        Ok(args)
    }

    /// Digest one AppendEntries reply from `peer`, for a call that
    /// carried `sent_count` entries after `sent_prev_index` (both
    /// echoed from the arguments that were sent, so they lie within
    /// this leader's log).  A higher term forces a step down.  A
    /// success moves the peer's `match_index` to the end of what was
    /// sent and its `next_index` just past it.  A refusal steps the
    /// peer's `next_index` backward — to the follower's conflict hint
    /// when it sent one, else by one — never below 1 nor past this
    /// leader's log; the next cycle retries from there.  Stale
    /// replies change nothing.
    pub fn handle_append_reply(
        &mut self,
        peer: u64,
        sent_prev_index: u64,
        sent_count: u64,
        reply: &AppendEntriesReply,
    ) -> (stepped_down: bool)
        requires
            old(self).wf(),
            sent_prev_index + sent_count <= old(self).spec_log_len(),
        ensures
            final(self).wf(),
            stepped_down == (reply.term > old(self).current_term),
            stepped_down ==> {
                &&& final(self).current_term == reply.term
                &&& final(self).voted_for is None
                &&& final(self).role is Follower
            },
            !stepped_down ==> {
                &&& final(self).current_term == old(self).current_term
                &&& final(self).voted_for == old(self).voted_for
                &&& match (old(self).role, final(self).role) {
                    (Role::Leader(l0), Role::Leader(l1)) => {
                        if reply.term == old(self).current_term {
                            if reply.success {
                                &&& l1.match_index@ == l0.match_index@.insert(
                                    peer,
                                    (sent_prev_index + sent_count) as u64,
                                )
                                &&& l1.next_index@ == l0.next_index@.insert(
                                    peer,
                                    (sent_prev_index + sent_count + 1) as u64,
                                )
                            } else {
                                let cur = if l0.next_index@.contains_key(peer) {
                                    l0.next_index@[peer]
                                } else {
                                    (old(self).spec_log_len() + 1) as u64
                                };
                                let base = match reply.conflict_index {
                                    Some(h) => h,
                                    None => if cur > 1 {
                                        (cur - 1) as u64
                                    } else {
                                        1u64
                                    },
                                };
                                let stepped = if base < 1 {
                                    1u64
                                } else if base as int > old(self).spec_log_len() + 1 {
                                    (old(self).spec_log_len() + 1) as u64
                                } else {
                                    base
                                };
                                &&& l1.match_index@ == l0.match_index@
                                &&& l1.next_index@ == l0.next_index@.insert(peer, stepped)
                            }
                        } else {
                            l1 == l0
                        }
                    },
                    (Role::Follower, Role::Follower) => *final(self) == *old(self),
                    (Role::Candidate, Role::Candidate) => *final(self) == *old(self),
                    _ => false,
                }
            },
            final(self).abs_log() == old(self).abs_log(),
            final(self).commit_index == old(self).commit_index,
            final(self).last_applied == old(self).last_applied,
            final(self).config == old(self).config,
    {
        if reply.term > self.current_term {
            self.observe_term(reply.term);
            return true;
        }
        let len = self.log.len() as u64;
        if reply.term == self.current_term {
            match &mut self.role {
                Role::Leader(ls) => {
                    if reply.success {
                        let matched = sent_prev_index + sent_count;
                        ls.match_index.insert(peer, matched);
                        ls.next_index.insert(peer, matched + 1);
                    } else {
                        let cur = match ls.next_index.get(&peer) {
                            Some(v) => *v,
                            None => len + 1,
                        };
                        let base = match reply.conflict_index {
                            Some(h) => h,
                            None => if cur > 1 {
                                cur - 1
                            } else {
                                1
                            },
                        };
                        let stepped = if base < 1 {
                            1
                        } else if base > len + 1 {
                            len + 1
                        } else {
                            base
                        };
                        ls.next_index.insert(peer, stepped);
                    }
                },
                _ => {},
            }
        }
        false
    }

    /// Advance the leader's `commit_index` to the highest log index
    /// that a strict majority of the cluster (this leader and the
    /// given peers) is known to hold and whose entry carries the
    /// current term; it never moves backward, and when no such index
    /// exists it stays put.  Only a leader advances it.
    pub fn advance_commit_index(&mut self, peers: &Vec<u64>) -> (r: Result<u64, Error>)
        requires
            old(self).wf(),
        ensures
            final(self).wf(),
            r is Ok <==> old(self).role is Leader,
            match r {
                Ok(c) => {
                    &&& final(self).commit_index == c
                    &&& c >= old(self).commit_index
                    &&& c > old(self).commit_index ==> spec_committable(*old(self), peers@, c)
                    &&& forall|i: u64|
                        c < i <= old(self).spec_log_len() ==> !spec_committable(
                            *old(self),
                            peers@,
                            i,
                        )
                },
                Err(e) => e == Error::NotLeader && *final(self) == *old(self),
            },
            final(self).current_term == old(self).current_term,
            final(self).voted_for == old(self).voted_for,
            final(self).abs_log() == old(self).abs_log(),
            final(self).last_applied == old(self).last_applied,
            final(self).role == old(self).role,
            final(self).config == old(self).config,
    {
        let is_leader = match self.role {
            Role::Leader(_) => true,
            _ => false,
        };
        if !is_leader {
            return Err(Error::NotLeader);
        }
        let len = self.log.len() as u64;
        let mut idx = len;
        while idx > self.commit_index
            invariant
                *self == *old(self),
                old(self).wf(),
                old(self).role is Leader,
                idx <= len,
                len == old(self).spec_log_len(),
                forall|i: u64|
                    idx < i <= len ==> !spec_committable(*old(self), peers@, i),
            decreases idx,
        {
            let cur_len = self.log.len();
            assert(idx - 1 < cur_len as u64);
            let slot = (idx - 1) as usize;
            let term_matches = self.log[slot].term == self.current_term;
            proof {
                assert(old(self).spec_term_at(idx as int) == old(self).abs_log()[idx - 1].term);
            }
            if term_matches {
                let acks = match &self.role {
                    Role::Leader(ls) => count_acks(&ls.match_index, peers, idx),
                    _ => {
                        proof {
                            assert(false);
                        }
                        0
                    },
                };
                let majority = 2 * (acks as u128 + 1) > peers.len() as u128 + 1;
                if majority {
                    self.commit_index = idx;
                    proof {
                        assert(spec_committable(*old(self), peers@, idx));
                    }
                    return Ok(idx);
                }
                proof {
                    assert(!spec_majority(
                        1 + spec_ack_count(
                            old(self).role->Leader_0.match_index@,
                            peers@,
                            idx,
                        ),
                        peers@.len() as int + 1,
                    ));
                    assert(!spec_committable(*old(self), peers@, idx));
                }
            } else {
                proof {
                    assert(!spec_committable(*old(self), peers@, idx));
                }
            }
            idx = idx - 1;
        }
        Ok(self.commit_index)
    }
}

} // verus!
