//! The safety arguments of the protocol, stated over the
//! mathematical models that the executable functions' contracts use:
//! at most one leader per term, the log matching property and its
//! preservation by AppendEntries, and the completeness argument that
//! carries a committed entry into the next leader's log.

use vstd::prelude::*;

use vstd::set_lib::lemma_len_subset;
use vstd::set_lib::lemma_set_disjoint_lens;

use crate::election::{spec_majority, spec_up_to_date};
use crate::log::{lemma_match_len_props, lemma_merged_props, spec_match_len, spec_merged};
use crate::state::{terms_nondecreasing, Entry};

verus! {

/// The Log Matching Property over a pair of logs: where the two hold
/// an entry with the same index and term, they are identical up to
/// and including that index.
pub open spec fn log_matching(a: Seq<Entry>, b: Seq<Entry>) -> bool {
    forall|i: int| #![trigger a[i], b[i]]
        0 <= i < a.len() && i < b.len() && a[i].term == b[i].term ==> a.take(i + 1) == b.take(
            i + 1,
        )
}

/// Two strict majorities of one membership always share a server.
pub proof fn lemma_quorum_overlap(members: Set<u64>, a: Set<u64>, b: Set<u64>) -> (w: u64)
    requires
        members.finite(),
        a.subset_of(members),
        b.subset_of(members),
        spec_majority(a.len() as int, members.len() as int),
        spec_majority(b.len() as int, members.len() as int),
    ensures
        a.contains(w),
        b.contains(w),
{
    lemma_len_subset(a, members);
    lemma_len_subset(b, members);
    if forall|x: u64| !(#[trigger] a.contains(x) && b.contains(x)) {
        assert(a.disjoint(b));
        lemma_set_disjoint_lens(a, b);
        assert((a + b).subset_of(members));
        lemma_len_subset(a + b, members);
        assert(false);
    }
    choose|x: u64| a.contains(x) && b.contains(x)
}

/// Election safety: within one term, at most one server can win.  If
/// each member votes for at most one candidate in the term (`votes`
/// records the vote each voter cast), and two candidates each hold
/// the granted votes of a strict majority, they are the same server.
pub proof fn lemma_election_safety(
    members: Set<u64>,
    votes: Map<u64, u64>,
    candidate_a: u64,
    voters_a: Set<u64>,
    candidate_b: u64,
    voters_b: Set<u64>,
)
    requires
        members.finite(),
        voters_a.subset_of(members),
        voters_b.subset_of(members),
        spec_majority(voters_a.len() as int, members.len() as int),
        spec_majority(voters_b.len() as int, members.len() as int),
        forall|v: u64| voters_a.contains(v) ==> #[trigger] votes[v] == candidate_a,
        forall|v: u64| voters_b.contains(v) ==> #[trigger] votes[v] == candidate_b,
    ensures
        candidate_a == candidate_b,
{
    let w = lemma_quorum_overlap(members, voters_a, voters_b);
    assert(votes[w] == candidate_a);
    assert(votes[w] == candidate_b);
}

/// The log matching property is preserved by an accepted
/// AppendEntries.  A follower whose log matched the leader's at the
/// consistency point, and whose log satisfied log matching against
/// the leader's log and against any third log that also matched the
/// leader's, still satisfies both after its log becomes the merge of
/// its old log with entries cut from the leader's log.
pub proof fn lemma_log_matching_preserved(
    follower: Seq<Entry>,
    leader: Seq<Entry>,
    other: Seq<Entry>,
    prev: int,
    entries: Seq<Entry>,
)
    requires
        0 <= prev,
        prev + entries.len() <= leader.len(),
        entries =~= leader.subrange(prev, prev + entries.len()),
        prev <= follower.len(),
        prev > 0 ==> follower[prev - 1].term == leader[prev - 1].term,
        log_matching(follower, leader),
        log_matching(follower, other),
        log_matching(leader, other),
    ensures
        log_matching(spec_merged(follower, prev, entries), leader),
        log_matching(spec_merged(follower, prev, entries), other),
{
    lemma_match_len_props(follower, prev, entries);
    lemma_merged_props(follower, prev, entries);
    let k = spec_match_len(follower, prev, entries);
    let m = spec_merged(follower, prev, entries);
    let e = entries.len() as int;
    let b = prev + k;
    let c = prev + e;
    // The follower and the leader hold the same entries strictly
    // below the truncation point.
    if b > 0 {
        if k > 0 {
            assert(follower[prev + (k - 1)].term == entries[k - 1].term);
            assert(entries[k - 1] == leader.subrange(prev, prev + entries.len())[k - 1]);
            assert(follower[b - 1].term == leader[b - 1].term);
        }
        assert(follower[b - 1].term == leader[b - 1].term);
        assert(follower.take(b) == leader.take(b));
    }
    assert forall|x: int| 0 <= x < c && x < m.len() implies m[x] == leader[x] by {
        if x < b {
            assert(m[x] == follower[x]);
            assert(follower.take(b)[x] == leader.take(b)[x]);
        } else {
            assert(m[x] == entries[x - prev]);
            assert(entries[x - prev] == leader.subrange(prev, prev + entries.len())[x - prev]);
        }
    }
    if k == e {
        assert(m == follower);
    }
    assert forall|i: int| #![trigger m[i], leader[i]]
        0 <= i < m.len() && i < leader.len() && m[i].term == leader[i].term implies m.take(i + 1)
        == leader.take(i + 1) by {
        if i < c {
            assert forall|y: int| #![trigger m.take(i + 1)[y]] 0 <= y <= i implies m.take(i + 1)[y] == leader.take(i + 1)[y] by {
                assert(m[y] == leader[y]);
            }
            assert(m.take(i + 1) =~= leader.take(i + 1));
        } else {
            assert(m == follower);
            assert(follower[i].term == leader[i].term);
            assert(follower.take(i + 1) == leader.take(i + 1));
        }
    }
    assert forall|i: int| #![trigger m[i], other[i]]
        0 <= i < m.len() && i < other.len() && m[i].term == other[i].term implies m.take(i + 1)
        == other.take(i + 1) by {
        if i < c {
            assert(m[i] == leader[i]);
            assert(leader[i].term == other[i].term);
            assert(leader.take(i + 1) == other.take(i + 1));
            assert forall|y: int| #![trigger m.take(i + 1)[y]] 0 <= y <= i implies m.take(i + 1)[y] == other.take(i + 1)[y] by {
                assert(m[y] == leader[y]);
                assert(leader.take(i + 1)[y] == other.take(i + 1)[y]);
            }
            assert(m.take(i + 1) =~= other.take(i + 1));
        } else {
            assert(m == follower);
            assert(follower[i].term == other[i].term);
            assert(follower.take(i + 1) == other.take(i + 1));
        }
    }
}

/// A log is coherent with the log `master` that the unique leader of
/// term `t` grew (election safety gives its uniqueness): wherever the
/// log holds an entry of term `t`, it copied the leader's log up to
/// and including that position.  AppendEntries establishes this for
/// every entry it replicates.
pub open spec fn coherent_with(l: Seq<Entry>, t: u64, master: Seq<Entry>) -> bool {
    forall|j: int| #![trigger l[j]]
        0 <= j < l.len() && l[j].term == t ==> j < master.len() && l.take(j + 1) == master.take(
            j + 1,
        )
}

/// Leader completeness, across one election: a voter holds an entry
/// committed in term `t`; a candidate whose log ends in term `t` and
/// is at least as up-to-date as the voter's — as the voting rule
/// demands before the vote is granted — holds that entry too, at the
/// same index.  Both logs are coherent with the term-`t` leader's
/// log, which replication guarantees of every entry of term `t`.
pub proof fn lemma_leader_completeness_vote(
    voter: Seq<Entry>,
    candidate: Seq<Entry>,
    master: Seq<Entry>,
    t: u64,
    i: int,
)
    requires
        voter.len() <= u64::MAX,
        candidate.len() <= u64::MAX,
        0 <= i < voter.len(),
        voter[i].term == t,
        terms_nondecreasing(voter),
        candidate.len() > 0,
        candidate[candidate.len() - 1].term == t,
        coherent_with(voter, t, master),
        coherent_with(candidate, t, master),
        spec_up_to_date(
            candidate[candidate.len() - 1].term,
            candidate.len() as u64,
            voter[voter.len() - 1].term,
            voter.len() as u64,
        ),
    ensures
        i < candidate.len(),
        candidate[i] == voter[i],
{
    let vl = voter.len() - 1;
    let cl = candidate.len() - 1;
    assert(voter[i].term <= voter[vl].term);
    assert(voter[vl].term == t);
    assert(candidate.len() >= voter.len());
    assert(cl < master.len() && candidate.take(cl + 1) == master.take(cl + 1));
    assert(i < master.len() && voter.take(i + 1) == master.take(i + 1));
    assert(candidate.take(cl + 1)[i] == master.take(cl + 1)[i]);
    assert(candidate[i] == master[i]);
    assert(voter.take(i + 1)[i] == master.take(i + 1)[i]);
    assert(voter[i] == master[i]);
}

/// Leader completeness, quorums included: an entry of term `t` was
/// committed by replicating it, at position `i`, onto a strict
/// majority of the cluster; a candidate whose log ends in term `t`
/// wins the votes of another strict majority.  The two majorities
/// share a voter, and the voting rule only let it grant its vote to a
/// log at least as up-to-date as its own — so the committed entry is
/// in the new leader's log, at the same position.
pub proof fn lemma_leader_completeness(
    members: Set<u64>,
    holders: Set<u64>,
    voters: Set<u64>,
    logs: Map<u64, Seq<Entry>>,
    candidate: Seq<Entry>,
    master: Seq<Entry>,
    t: u64,
    i: int,
)
    requires
        members.finite(),
        holders.subset_of(members),
        voters.subset_of(members),
        spec_majority(holders.len() as int, members.len() as int),
        spec_majority(voters.len() as int, members.len() as int),
        forall|v: u64| #[trigger] holders.contains(v) ==> {
            &&& logs.contains_key(v)
            &&& logs[v].len() <= u64::MAX
            &&& 0 <= i < logs[v].len()
            &&& logs[v][i].term == t
            &&& terms_nondecreasing(logs[v])
            &&& coherent_with(logs[v], t, master)
        },
        candidate.len() <= u64::MAX,
        candidate.len() > 0,
        candidate[candidate.len() - 1].term == t,
        coherent_with(candidate, t, master),
        forall|v: u64| #[trigger] voters.contains(v) ==> logs.contains_key(v) && logs[v].len()
            > 0 && spec_up_to_date(
            candidate[candidate.len() - 1].term,
            candidate.len() as u64,
            logs[v][logs[v].len() - 1].term,
            logs[v].len() as u64,
        ),
    ensures
        i < candidate.len(),
        candidate[i] == master[i],
{
    let w = lemma_quorum_overlap(members, holders, voters);
    lemma_leader_completeness_vote(logs[w], candidate, master, t, i);
    assert(logs[w].take(i + 1) == master.take(i + 1));
    assert(logs[w].take(i + 1)[i] == master.take(i + 1)[i]);
}

} // verus!
