//! The log and commit pipeline: the consistency check and
//! conflict-resolution rules that AppendEntries applies to a log, and
//! the apply loop that hands committed commands to the external state
//! machine exactly once each.

use vstd::prelude::*;

use crate::state::{clone_entry, log_model, terms_nondecreasing, Entry, LogEntry, State};

verus! {

/// The AppendEntries consistency check: the sender's
/// `prev_log_index`/`prev_log_term` must name an entry the local log
/// also has (or the empty prefix).
pub open spec fn spec_consistent(log: Seq<Entry>, prev_index: int, prev_term: u64) -> bool {
    &&& 0 <= prev_index <= log.len()
    &&& prev_index > 0 ==> log[prev_index - 1].term == prev_term
}

/// How many of the incoming `entries` are already present, term for
/// term, in `log` starting right after position `prev`.
pub open spec fn spec_match_len(log: Seq<Entry>, prev: int, entries: Seq<Entry>) -> int
    decreases entries.len(),
{
    if entries.len() == 0 {
        0
    } else if 0 <= prev < log.len() && log[prev].term == entries[0].term {
        1 + spec_match_len(log, prev + 1, entries.skip(1))
    } else {
        0
    }
}

/// The log that results from accepting AppendEntries: entries already
/// present are kept, the first conflicting position (same index,
/// different term) truncates the rest of the log, and the remaining
/// incoming entries are appended.  If every incoming entry is already
/// present the log is unchanged.
pub open spec fn spec_merged(log: Seq<Entry>, prev: int, entries: Seq<Entry>) -> Seq<Entry> {
    let k = spec_match_len(log, prev, entries);
    if k == entries.len() {
        log
    } else {
        log.take(prev + k) + entries.skip(k)
    }
}

/// The match length lies between 0 and `entries.len()`; the whole
/// matched range lies within the log; every position in it matches in
/// term; and the position right past it (if both logs have one) does
/// not.
pub proof fn lemma_match_len_props(log: Seq<Entry>, prev: int, entries: Seq<Entry>)
    requires
        0 <= prev,
    ensures
        0 <= spec_match_len(log, prev, entries) <= entries.len(),
        spec_match_len(log, prev, entries) > 0 ==> prev + spec_match_len(log, prev, entries)
            <= log.len(),
        forall|j: int|
            0 <= j < spec_match_len(log, prev, entries) ==> log[prev + j].term
                == #[trigger] entries[j].term,
        spec_match_len(log, prev, entries) < entries.len() ==> (prev + spec_match_len(
            log,
            prev,
            entries,
        ) >= log.len() || log[prev + spec_match_len(log, prev, entries)].term != entries[spec_match_len(
            log,
            prev,
            entries,
        )].term),
    decreases entries.len(),
{
    if entries.len() == 0 {
    } else if prev < log.len() && log[prev].term == entries[0].term {
        lemma_match_len_props(log, prev + 1, entries.skip(1));
        let k = spec_match_len(log, prev, entries);
        assert forall|j: int| 0 <= j < k implies log[prev + j].term
            == #[trigger] entries[j].term by {
            if j > 0 {
                assert(entries.skip(1)[j - 1].term == entries[j].term);
            }
        }
        if k < entries.len() {
            assert(entries.skip(1)[k - 1].term == entries[k].term);
        }
    }
}

/// The match length is the unique value with the properties of
/// [`lemma_match_len_props`]: a loop that computes such a `k` has
/// computed the match length.
pub proof fn lemma_match_len_eq(log: Seq<Entry>, prev: int, entries: Seq<Entry>, k: int)
    requires
        0 <= prev,
        0 <= k <= entries.len(),
        k > 0 ==> prev + k <= log.len(),
        forall|j: int| 0 <= j < k ==> log[prev + j].term == #[trigger] entries[j].term,
        k < entries.len() ==> (prev + k >= log.len() || log[prev + k].term != entries[k].term),
    ensures
        k == spec_match_len(log, prev, entries),
    decreases entries.len(),
{
    if entries.len() == 0 {
    } else if k == 0 {
        assert(spec_match_len(log, prev, entries) == 0);
    } else {
        assert(log[prev + 0].term == entries[0].term);
        assert forall|j: int| 0 <= j < k - 1 implies log[prev + 1 + j].term
            == #[trigger] entries.skip(1)[j].term by {
            assert(entries.skip(1)[j].term == entries[j + 1].term);
        }
        if k - 1 < entries.skip(1).len() {
            assert(entries.skip(1)[k - 1].term == entries[k].term);
        }
        lemma_match_len_eq(log, prev + 1, entries.skip(1), k - 1);
    }
}

/// The merged log agrees with the old log strictly below the
/// truncation point, carries the incoming entries from there on, and
/// has length `prev + entries.len()` whenever anything changed.
pub proof fn lemma_merged_props(log: Seq<Entry>, prev: int, entries: Seq<Entry>)
    requires
        0 <= prev <= log.len(),
    ensures
        ({
            let k = spec_match_len(log, prev, entries);
            let m = spec_merged(log, prev, entries);
            &&& prev + k <= log.len()
            &&& (k == entries.len() ==> m == log)
            &&& (k < entries.len() ==> m.len() == prev + entries.len())
            &&& forall|i: int| 0 <= i < prev + k && i < log.len() ==> #[trigger] m[i] == log[i]
            &&& forall|j: int| k <= j < entries.len() ==> m[prev + j] == #[trigger] entries[j]
        }),
{
    lemma_match_len_props(log, prev, entries);
    let k = spec_match_len(log, prev, entries);
    let m = spec_merged(log, prev, entries);
    assert(prev + k <= log.len());
    if k < entries.len() {
        assert(m.len() == (prev + k) + (entries.len() - k));
        assert forall|i: int| 0 <= i < prev + k && i < log.len() implies #[trigger] m[i]
            == log[i] by {
            assert(m[i] == log.take(prev + k)[i]);
        }
        assert forall|j: int| k <= j < entries.len() implies m[prev + j]
            == #[trigger] entries[j] by {
            assert(m[prev + j] == entries.skip(k)[j - k]);
            assert(entries.skip(k)[j - k] == entries[j]);
        }
    }
}

/// A merge keeps terms in order: if the old log's terms never
/// decrease and stay under `bound`, and the incoming entries' terms
/// never decrease, start at or above the term at the consistency
/// point, and stay under `bound`, then the merged log's terms never
/// decrease and stay under `bound`.
pub proof fn lemma_merged_terms(
    log: Seq<Entry>,
    prev: int,
    entries: Seq<Entry>,
    prev_term: u64,
    bound: u64,
)
    requires
        spec_consistent(log, prev, prev_term),
        terms_nondecreasing(log),
        forall|i: int| 0 <= i < log.len() ==> #[trigger] log[i].term <= bound,
        forall|i: int, j: int|
            0 <= i <= j < entries.len() ==> #[trigger] entries[i].term
                <= #[trigger] entries[j].term,
        entries.len() > 0 ==> prev_term <= entries[0].term,
        entries.len() > 0 ==> entries[entries.len() - 1].term <= bound,
    ensures
        terms_nondecreasing(spec_merged(log, prev, entries)),
        forall|i: int|
            0 <= i < spec_merged(log, prev, entries).len() ==> #[trigger] spec_merged(
                log,
                prev,
                entries,
            )[i].term <= bound,
{
    lemma_match_len_props(log, prev, entries);
    lemma_merged_props(log, prev, entries);
    let k = spec_match_len(log, prev, entries);
    let m = spec_merged(log, prev, entries);
    if k < entries.len() {
        assert forall|x: int| 0 <= x < m.len() implies #[trigger] m[x].term <= bound by {
            if x < prev + k {
                assert(m[x] == log[x]);
            } else {
                assert(m[x] == entries[x - prev]);
                assert(entries[x - prev].term <= entries[entries.len() - 1].term);
            }
        }
        assert forall|i: int, j: int| 0 <= i <= j < m.len() implies #[trigger] m[i].term
            <= #[trigger] m[j].term by {
            if j < prev + k {
                assert(m[i] == log[i]);
                assert(m[j] == log[j]);
            } else if i >= prev + k {
                assert(m[i] == entries[i - prev]);
                assert(m[j] == entries[j - prev]);
                assert(entries[i - prev].term <= entries[j - prev].term);
            } else {
                assert(m[i] == log[i]);
                assert(m[j] == entries[j - prev]);
                assert(entries[k].term <= entries[j - prev].term);
                if k >= 1 {
                    assert(log[i].term <= log[prev + k - 1].term);
                    assert(log[prev + k - 1].term == entries[k - 1].term);
                    assert(entries[k - 1].term <= entries[k].term);
                } else {
                    assert(log[i].term <= log[prev - 1].term);
                    assert(prev_term <= entries[0].term);
                }
            }
        }
    }
}

/// Executable form of [`spec_match_len`]: how many of the incoming
/// entries are already present, term for term, after position `prev`.
pub fn match_len(log: &Vec<LogEntry>, prev: usize, entries: &Vec<LogEntry>) -> (k: usize)
    requires
        prev <= log@.len(),
    ensures
        k as int == spec_match_len(log_model(log@), prev as int, log_model(entries@)),
        k <= entries@.len(),
        prev + k <= log@.len(),
{
    let len = log.len();
    let mut k: usize = 0;
    while k < entries.len() && prev + k < len && log[prev + k].term == entries[k].term
        invariant
            len == log@.len(),
            prev <= log@.len(),
            0 <= k <= entries@.len(),
            prev + k <= len,
            forall|j: int|
                0 <= j < k ==> log_model(log@)[prev + j].term == #[trigger] log_model(
                    entries@,
                )[j].term,
        decreases entries@.len() - k,
    {
        k += 1;
    }
    proof {
        lemma_match_len_eq(log_model(log@), prev as int, log_model(entries@), k as int);
    }
    k
}

/// Executable form of [`spec_merged`]: keep what already matches,
/// truncate the first conflicting suffix, append what is new.  The
/// caller has already checked consistency at `prev` and that no
/// committed entry is truncated.
pub fn merge_entries(log: &mut Vec<LogEntry>, prev: usize, entries: &Vec<LogEntry>)
    requires
        prev <= old(log)@.len(),
    ensures
        log_model(final(log)@) == spec_merged(
            log_model(old(log)@),
            prev as int,
            log_model(entries@),
        ),
{
    let ghost old_model = log_model(log@);
    let ghost entries_model = log_model(entries@);
    let k = match_len(log, prev, entries);
    proof {
        lemma_merged_props(old_model, prev as int, entries_model);
    }
    if k < entries.len() {
        let len = log.len();
        assert(prev + k <= len);
        log.truncate(prev + k);
        assert(log_model(log@) =~= old_model.take(prev + k));
        let mut i: usize = k;
        while i < entries.len()
            invariant
                k <= i <= entries@.len(),
                k as int == spec_match_len(old_model, prev as int, entries_model),
                k < entries_model.len(),
                prev + k <= old_model.len(),
                entries_model == log_model(entries@),
                log@.len() == prev + i,
                log_model(log@) =~= old_model.take(prev + k as int) + entries_model.subrange(
                    k as int,
                    i as int,
                ),
            decreases entries@.len() - i,
        {
            let ghost pre = log@;
            let e = clone_entry(&entries[i]);
            log.push(e);
            proof {
                let rhs = old_model.take(prev + k as int) + entries_model.subrange(
                    k as int,
                    i + 1,
                );
                assert(log@ == pre.push(e));
                assert(rhs.len() == prev + i + 1);
                assert forall|x: int| 0 <= x < log@.len() implies #[trigger] log_model(log@)[x]
                    == rhs[x] by {
                    if x < pre.len() {
                        assert(log@[x] == pre[x]);
                        assert(log_model(pre)[x] == (old_model.take(prev + k as int)
                            + entries_model.subrange(k as int, i as int))[x]);
                        if x >= prev + k {
                            assert((old_model.take(prev + k as int) + entries_model.subrange(
                                k as int,
                                i as int,
                            ))[x] == entries_model.subrange(k as int, i as int)[x - (prev + k)]);
                            assert(rhs[x] == entries_model.subrange(k as int, i + 1)[x - (prev
                                + k)]);
                        }
                    } else {
                        assert(log@[x] == e);
                        assert(rhs[x] == entries_model.subrange(k as int, i + 1)[i - k]);
                        assert(entries_model.subrange(k as int, i + 1)[i - k]
                            == entries_model[i as int]);
                    }
                }
                assert(log_model(log@) =~= rhs);
            }
            i += 1;
        }
        proof {
            assert(entries_model.subrange(k as int, entries_model.len() as int)
                =~= entries_model.skip(k as int));
            assert(log_model(log@) =~= spec_merged(old_model, prev as int, entries_model));
        }
    }
}

/// An exact copy of the log's suffix from 0-based position `from` on:
/// the entries a leader sends a peer whose `next_index` is `from + 1`.
pub fn copy_suffix(log: &Vec<LogEntry>, from: usize) -> (r: Vec<LogEntry>)
    requires
        from <= log@.len(),
    ensures
        log_model(r@) =~= log_model(log@).skip(from as int),
{
    let mut r: Vec<LogEntry> = Vec::new();
    let mut i = from;
    while i < log.len()
        invariant
            from <= i <= log@.len(),
            log_model(r@) =~= log_model(log@).subrange(from as int, i as int),
        decreases log@.len() - i,
    {
        let ghost pre = r@;
        let e = clone_entry(&log[i]);
        r.push(e);
        proof {
            let rhs = log_model(log@).subrange(from as int, i + 1);
            assert(log_model(pre).len() == pre.len());
            assert(pre.len() == i - from);
            assert forall|x: int| 0 <= x < r@.len() implies #[trigger] log_model(r@)[x]
                == rhs[x] by {
                if x < pre.len() {
                    assert(r@[x] == pre[x]);
                    assert(log_model(pre)[x] == log_model(log@).subrange(from as int, i as int)[x]);
                } else {
                    assert(x == i - from);
                    assert(r@[x] == e);
                    assert(rhs[x] == log_model(log@)[from + x]);
                }
            }
            assert(log_model(r@) =~= rhs);
        }
        i += 1;
    }
    proof {
        assert(log_model(log@).subrange(from as int, log_model(log@).len() as int)
            =~= log_model(log@).skip(from as int));
    }
    r
}

/// The first 1-based index of the run of equal terms that ends at
/// 1-based index `i` of the log: the conflict hint a follower reports
/// so the leader can skip backward over a whole conflicting term.
pub open spec fn spec_first_of_term(log: Seq<Entry>, i: int) -> int
    decreases i,
{
    if i <= 1 {
        1
    } else if 2 <= i <= log.len() && log[i - 2].term == log[i - 1].term {
        spec_first_of_term(log, i - 1)
    } else {
        i
    }
}

/// Executable form of [`spec_first_of_term`]: walk back over the run
/// of equal terms that ends at 1-based index `i`.
pub fn first_conflict_of_term(log: &Vec<LogEntry>, i: u64) -> (r: u64)
    requires
        1 <= i <= log@.len(),
    ensures
        r as int == spec_first_of_term(log_model(log@), i as int),
        1 <= r <= i,
{
    let len = log.len();
    let mut r = i;
    while r > 1 && log[(r - 2) as usize].term == log[(r - 1) as usize].term
        invariant
            1 <= r <= i <= log@.len(),
            len == log@.len(),
            spec_first_of_term(log_model(log@), i as int) == spec_first_of_term(
                log_model(log@),
                r as int,
            ),
        decreases r,
    {
        proof {
            let m = log_model(log@);
            assert(m[r - 2].term == log@[r - 2]@.term);
            assert(m[r - 1].term == log@[r - 1]@.term);
            assert(spec_first_of_term(m, r as int) == spec_first_of_term(m, r - 1));
        }
        r = r - 1;
    }
    proof {
        let m = log_model(log@);
        if r > 1 {
            assert(m[r - 2].term == log@[r - 2]@.term);
            assert(m[r - 1].term == log@[r - 1]@.term);
            assert(spec_first_of_term(m, r as int) == r as int);
        }
    }
    r
}

impl State {
    /// One step of the apply loop: while `commit_index > last_applied`
    /// there is a committed entry not yet applied; this hands out the
    /// next one, in index order, and advances `last_applied` by
    /// exactly one, so each index is applied exactly once, ever.  The
    /// caller forwards the command to the external state machine.
    pub fn take_next_to_apply(&mut self) -> (r: Option<(u64, String)>)
        requires
            old(self).wf(),
        ensures
            final(self).wf(),
            r is Some <==> old(self).last_applied < old(self).commit_index,
            match r {
                Some(pair) => {
                    &&& pair.0 == old(self).last_applied + 1
                    &&& pair.1@ == old(self).abs_log()[old(self).last_applied as int].command
                    &&& final(self).last_applied == old(self).last_applied + 1
                },
                None => final(self).last_applied == old(self).last_applied,
            },
            final(self).abs_log() == old(self).abs_log(),
            final(self).commit_index == old(self).commit_index,
            final(self).current_term == old(self).current_term,
            final(self).voted_for == old(self).voted_for,
            final(self).role == old(self).role,
            final(self).config == old(self).config,
    {
        if self.last_applied < self.commit_index {
            let idx = self.last_applied + 1;
            let len = self.log.len();
            assert(self.last_applied < len as u64);
            let slot = self.last_applied as usize;
            let command = self.log[slot].command.clone();
            self.last_applied = idx;
            Some((idx, command))
        } else {
            None
        }
    }
}

} // verus!
