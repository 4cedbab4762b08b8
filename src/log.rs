//! The shape of a node's log: contiguous indices after the compaction boundary, and
//! terms that never decrease.
use vstd::prelude::*;
use crate::types::Entry;

verus! {

/// Entry `k` of `log` has index `start + 1 + k`.
pub open spec fn indices_follow(log: Seq<Entry>, start: u64) -> bool {
    forall|k: int| 0 <= k < log.len() ==> #[trigger] log[k].index == start + 1 + k
}

/// Terms never decrease along `log`, and none is below the boundary's term.
pub open spec fn terms_sorted(log: Seq<Entry>, start_term: u64) -> bool {
    &&& forall|i: int, j: int| 0 <= i <= j < log.len() ==> #[trigger] log[i].term <= #[trigger] log[j].term
    &&& forall|k: int| 0 <= k < log.len() ==> start_term <= #[trigger] log[k].term
}

/// A log that starts right after the boundary `(start, start_term)`.
pub open spec fn log_ok(log: Seq<Entry>, start: u64, start_term: u64) -> bool {
    &&& indices_follow(log, start)
    &&& terms_sorted(log, start_term)
    &&& start + log.len() <= u64::MAX
}

/// The term of the last entry, or the boundary's term when no entry follows it.
pub open spec fn last_term(log: Seq<Entry>, start_term: u64) -> u64 {
    if log.len() == 0 {
        start_term
    } else {
        log.last().term
    }
}

/// The term at index `i`, for `start <= i <= start + log.len()`.
pub open spec fn term_at(log: Seq<Entry>, start: u64, start_term: u64, i: int) -> u64 {
    if i == start {
        start_term
    } else {
        log[i - start - 1].term
    }
}

/// Whether `entries` form a log that starts right after `(start, start_term)`.
pub fn check_log(entries: &Vec<Entry>, start: u64, start_term: u64) -> (r: bool)
    ensures
        r == log_ok(entries@, start, start_term),
{
    let mut expected: u64 = start;
    let mut prev_term: u64 = start_term;
    let mut k: usize = 0;
    while k < entries.len()
        invariant
            k <= entries.len(),
            expected == start + k,
            log_ok(entries@.subrange(0, k as int), start, start_term),
            prev_term == last_term(entries@.subrange(0, k as int), start_term),
        decreases entries.len() - k,
    {
        let ghost pre = entries@.subrange(0, k as int);
        let ghost next = entries@.subrange(0, k + 1);
        assert(next == pre.push(entries@[k as int]));
        if expected == u64::MAX {
            proof {
                assert(!log_ok(entries@, start, start_term));
            }
            return false;
        }
        expected = expected + 1;
        let e = &entries[k];
        if e.index != expected || e.term < prev_term {
            proof {
                if log_ok(entries@, start, start_term) {
                    if k > 0 {
                        assert(entries@[k - 1] == pre[k - 1]);
                        assert(entries@[k - 1].term <= entries@[k as int].term);
                    } else {
                        assert(start_term <= entries@[0].term);
                    }
                    assert(entries@[k as int].index == start + 1 + k);
                }
            }
            return false;
        }
        prev_term = e.term;
        proof {
            assert forall|i: int, j: int| 0 <= i <= j < next.len() implies #[trigger] next[i].term <= #[trigger] next[j].term by {
                if j == k {
                    if i < k {
                        assert(pre[i].term <= pre[k - 1].term);
                    }
                } else {
                    assert(pre[i].term <= pre[j].term);
                }
            }
            assert forall|m: int| 0 <= m < next.len() implies start_term <= #[trigger] next[m].term by {
                if m < k {
                    assert(start_term <= pre[m].term);
                } else if k > 0 {
                    assert(start_term <= pre[k - 1].term);
                }
            }
            assert forall|m: int| 0 <= m < next.len() implies #[trigger] next[m].index == start + 1 + m by {
                if m < k {
                    assert(pre[m].index == start + 1 + m);
                }
            }
        }
        k = k + 1;
    }
    assert(entries@.subrange(0, entries.len() as int) == entries@);
    true
}

} // verus!
