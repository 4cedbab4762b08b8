//! The apply pipeline: moves `last_applied` toward `commit_index`, handing the normal
//! payloads to the state machine in index order.
use vstd::prelude::*;
use crate::types::{Entry, EntryPayload, RaftError};

verus! {

/// The apply worker's view of the node: what is committed, how far the log reaches, and what
/// has been applied.
#[derive(Clone, Copy, Debug, PartialEq, Eq, Structural)]
pub struct ReplicationEventListener {
    pub last_applied: u64,
    pub last_log_index: u64,
    pub commit_index: u64,
}

/// The smaller of two indices.
pub open spec fn min_u64(a: u64, b: u64) -> u64 {
    if a <= b { a } else { b }
}

/// The inclusive range of entries to apply next, if any.
pub open spec fn fetch_range(l: ReplicationEventListener) -> Option<(u64, u64)> {
    let through = min_u64(l.commit_index, l.last_log_index);
    if l.commit_index > l.last_applied && through > l.last_applied {
        Some(((l.last_applied + 1) as u64, through))
    } else {
        None
    }
}

/// `fetched` is a run of consecutive entries starting right after `l.last_applied`, within
/// the range that is due.
pub open spec fn fetched_ok(l: ReplicationEventListener, fetched: Seq<Entry>) -> bool {
    &&& forall|k: int| 0 <= k < fetched.len() ==> #[trigger] fetched[k].index == l.last_applied + 1 + k
    &&& fetched.len() > 0 ==> match fetch_range(l) {
        Some((_, through)) => l.last_applied + fetched.len() <= through,
        None => false,
    }
}

/// The normal payloads of `s`, in order, with their indices.
pub open spec fn normal_payloads(s: Seq<Entry>) -> Seq<(u64, Seq<u8>)>
    decreases s.len(),
{
    if s.len() == 0 {
        Seq::empty()
    } else {
        let rest = normal_payloads(s.drop_last());
        match s.last().payload {
            EntryPayload::Normal(d) => rest.push((s.last().index, d@)),
            _ => rest,
        }
    }
}

/// The listener after applying `fetched`.
pub open spec fn after_apply(l: ReplicationEventListener, fetched: Seq<Entry>) -> ReplicationEventListener {
    if fetched.len() == 0 {
        l
    } else {
        ReplicationEventListener { last_applied: fetched.last().index, ..l }
    }
}

/// The listener after it learns of a newer commit index, log end or applied index.
pub open spec fn after_observe(l: ReplicationEventListener, commit_index: u64, last_log_index: u64, last_applied: u64) -> ReplicationEventListener {
    ReplicationEventListener {
        commit_index: if commit_index > l.commit_index { commit_index } else { l.commit_index },
        last_log_index: if last_log_index > l.last_log_index { last_log_index } else { l.last_log_index },
        last_applied: if last_applied > l.last_applied { last_applied } else { l.last_applied },
    }
}

impl ReplicationEventListener {
    /// The listener that has seen nothing yet.
    pub open spec fn new_spec() -> ReplicationEventListener {
        ReplicationEventListener { last_applied: 0, last_log_index: 0, commit_index: 0 }
    }

    /// A listener that has seen nothing yet.
    pub fn new() -> (r: ReplicationEventListener)
        ensures
            r == Self::new_spec(),
    {
        ReplicationEventListener { last_applied: 0, last_log_index: 0, commit_index: 0 }
    }

    /// Takes in a `Commited` report from the role driver; each index only moves forward.
    pub fn observe_committed(&mut self, commit_index: u64, last_log_index: u64, last_applied: u64)
        ensures
            *final(self) == after_observe(*old(self), commit_index, last_log_index, last_applied),
    {
        if commit_index > self.commit_index {
            self.commit_index = commit_index;
        }
        if last_log_index > self.last_log_index {
            self.last_log_index = last_log_index;
        }
        if last_applied > self.last_applied {
            self.last_applied = last_applied;
        }
    }

    /// The inclusive range of log entries to fetch and apply next, if any.
    pub fn entries_to_fetch(&self) -> (r: Option<(u64, u64)>)
        ensures
            r == fetch_range(*self),
    {
        let through = if self.commit_index <= self.last_log_index { self.commit_index } else { self.last_log_index };
        if self.commit_index > self.last_applied && through > self.last_applied {
            Some((self.last_applied + 1, through))
        } else {
            None
        }
    }

    /// Applies the entries fetched for the due range: returns the normal payloads, in index
    /// order, for the state machine, and moves `last_applied` to the last fetched entry, even
    /// when that entry carries no payload. `report_metrics` is set when `last_applied` moved.
    /// Entries that are not the due run are fatal.
    pub fn replicate_to_state_machine_if_needed(&mut self, fetched: Vec<Entry>, report_metrics: &mut bool) -> (r: Result<Vec<(u64, Vec<u8>)>, RaftError>)
        ensures
            r.is_ok() == fetched_ok(*old(self), fetched@),
            old(self).last_applied <= final(self).last_applied,
            old(self).last_applied <= old(self).commit_index ==> final(self).last_applied <= final(self).commit_index,
            final(self).commit_index == old(self).commit_index,
            final(self).last_log_index == old(self).last_log_index,
            r.is_ok() ==> {
                &&& *final(self) == after_apply(*old(self), fetched@)
                &&& *final(report_metrics) == (*old(report_metrics) || fetched@.len() > 0)
                &&& r.unwrap()@.len() == normal_payloads(fetched@).len()
                &&& forall|k: int| 0 <= k < r.unwrap()@.len() ==> #[trigger] r.unwrap()@[k].0 == normal_payloads(fetched@)[k].0
                    && r.unwrap()@[k].1@ == normal_payloads(fetched@)[k].1
            },
            r.is_err() ==> r == Err::<Vec<(u64, Vec<u8>)>, RaftError>(RaftError::InconsistentState) && *final(self) == *old(self)
                && *final(report_metrics) == *old(report_metrics),
    {
        let range = self.entries_to_fetch();
        let n = fetched.len();
        if n > 0 {
            match range {
                None => {
                    return Err(RaftError::InconsistentState);
                },
                Some((_, through)) => {
                    if (n as u64) > through - self.last_applied {
                        return Err(RaftError::InconsistentState);
                    }
                },
            }
        }
        let mut out: Vec<(u64, Vec<u8>)> = Vec::new();
        let mut k: usize = 0;
        while k < n
            invariant
                n == fetched@.len(),
                k <= n,
                n > 0 ==> match fetch_range(*self) {
                    Some((_, through)) => self.last_applied + n <= through,
                    None => false,
                },
                forall|j: int| 0 <= j < k ==> #[trigger] fetched@[j].index == self.last_applied + 1 + j,
                out@.len() == normal_payloads(fetched@.subrange(0, k as int)).len(),
                forall|j: int| 0 <= j < out@.len() ==> #[trigger] out@[j].0 == normal_payloads(fetched@.subrange(0, k as int))[j].0
                    && out@[j].1@ == normal_payloads(fetched@.subrange(0, k as int))[j].1,
            decreases n - k,
        {
            let e = &fetched[k];
            if e.index != self.last_applied + 1 + k as u64 {
                return Err(RaftError::InconsistentState);
            }
            let ghost pre = fetched@.subrange(0, k as int);
            let ghost next = fetched@.subrange(0, k + 1);
            assert(next.drop_last() == pre);
            assert(next.last() == fetched@[k as int]);
            match &e.payload {
                EntryPayload::Normal(d) => {
                    out.push((e.index, crate::types::copy_bytes(d)));
                },
                _ => {},
            }
            k = k + 1;
        }
        assert(fetched@.subrange(0, n as int) == fetched@);
        if n > 0 {
            self.last_applied = fetched[n - 1].index;
            *report_metrics = true;
        }
        Ok(out)
    }
}

} // verus!
