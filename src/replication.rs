//! The decisions of a per-peer replication driver: what to send next, and what a response
//! means for the peer's progress.
use vstd::prelude::*;
use crate::log::term_at;
use crate::node::RaftCore;
use crate::types::{AppendEntriesResponse, InstallSnapshotResponse, NodeId};

verus! {

/// The leader's replication driver for one peer.
#[derive(Clone, Copy, Debug, PartialEq, Eq, Structural)]
pub struct ReplicationDriver {
    pub target: NodeId,
    /// The next index to send to the peer.
    pub next_index: u64,
    /// The highest index known to be replicated on the peer.
    pub match_index: u64,
    /// The term of the entry at `match_index`.
    pub match_term: u64,
    /// Whether the peer holds the leader's whole log.
    pub is_line_rate: bool,
}

/// What the driver sends next.
#[derive(Clone, Copy, Debug, PartialEq, Eq, Structural)]
pub enum DriverAction {
    /// AppendEntries with the previous entry `(prev_log_index, prev_log_term)` and the
    /// entries of indices `from .. to` (`to` excluded; empty for a heartbeat).
    SendAppend { prev_log_index: u64, prev_log_term: u64, from: u64, to: u64 },
    /// The entries the peer needs are compacted: stream the snapshot instead.
    SendSnapshot,
}

/// What the driver reports to the leader.
#[derive(Clone, Copy, Debug, PartialEq, Eq, Structural)]
pub enum ReplicaEvent {
    UpdateMatchIndex { target: NodeId, match_index: u64, match_term: u64, is_line_rate: bool },
    RateUpdate { target: NodeId, is_line_rate: bool },
    RevertToFollower { target: NodeId, term: u64 },
    /// The peer needs entries that are compacted: it must be sent the snapshot through `through`.
    NeedsSnapshot { target: NodeId, through: u64 },
}

/// The next chunk of a snapshot of `len` bytes that starts at `offset`: the bytes up to
/// `end` (excluded), at most `chunk_size` of them, and whether it is the last.
pub open spec fn chunk_at(len: u64, chunk_size: u64, offset: u64) -> (u64, bool) {
    let end = if len - offset <= chunk_size { len } else { (offset + chunk_size) as u64 };
    (end, end == len)
}

/// Where the chunk of a snapshot of `len` bytes that starts at `offset` ends, and whether
/// it is the last; chunks hold `chunk_size` bytes but the last, so offsets strictly increase
/// until the last chunk, which carries `done`.
pub fn next_chunk(len: u64, chunk_size: u64, offset: u64) -> (r: (u64, bool))
    requires
        chunk_size > 0,
        offset <= len,
    ensures
        r == chunk_at(len, chunk_size, offset),
        offset < len ==> offset < r.0,
        r.0 <= len,
{
    let end = if len - offset <= chunk_size { len } else { offset + chunk_size };
    (end, end == len)
}

/// The batch end: at most `max_batch` entries after `next`, within the log.
pub open spec fn batch_end(next: u64, last: u64, max_batch: u64) -> u64 {
    if last + 1 - next <= max_batch { (last + 1) as u64 } else { (next + max_batch) as u64 }
}

/// The next index after a failed AppendEntries: one back, or straight after the peer's
/// hint when that is lower, never below one.
pub open spec fn backed_off(next: u64, hint: Option<u64>) -> u64 {
    let one_back = if next > 1 { (next - 1) as u64 } else { 1u64 };
    match hint {
        Some(h) => if h < one_back { (h + 1) as u64 } else { one_back },
        None => one_back,
    }
}

impl ReplicationDriver {
    /// A driver for `target` that starts right after the leader's last entry.
    pub fn new(target: NodeId, leader_last_log_index: u64) -> (r: ReplicationDriver)
        requires
            leader_last_log_index < u64::MAX,
        ensures
            r == (ReplicationDriver {
                target,
                next_index: (leader_last_log_index + 1) as u64,
                match_index: 0,
                match_term: 0,
                is_line_rate: false,
            }),
    {
        ReplicationDriver { target, next_index: leader_last_log_index + 1, match_index: 0, match_term: 0, is_line_rate: false }
    }

    /// What to send next: entries from `next_index`, at most `max_batch` of them, after the
    /// entry before it; or the snapshot when that entry is compacted or not in the leader's log.
    pub fn next_action(&self, core: &RaftCore, max_batch: u64) -> (r: DriverAction)
        requires
            core.wf(),
            core.last_log_index < u64::MAX,
            1 <= self.next_index <= core.last_log_index + 1,
        ensures
            if self.next_index <= core.snapshot_index || self.next_index <= core.log_start {
                r == DriverAction::SendSnapshot
            } else {
                r == (DriverAction::SendAppend {
                    prev_log_index: (self.next_index - 1) as u64,
                    prev_log_term: term_at(core.log@, core.log_start, core.log_start_term, self.next_index - 1),
                    from: self.next_index,
                    to: batch_end(self.next_index, core.last_log_index, max_batch),
                })
            },
    {
        if self.next_index <= core.snapshot_index || self.next_index <= core.log_start {
            return DriverAction::SendSnapshot;
        }
        let prev = self.next_index - 1;
        let ll = core.log.len();
        let prev_term = if prev == core.log_start {
            core.log_start_term
        } else {
            let idx = prev - core.log_start - 1;
            assert(idx < ll);
            core.log[idx as usize].term
        };
        let room = core.last_log_index - (self.next_index - 1);
        let to = if room <= max_batch { core.last_log_index + 1 } else { self.next_index + max_batch };
        DriverAction::SendAppend { prev_log_index: prev, prev_log_term: prev_term, from: self.next_index, to }
    }

    /// Takes in the peer's answer to AppendEntries sent with `prev_log_index` and `count`
    /// entries, the last of term `last_sent_term`, while the leader was at `current_term`
    /// with its log ending at `leader_last_log_index`.
    ///
    /// A higher term ends the driver. A success moves the match index forward (never back)
    /// and the next index after it. A refusal backs the next index off.
    pub fn handle_append_response(
        &mut self,
        current_term: u64,
        leader_last_log_index: u64,
        prev_log_index: u64,
        count: u64,
        last_sent_term: u64,
        res: AppendEntriesResponse,
    ) -> (r: Option<ReplicaEvent>)
        requires
            prev_log_index + count <= leader_last_log_index < u64::MAX,
            old(self).match_index <= leader_last_log_index,
        ensures
            res.term > current_term ==> r == Some(ReplicaEvent::RevertToFollower { target: old(self).target, term: res.term })
                && *final(self) == *old(self),
            res.term <= current_term && res.success ==> {
                let reached = (prev_log_index + count) as u64;
                let m = if reached > old(self).match_index { reached } else { old(self).match_index };
                &&& final(self).match_index == m
                &&& final(self).next_index == m + 1
                &&& final(self).is_line_rate == (m == leader_last_log_index)
                &&& final(self).match_term == if reached > old(self).match_index {
                    if count > 0 { last_sent_term } else { old(self).match_term }
                } else {
                    old(self).match_term
                }
                &&& r == Some(ReplicaEvent::UpdateMatchIndex {
                    target: old(self).target,
                    match_index: m,
                    match_term: final(self).match_term,
                    is_line_rate: m == leader_last_log_index,
                })
            },
            res.term <= current_term && !res.success ==> {
                &&& *final(self) == (ReplicationDriver {
                    next_index: backed_off(old(self).next_index, match res.conflict_opt { Some(c) => Some(c.index), None => None }),
                    is_line_rate: false,
                    ..*old(self)
                })
                &&& r == Some(ReplicaEvent::RateUpdate { target: old(self).target, is_line_rate: false })
            },
            final(self).target == old(self).target,
    {
        if res.term > current_term {
            return Some(ReplicaEvent::RevertToFollower { target: self.target, term: res.term });
        }
        if res.success {
            let reached = prev_log_index + count;
            if reached > self.match_index {
                self.match_index = reached;
                if count > 0 {
                    self.match_term = last_sent_term;
                }
            }
            self.next_index = self.match_index + 1;
            self.is_line_rate = self.match_index == leader_last_log_index;
            return Some(ReplicaEvent::UpdateMatchIndex {
                target: self.target,
                match_index: self.match_index,
                match_term: self.match_term,
                is_line_rate: self.is_line_rate,
            });
        }
        let one_back = if self.next_index > 1 { self.next_index - 1 } else { 1 };
        self.next_index = match res.conflict_opt {
            Some(c) => if c.index < one_back { c.index + 1 } else { one_back },
            None => one_back,
        };
        self.is_line_rate = false;
        Some(ReplicaEvent::RateUpdate { target: self.target, is_line_rate: false })
    }

    /// The event that asks the leader for the snapshot, when the entries this peer needs next
    /// are compacted or not in the leader's log.
    pub fn needs_snapshot(&self, core: &RaftCore) -> (r: Option<ReplicaEvent>)
        ensures
            r == (if self.next_index <= core.snapshot_index || self.next_index <= core.log_start {
                Some(ReplicaEvent::NeedsSnapshot { target: self.target, through: core.snapshot_index })
            } else {
                None
            }),
    {
        if self.next_index <= core.snapshot_index || self.next_index <= core.log_start {
            Some(ReplicaEvent::NeedsSnapshot { target: self.target, through: core.snapshot_index })
        } else {
            None
        }
    }

    /// Takes in the peer's answer to the last chunk of the snapshot through `snapshot_index`,
    /// sent while the leader was at `current_term`: a higher term ends the driver, any other
    /// answer means the snapshot is installed.
    pub fn handle_snapshot_response(&mut self, current_term: u64, snapshot_index: u64, snapshot_term: u64, res: InstallSnapshotResponse) -> (r: ReplicaEvent)
        requires
            snapshot_index < u64::MAX,
        ensures
            res.term > current_term ==> (r == ReplicaEvent::RevertToFollower { target: old(self).target, term: res.term })
                && *final(self) == *old(self),
            res.term <= current_term ==> ({
                &&& final(self).next_index == snapshot_index + 1
                &&& final(self).match_index == if snapshot_index > old(self).match_index { snapshot_index } else { old(self).match_index }
                &&& final(self).match_term == if snapshot_index > old(self).match_index { snapshot_term } else { old(self).match_term }
                &&& !final(self).is_line_rate
                &&& r == (ReplicaEvent::UpdateMatchIndex {
                    target: old(self).target,
                    match_index: final(self).match_index,
                    match_term: final(self).match_term,
                    is_line_rate: false,
                })
            }),
    {
        if res.term > current_term {
            return ReplicaEvent::RevertToFollower { target: self.target, term: res.term };
        }
        self.handle_snapshot_installed(snapshot_index, snapshot_term)
    }

    /// The peer acknowledged the whole snapshot through `snapshot_index` of term `snapshot_term`.
    pub fn handle_snapshot_installed(&mut self, snapshot_index: u64, snapshot_term: u64) -> (r: ReplicaEvent)
        requires
            snapshot_index < u64::MAX,
        ensures
            final(self).next_index == snapshot_index + 1,
            final(self).match_index == if snapshot_index > old(self).match_index { snapshot_index } else { old(self).match_index },
            final(self).match_term == if snapshot_index > old(self).match_index { snapshot_term } else { old(self).match_term },
            !final(self).is_line_rate,
            r == (ReplicaEvent::UpdateMatchIndex {
                target: old(self).target,
                match_index: final(self).match_index,
                match_term: final(self).match_term,
                is_line_rate: final(self).is_line_rate,
            }),
            final(self).target == old(self).target,
    {
        if snapshot_index > self.match_index {
            self.match_index = snapshot_index;
            self.match_term = snapshot_term;
        }
        self.next_index = snapshot_index + 1;
        self.is_line_rate = false;
        ReplicaEvent::UpdateMatchIndex {
            target: self.target,
            match_index: self.match_index,
            match_term: self.match_term,
            is_line_rate: self.is_line_rate,
        }
    }
}

} // verus!
