//! The handlers of the three Raft RPCs.
use vstd::prelude::*;
use crate::log::{last_term, log_ok, term_at};
use crate::node::{coerced_role, RaftCore};
use crate::types::{
    AppendEntriesRequest, AppendEntriesResponse, ConflictOpt, Entry, EntryPayload, InstallSnapshotRequest,
    InstallSnapshotResponse, MembershipConfig, NodeId, RaftError, SnapshotState, State, UpdateCurrentLeader,
    VoteRequest, VoteResponse,
};

verus! {

/// The role after an RPC of term `term` passed the term check: a higher term, or any valid
/// leader while campaigning or leading, makes the node a follower.
pub open spec fn role_after_term_check(c: RaftCore, term: u64) -> State {
    if c.target_state == State::Shutdown {
        State::Shutdown
    } else if term > c.current_term || c.target_state == State::Candidate || c.target_state == State::Leader {
        coerced_role(c.membership, c.id, State::Follower)
    } else {
        c.target_state
    }
}

/// The state after a valid leader's RPC passed the term check.
pub open spec fn after_leader_contact(c: RaftCore, term: u64, leader: NodeId, fresh: u64) -> RaftCore {
    RaftCore {
        current_term: if term > c.current_term { term } else { c.current_term },
        voted_for: if term > c.current_term { None } else { c.voted_for },
        current_leader: Some(leader),
        next_election_timeout: Some(fresh),
        target_state: role_after_term_check(c, term),
        ..c
    }
}

/// The first position `k` at or after `from` where `new[k]` is absent from `log` at
/// position `off + k` or has another term there; `new.len()` when there is none.
pub open spec fn divergence(log: Seq<Entry>, off: int, new: Seq<Entry>, from: int) -> int
    decreases new.len() - from,
{
    if from >= new.len() {
        new.len() as int
    } else if off + from >= log.len() || log[off + from].term != new[from].term {
        from
    } else {
        divergence(log, off, new, from + 1)
    }
}

/// `log` after taking in `new`, whose first entry belongs at position `off`: entries already
/// present with the same term stay, the log is cut at the first conflict, and what is
/// missing is appended.
pub open spec fn merged(log: Seq<Entry>, off: int, new: Seq<Entry>) -> Seq<Entry> {
    let d = divergence(log, off, new, 0);
    if d == new.len() {
        log
    } else {
        log.take(off + d) + new.skip(d)
    }
}

/// The last configuration change among `s`.
pub open spec fn last_config(s: Seq<Entry>) -> Option<MembershipConfig>
    decreases s.len(),
{
    if s.len() == 0 {
        None
    } else {
        match s.last().payload {
            EntryPayload::ConfigChange(c) => Some(c),
            _ => last_config(s.drop_last()),
        }
    }
}

/// The entries of `new` that are appended by the merge.
pub open spec fn appended(log: Seq<Entry>, off: int, new: Seq<Entry>) -> Seq<Entry> {
    new.skip(divergence(log, off, new, 0))
}

/// The request's own entries follow its previous entry.
pub open spec fn request_well_formed(req: AppendEntriesRequest) -> bool {
    log_ok(req.entries@, req.prev_log_index, req.prev_log_term)
}

/// The request's previous entry is in the log with the expected term.
pub open spec fn prev_matches(c: RaftCore, req: AppendEntriesRequest) -> bool {
    &&& c.log_start <= req.prev_log_index <= c.last_log_index
    &&& term_at(c.log@, c.log_start, c.log_start_term, req.prev_log_index as int) == req.prev_log_term
}

/// Taking in the request would cut the log at or below an index that is committed or applied.
pub open spec fn cuts_committed(c: RaftCore, req: AppendEntriesRequest) -> bool {
    let off = req.prev_log_index - c.log_start;
    let d = divergence(c.log@, off, req.entries@, 0);
    &&& d < req.entries@.len()
    &&& off + d < c.log@.len()
    &&& (req.prev_log_index + 1 + d <= c.commit_index || req.prev_log_index + 1 + d <= c.last_applied)
}

/// The hint sent back when the previous entry does not match.
pub open spec fn conflict_hint(c: RaftCore, req: AppendEntriesRequest) -> Option<ConflictOpt> {
    if !request_well_formed(req) {
        None
    } else if req.prev_log_index > c.last_log_index {
        Some(ConflictOpt { term: c.last_log_term, index: c.last_log_index })
    } else if req.prev_log_index < c.log_start {
        Some(ConflictOpt { term: c.log_start_term, index: c.log_start })
    } else {
        Some(ConflictOpt { term: term_at(c.log@, c.log_start, c.log_start_term, req.prev_log_index as int), index: c.commit_index })
    }
}

/// The role after installing a configuration, as `update_membership` decides it.
pub open spec fn role_after_config(c: RaftCore, cfg: MembershipConfig) -> State {
    if !cfg.has_node(c.id) {
        State::NonVoter
    } else if c.target_state == State::NonVoter && cfg.in_members(c.id) {
        State::Follower
    } else {
        c.target_state
    }
}

proof fn lemma_divergence_from(log: Seq<Entry>, off: int, new: Seq<Entry>, k: int)
    requires
        0 <= k <= new.len(),
        forall|j: int| 0 <= j < k ==> off + j < log.len() && log[off + j].term == (#[trigger] new[j]).term,
    ensures
        divergence(log, off, new, 0) == divergence(log, off, new, k),
    decreases k,
{
    if k > 0 {
        lemma_divergence_from(log, off, new, k - 1);
        assert(off + (k - 1) < log.len() && log[off + (k - 1)].term == new[k - 1].term);
        assert(divergence(log, off, new, k - 1) == divergence(log, off, new, k));
    }
}

/// Where the divergence lies, and that the entries before it match.
pub proof fn lemma_divergence_bounds(log: Seq<Entry>, off: int, new: Seq<Entry>, from: int)
    requires
        0 <= from <= new.len(),
    ensures
        from <= divergence(log, off, new, from) <= new.len(),
        forall|j: int| from <= j < divergence(log, off, new, from) ==> off + j < log.len() && log[off + j].term == (#[trigger] new[j]).term,
        divergence(log, off, new, from) < new.len() ==> {
            let d = divergence(log, off, new, from);
            off + d >= log.len() || log[off + d].term != new[d].term
        },
    decreases new.len() - from,
{
    if from < new.len() && !(off + from >= log.len() || log[off + from].term != new[from].term) {
        lemma_divergence_bounds(log, off, new, from + 1);
    }
}

/// Taking in a well-formed request whose previous entry matches keeps the log well shaped.
proof fn lemma_merged_ok(log: Seq<Entry>, start: u64, start_term: u64, prev: u64, prev_term: u64, new: Seq<Entry>)
    requires
        log_ok(log, start, start_term),
        start <= prev <= start + log.len(),
        term_at(log, start, start_term, prev as int) == prev_term,
        log_ok(new, prev, prev_term),
    ensures
        log_ok(merged(log, prev - start, new), start, start_term),
        merged(log, prev - start, new).len() == if divergence(log, prev - start, new, 0) == new.len() {
            log.len() as int
        } else {
            prev - start + new.len()
        },
{
    let off = prev - start;
    lemma_divergence_bounds(log, off, new, 0);
    let d = divergence(log, off, new, 0);
    if d < new.len() {
        let t = log.take(off + d);
        let sk = new.skip(d);
        let m = t + sk;
        if d > 0 {
            let _x = new[d - 1];
            assert(off + (d - 1) < log.len());
        }
        assert(off + d <= log.len());
        assert(t.len() == off + d);
        assert forall|k: int| off + d <= k < m.len() implies #[trigger] m[k] == new[k - off] by {
            assert(m[k] == sk[k - (off + d)]);
        }
        assert forall|k: int| 0 <= k < m.len() implies #[trigger] m[k].index == start + 1 + k by {
            if k >= off + d {
                assert(m[k] == new[k - off]);
            } else {
                assert(m[k] == log[k]);
            }
        }
        assert forall|i: int, j: int| 0 <= i <= j < m.len() implies #[trigger] m[i].term <= #[trigger] m[j].term by {
            if j < off + d {
            } else if i >= off + d {
                assert(m[i] == new[i - off]);
                assert(m[j] == new[j - off]);
            } else {
                assert(m[j] == new[j - off]);
                assert(prev_term <= new[j - off].term);
                if i < off {
                    if off > 0 {
                        assert(log[i].term <= log[off - 1].term);
                    }
                } else {
                    assert(log[off + (i - off)].term == new[i - off].term);
                    assert(new[i - off].term <= new[j - off].term);
                }
            }
        }
        assert forall|k: int| 0 <= k < m.len() implies start_term <= #[trigger] m[k].term by {
            if k >= off + d {
                assert(m[k] == new[k - off]);
                if off > 0 {
                    assert(start_term <= log[off - 1].term);
                }
            }
        }
    }
}

impl RaftCore {
    /// Handles an AppendEntries request from the leader of term `req.term`.
    ///
    /// `fresh_timeout` is a newly drawn election deadline, installed whenever the request's
    /// term is current. On success, entries already present with the same term stay, the log
    /// is cut at the first conflicting entry, missing entries are appended, the last appended
    /// configuration change takes effect, and the commit index follows the leader's up to the
    /// end of the log. A conflict at or below the commit index or the applied index breaks
    /// the invariants of the cluster and is fatal.
    #[verifier::rlimit(100)]
    pub fn handle_append_entries_request(&mut self, req: AppendEntriesRequest, fresh_timeout: u64) -> (r: Result<AppendEntriesResponse, RaftError>)
        requires
            old(self).wf(),
        ensures
            final(self).wf(),
            old(self).applied_within_commit() ==> final(self).applied_within_commit(),
            final(self).commit_index >= old(self).commit_index,
            final(self).last_applied == old(self).last_applied,
            req.term < old(self).current_term ==> {
                &&& r == Ok::<AppendEntriesResponse, RaftError>(AppendEntriesResponse { term: old(self).current_term, success: false, conflict_opt: None })
                &&& *final(self) == *old(self)
            },
            req.term >= old(self).current_term ==> ({
                let s1 = after_leader_contact(*old(self), req.term, req.leader_id, fresh_timeout);
                let off = req.prev_log_index - s1.log_start;
                let new_log = merged(s1.log@, off, req.entries@);
                let new_last = (s1.log_start + new_log.len()) as u64;
                let added = appended(s1.log@, off, req.entries@);
                if !request_well_formed(req) || !prev_matches(s1, req) {
                    &&& r == Ok::<AppendEntriesResponse, RaftError>(AppendEntriesResponse { term: s1.current_term, success: false, conflict_opt: conflict_hint(s1, req) })
                    &&& *final(self) == s1
                } else if cuts_committed(s1, req) {
                    &&& r == Err::<AppendEntriesResponse, RaftError>(RaftError::InconsistentState)
                    &&& *final(self) == (RaftCore { target_state: State::Shutdown, ..s1 })
                } else {
                    &&& r == Ok::<AppendEntriesResponse, RaftError>(AppendEntriesResponse { term: s1.current_term, success: true, conflict_opt: None })
                    &&& final(self).log@ == new_log
                    &&& final(self).last_log_index == new_last
                    &&& final(self).commit_index == if req.leader_commit > s1.commit_index {
                        if req.leader_commit <= new_last { req.leader_commit } else { new_last }
                    } else {
                        s1.commit_index
                    }
                    &&& match last_config(added) {
                        Some(c) => final(self).membership.same_as(c) && final(self).target_state == role_after_config(s1, c),
                        None => final(self).membership == s1.membership && final(self).target_state == s1.target_state,
                    }
                    &&& final(self).id == s1.id
                    &&& final(self).config == s1.config
                    &&& final(self).current_term == s1.current_term
                    &&& final(self).voted_for == s1.voted_for
                    &&& final(self).current_leader == s1.current_leader
                    &&& final(self).log_start == s1.log_start
                    &&& final(self).log_start_term == s1.log_start_term
                    &&& final(self).last_applied == s1.last_applied
                    &&& final(self).snapshot_state == s1.snapshot_state
                    &&& final(self).snapshot_index == s1.snapshot_index
                    &&& final(self).next_election_timeout == s1.next_election_timeout
                }
            }),
    {
        if req.term < self.current_term {
            return Ok(AppendEntriesResponse { term: self.current_term, success: false, conflict_opt: None });
        }
        let AppendEntriesRequest { term, leader_id, prev_log_index, prev_log_term, entries, leader_commit } = req;
        self.update_next_election_timeout(fresh_timeout);
        let raised = term > self.current_term;
        if raised {
            self.update_current_term(term, None);
        }
        self.update_current_leader(UpdateCurrentLeader::OtherNode(leader_id));
        if self.target_state != State::Shutdown
            && (raised || self.target_state == State::Candidate || self.target_state == State::Leader) {
            self.set_target_state(State::Follower);
        }
        let ghost s1 = *self;

        if !crate::log::check_log(&entries, prev_log_index, prev_log_term) {
            return Ok(AppendEntriesResponse { term: self.current_term, success: false, conflict_opt: None });
        }
        if prev_log_index > self.last_log_index {
            let hint = ConflictOpt { term: self.last_log_term, index: self.last_log_index };
            return Ok(AppendEntriesResponse { term: self.current_term, success: false, conflict_opt: Some(hint) });
        }
        if prev_log_index < self.log_start {
            let hint = ConflictOpt { term: self.log_start_term, index: self.log_start };
            return Ok(AppendEntriesResponse { term: self.current_term, success: false, conflict_opt: Some(hint) });
        }
        let log_len = self.log.len();
        assert(prev_log_index - self.log_start <= log_len);
        let off_u64 = prev_log_index - self.log_start;
        let off = off_u64 as usize;
        assert(off as int == prev_log_index - self.log_start);
        let local_prev_term = if off == 0 { self.log_start_term } else { self.log[off - 1].term };
        proof {
            if off == 0 {
                assert(prev_log_index == self.log_start);
            } else {
                assert(prev_log_index - self.log_start - 1 == off - 1);
            }
        }
        assert(local_prev_term == term_at(self.log@, self.log_start, self.log_start_term, prev_log_index as int));
        if local_prev_term != prev_log_term {
            let hint = ConflictOpt { term: local_prev_term, index: self.commit_index };
            return Ok(AppendEntriesResponse { term: self.current_term, success: false, conflict_opt: Some(hint) });
        }

        self.merge_entries(prev_log_index, prev_log_term, entries, leader_commit, off)?;
        Ok(AppendEntriesResponse { term: self.current_term, success: true, conflict_opt: None })
    }

    /// Takes in a well-formed run of entries whose previous entry matches the log at `off`,
    /// then follows the leader's commit index.
    #[verifier::rlimit(100)]
    fn merge_entries(&mut self, prev_log_index: u64, prev_log_term: u64, entries: Vec<Entry>, leader_commit: u64, off: usize) -> (r: Result<(), RaftError>)
        requires
            old(self).wf(),
            log_ok(entries@, prev_log_index, prev_log_term),
            old(self).log_start <= prev_log_index <= old(self).last_log_index,
            term_at(old(self).log@, old(self).log_start, old(self).log_start_term, prev_log_index as int) == prev_log_term,
            off == prev_log_index - old(self).log_start,
        ensures
            final(self).wf(),
            final(self).commit_index >= old(self).commit_index,
            final(self).last_applied == old(self).last_applied,
            ({
                let s1 = *old(self);
                let new_log = merged(s1.log@, off as int, entries@);
                let new_last = (s1.log_start + new_log.len()) as u64;
                let added = appended(s1.log@, off as int, entries@);
                let d = divergence(s1.log@, off as int, entries@, 0);
                let cuts = d < entries@.len() && off + d < s1.log@.len()
                    && (prev_log_index + 1 + d <= s1.commit_index || prev_log_index + 1 + d <= s1.last_applied);
                if cuts {
                    &&& r == Err::<(), RaftError>(RaftError::InconsistentState)
                    &&& *final(self) == (RaftCore { target_state: State::Shutdown, ..s1 })
                } else {
                    &&& r.is_ok()
                    &&& final(self).log@ == new_log
                    &&& final(self).last_log_index == new_last
                    &&& final(self).commit_index == if leader_commit > s1.commit_index {
                        if leader_commit <= new_last { leader_commit } else { new_last }
                    } else {
                        s1.commit_index
                    }
                    &&& match last_config(added) {
                        Some(c) => final(self).membership.same_as(c) && final(self).target_state == role_after_config(s1, c),
                        None => final(self).membership == s1.membership && final(self).target_state == s1.target_state,
                    }
                    &&& final(self).id == s1.id
                    &&& final(self).config == s1.config
                    &&& final(self).current_term == s1.current_term
                    &&& final(self).voted_for == s1.voted_for
                    &&& final(self).current_leader == s1.current_leader
                    &&& final(self).log_start == s1.log_start
                    &&& final(self).log_start_term == s1.log_start_term
                    &&& final(self).last_applied == s1.last_applied
                    &&& final(self).snapshot_state == s1.snapshot_state
                    &&& final(self).snapshot_index == s1.snapshot_index
                    &&& final(self).next_election_timeout == s1.next_election_timeout
                }
            }),
    {
        let ghost s1 = *self;
        let mut entries = entries;
        let n = entries.len();
        let mut k: usize = 0;
        while k < n && k < self.log.len() - off && self.log[off + k].term == entries[k].term
            invariant
                *self == s1,
                n == entries@.len(),
                off <= self.log@.len(),
                k <= n,
                forall|j: int| 0 <= j < k ==> off + j < self.log@.len() && self.log@[off + j].term == (#[trigger] entries@[j]).term,
            decreases n - k,
        {
            k = k + 1;
        }
        proof {
            lemma_divergence_from(s1.log@, off as int, entries@, k as int);
            lemma_divergence_bounds(s1.log@, off as int, entries@, 0);
            lemma_merged_ok(s1.log@, s1.log_start, s1.log_start_term, prev_log_index, prev_log_term, entries@);
            if k < n {
                assert(divergence(s1.log@, off as int, entries@, k as int) == k);
            }
        }
        if k < n {
            if k >= self.log.len() - off {
                proof {
                    if k > 0 {
                        let _x = entries@[k - 1];
                    }
                }
                assert(s1.log@.take(off + k) =~= s1.log@);
            }
            if k < self.log.len() - off {
                let cut = prev_log_index + 1 + k as u64;
                if cut <= self.commit_index || cut <= self.last_applied {
                    self.target_state = State::Shutdown;
                    return Err(RaftError::InconsistentState);
                }
                self.log.truncate(off + k);
            }
            let ghost orig = entries@;
            let mut rest = entries.split_off(k);
            assert(rest@ =~= orig.skip(k as int));
            let cfg = last_config_of(&rest);
            self.log.append(&mut rest);
            assert(self.log@ =~= merged(s1.log@, off as int, orig));
            self.last_log_index = prev_log_index + n as u64;
            assert(self.last_log_index >= s1.commit_index);
            let len = self.log.len();
            self.last_log_term = self.log[len - 1].term;
            match cfg {
                Some(c) => {
                    let _ = self.update_membership(c);
                },
                None => {},
            }
        }
        if leader_commit > self.commit_index {
            self.commit_index = if leader_commit <= self.last_log_index { leader_commit } else { self.last_log_index };
        }
        Ok(())
    }
}

/// The candidate's log is at least as up to date as `(last_term, last_index)`.
pub open spec fn log_up_to_date(req: VoteRequest, last_term: u64, last_index: u64) -> bool {
    req.last_log_term > last_term || (req.last_log_term == last_term && req.last_log_index >= last_index)
}

/// Whether a node in term `term` that voted for `voted`, with last entry `(last_term, last_index)`,
/// grants the request.
pub open spec fn grants_vote(term: u64, voted: Option<NodeId>, last_term: u64, last_index: u64, req: VoteRequest) -> bool {
    &&& req.term >= term
    &&& log_up_to_date(req, last_term, last_index)
    &&& (req.term > term || voted.is_none() || voted == Some(req.candidate_id))
}

/// The node's term after the request.
pub open spec fn term_after_vote(term: u64, req: VoteRequest) -> u64 {
    if req.term > term { req.term } else { term }
}

/// The node's vote after the request.
pub open spec fn voted_after_vote(term: u64, voted: Option<NodeId>, last_term: u64, last_index: u64, req: VoteRequest) -> Option<NodeId> {
    if grants_vote(term, voted, last_term, last_index, req) {
        Some(req.candidate_id)
    } else if req.term > term {
        None
    } else {
        voted
    }
}

/// The role after a vote request: a higher term makes the node a follower.
pub open spec fn role_after_vote(c: RaftCore, term: u64) -> State {
    if c.target_state != State::Shutdown && term > c.current_term {
        coerced_role(c.membership, c.id, State::Follower)
    } else {
        c.target_state
    }
}

/// The offset a snapshot stream-in expects next, if one is open.
pub open spec fn stream_offset(s: Option<SnapshotState>) -> Option<u64> {
    match s {
        Some(SnapshotState::Streaming { offset, .. }) => Some(offset),
        _ => None,
    }
}

/// What the caller does with a snapshot chunk.
#[derive(Clone, Copy, Debug, PartialEq, Eq, Structural)]
pub enum SnapshotStep {
    /// The request's term is stale: nothing is written.
    Ignored,
    /// Write the chunk at its offset: abort the running build first if `abort_build`; open a new
    /// writer if `begin`; then install the snapshot if `install`, or drop it if `discard`.
    Write { abort_build: bool, begin: bool, install: bool, discard: bool },
}

/// The chunk closes the stream and the snapshot is not behind the node's commit or apply point.
pub open spec fn installs(c: RaftCore, req: InstallSnapshotRequest) -> bool {
    req.done && req.last_included_index >= c.commit_index && req.last_included_index >= c.last_applied
}

impl RaftCore {
    /// Handles a RequestVote request.
    ///
    /// A vote is granted when the request's term is not behind, the candidate's log is at
    /// least as up to date, and this node has not voted for another candidate in that term.
    /// A granted vote installs `fresh_timeout` as the new election deadline.
    pub fn handle_vote_request(&mut self, req: VoteRequest, fresh_timeout: u64) -> (r: VoteResponse)
        requires
            old(self).wf(),
        ensures
            final(self).wf(),
            ({
                let o = *old(self);
                let granted = grants_vote(o.current_term, o.voted_for, o.last_log_term, o.last_log_index, req);
                &&& r.vote_granted == granted
                &&& r.term == term_after_vote(o.current_term, req)
                &&& *final(self) == (RaftCore {
                    current_term: term_after_vote(o.current_term, req),
                    voted_for: voted_after_vote(o.current_term, o.voted_for, o.last_log_term, o.last_log_index, req),
                    target_state: role_after_vote(o, req.term),
                    next_election_timeout: if granted { Some(fresh_timeout) } else { o.next_election_timeout },
                    ..o
                })
            }),
    {
        if req.term < self.current_term {
            return VoteResponse { term: self.current_term, vote_granted: false };
        }
        if req.term > self.current_term {
            self.update_current_term(req.term, None);
            if self.target_state != State::Shutdown {
                self.set_target_state(State::Follower);
            }
        }
        let up_to_date = req.last_log_term > self.last_log_term
            || (req.last_log_term == self.last_log_term && req.last_log_index >= self.last_log_index);
        if !up_to_date {
            return VoteResponse { term: self.current_term, vote_granted: false };
        }
        match self.voted_for {
            Some(v) => {
                if v != req.candidate_id {
                    return VoteResponse { term: self.current_term, vote_granted: false };
                }
            },
            None => {},
        }
        self.voted_for = Some(req.candidate_id);
        self.update_next_election_timeout(fresh_timeout);
        VoteResponse { term: self.current_term, vote_granted: true }
    }

    /// Handles one chunk of an InstallSnapshot stream.
    ///
    /// The first chunk (offset zero) opens a stream-in, aborting a running build; a later chunk
    /// must come at the offset the stream expects. The last chunk closes the stream; unless the
    /// snapshot is behind the commit or apply point, the node then takes the snapshot's
    /// boundary as its log start, commit index, applied index and snapshot index, and the
    /// snapshot's membership.
    pub fn handle_install_snapshot_request(&mut self, req: InstallSnapshotRequest, fresh_timeout: u64) -> (r: Result<(InstallSnapshotResponse, SnapshotStep), RaftError>)
        requires
            old(self).wf(),
        ensures
            final(self).wf(),
            old(self).applied_within_commit() ==> final(self).applied_within_commit(),
            req.term < old(self).current_term ==> {
                &&& r == Ok::<(InstallSnapshotResponse, SnapshotStep), RaftError>((InstallSnapshotResponse { term: old(self).current_term }, SnapshotStep::Ignored))
                &&& *final(self) == *old(self)
            },
            req.term >= old(self).current_term ==> ({
                let s1 = after_leader_contact(*old(self), req.term, req.leader_id, fresh_timeout);
                let expected = if req.offset == 0 { Some(0u64) } else { stream_offset(s1.snapshot_state) };
                let abort_build = req.offset == 0 && (s1.snapshot_state matches Some(SnapshotState::Snapshotting { .. }));
                if expected != Some(req.offset) || req.offset + req.data@.len() > u64::MAX {
                    &&& r == Err::<(InstallSnapshotResponse, SnapshotStep), RaftError>(RaftError::SnapshotMismatch {
                        expected: match stream_offset(s1.snapshot_state) { Some(o) => o, None => 0 },
                        received: req.offset,
                    })
                    &&& *final(self) == s1
                } else if !req.done {
                    &&& r == Ok::<(InstallSnapshotResponse, SnapshotStep), RaftError>((InstallSnapshotResponse { term: s1.current_term },
                        SnapshotStep::Write { abort_build, begin: req.offset == 0, install: false, discard: false }))
                    &&& *final(self) == (RaftCore {
                        snapshot_state: Some(SnapshotState::Streaming { offset: (req.offset + req.data@.len()) as u64, id: req.snapshot_id }),
                        ..s1
                    })
                } else if installs(s1, req) {
                    &&& r == Ok::<(InstallSnapshotResponse, SnapshotStep), RaftError>((InstallSnapshotResponse { term: s1.current_term },
                        SnapshotStep::Write { abort_build, begin: req.offset == 0, install: true, discard: false }))
                    &&& *final(self) == (RaftCore {
                        snapshot_state: None,
                        log: final(self).log,
                        log_start: req.last_included_index,
                        log_start_term: req.last_included_term,
                        last_log_index: req.last_included_index,
                        last_log_term: req.last_included_term,
                        commit_index: req.last_included_index,
                        last_applied: req.last_included_index,
                        snapshot_index: req.last_included_index,
                        membership: req.membership,
                        target_state: role_after_config(s1, req.membership),
                        ..s1
                    })
                    &&& final(self).log@.len() == 0
                } else {
                    &&& r == Ok::<(InstallSnapshotResponse, SnapshotStep), RaftError>((InstallSnapshotResponse { term: s1.current_term },
                        SnapshotStep::Write { abort_build, begin: req.offset == 0, install: false, discard: true }))
                    &&& *final(self) == (RaftCore { snapshot_state: None, ..s1 })
                }
            }),
    {
        if req.term < self.current_term {
            return Ok((InstallSnapshotResponse { term: self.current_term }, SnapshotStep::Ignored));
        }
        self.update_next_election_timeout(fresh_timeout);
        let raised = req.term > self.current_term;
        if raised {
            self.update_current_term(req.term, None);
        }
        self.update_current_leader(UpdateCurrentLeader::OtherNode(req.leader_id));
        if self.target_state != State::Shutdown
            && (raised || self.target_state == State::Candidate || self.target_state == State::Leader) {
            self.set_target_state(State::Follower);
        }
        let InstallSnapshotRequest {
            term: _,
            leader_id: _,
            snapshot_id,
            last_included_index,
            last_included_term,
            offset,
            data,
            done,
            membership,
        } = req;
        let streaming_at: Option<u64> = match &self.snapshot_state {
            Some(SnapshotState::Streaming { offset: o, .. }) => Some(*o),
            _ => None,
        };
        let len = data.len() as u64;
        let in_order = if offset == 0 {
            true
        } else {
            match streaming_at {
                Some(o) => o == offset,
                None => false,
            }
        };
        if !in_order || offset > u64::MAX - len {
            let expected = match streaming_at {
                Some(o) => o,
                None => 0,
            };
            return Err(RaftError::SnapshotMismatch { expected, received: offset });
        }
        let abort_build = offset == 0 && matches!(self.snapshot_state, Some(SnapshotState::Snapshotting { .. }));
        let begin = offset == 0;
        if !done {
            self.snapshot_state = Some(SnapshotState::Streaming { offset: offset + len, id: snapshot_id });
            return Ok((InstallSnapshotResponse { term: self.current_term },
                SnapshotStep::Write { abort_build, begin, install: false, discard: false }));
        }
        self.snapshot_state = None;
        if last_included_index >= self.commit_index && last_included_index >= self.last_applied {
            self.log = Vec::new();
            self.log_start = last_included_index;
            self.log_start_term = last_included_term;
            self.last_log_index = last_included_index;
            self.last_log_term = last_included_term;
            self.commit_index = last_included_index;
            self.last_applied = last_included_index;
            self.snapshot_index = last_included_index;
            let _ = self.update_membership(membership);
            Ok((InstallSnapshotResponse { term: self.current_term },
                SnapshotStep::Write { abort_build, begin, install: true, discard: false }))
        } else {
            Ok((InstallSnapshotResponse { term: self.current_term },
                SnapshotStep::Write { abort_build, begin, install: false, discard: true }))
        }
    }
}

/// A copy of the last configuration change among `entries`.
fn last_config_of(entries: &Vec<Entry>) -> (r: Option<MembershipConfig>)
    ensures
        match (r, last_config(entries@)) {
            (Some(a), Some(b)) => a.same_as(b),
            (None, None) => true,
            _ => false,
        },
{
    let mut i: usize = entries.len();
    assert(entries@.subrange(0, i as int) == entries@);
    while i > 0
        invariant
            i <= entries.len(),
            last_config(entries@) == last_config(entries@.subrange(0, i as int)),
        decreases i,
    {
        let ghost pre = entries@.subrange(0, i as int);
        assert(pre.drop_last() == entries@.subrange(0, i - 1));
        match &entries[i - 1].payload {
            EntryPayload::ConfigChange(c) => {
                return Some(c.duplicate());
            },
            _ => {},
        }
        i = i - 1;
    }
    None
}

} // verus!
