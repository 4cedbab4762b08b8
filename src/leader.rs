//! The leader's decisions: replication bookkeeping, commit advance, reads and joint consensus.
use vstd::prelude::*;
use crate::log::{last_term, term_at};
use crate::node::{coerced_role, RaftCore};
use crate::quorum::{acked_through, has_quorum, is_replicated_by_quorum, joint_quorum};
use crate::types::{copy_entry, same_entry, 
    ClientReadError, ConsensusState, Entry, EntryPayload, NodeId, RaftError,
    State, UpdateCurrentLeader,
};

verus! {

/// The leader's record of one replication driver.
#[derive(Clone, Copy, Debug, PartialEq, Eq, Structural)]
pub struct ReplicationState {
    pub target: NodeId,
    pub match_index: u64,
    pub match_term: u64,
    pub is_at_line_rate: bool,
}

/// The leader's record of a non-voter being synced to join the cluster.
#[derive(Clone, Copy, Debug, PartialEq, Eq, Structural)]
pub struct NonVoterReplicationState {
    pub state: ReplicationState,
    pub is_ready_to_join: bool,
}

/// Volatile state of the leader.
#[derive(Debug)]
pub struct LeaderState {
    /// The replication drivers of the voting members, one per other node.
    pub nodes: Vec<ReplicationState>,
    /// The replication drivers of the non-voters being synced.
    pub non_voters: Vec<NonVoterReplicationState>,
    /// Whether this node leaves the cluster once the current change is committed.
    pub is_stepping_down: bool,
    /// Indices of client writes awaiting commit, in index order.
    pub awaiting_committed: Vec<u64>,
    /// Where the cluster stands in the joint consensus protocol.
    pub consensus_state: ConsensusState,
    /// The index of the joint configuration entry, until it is committed.
    pub joint_entry: Option<u64>,
    /// The index of the final configuration entry, until it is committed.
    pub final_entry: Option<u64>,
    /// The index every driver must hold before a leader leaving the cluster steps down.
    pub step_down_at: Option<u64>,
    /// The index of the blank entry this leader appended on taking office; no membership
    /// change is accepted before it commits.
    pub initial_entry: Option<u64>,
}

/// Every match index the leader knows of, its own log end first.
pub open spec fn match_view(core: RaftCore, nodes: Seq<ReplicationState>) -> Seq<(NodeId, u64)> {
    seq![(core.id, core.last_log_index)] + nodes.map_values(|n: ReplicationState| (n.target, n.match_index))
}

/// Index `i` may become the commit index: it is a new entry of the leader's own term in the
/// log, held by a quorum of every active membership set.
pub open spec fn committable(core: RaftCore, nodes: Seq<ReplicationState>, i: int) -> bool {
    &&& core.commit_index < i <= core.last_log_index
    &&& core.log_start < i
    &&& term_at(core.log@, core.log_start, core.log_start_term, i) == core.current_term
    &&& joint_quorum(core.membership, acked_through(match_view(core, nodes), i as u64))
}

impl RaftCore {
    /// Appends an entry of the current term to the leader's log and returns its index. A log
    /// whose last term is above the current term, or that cannot grow, is fatal.
    pub fn append_leader_entry(&mut self, payload: EntryPayload) -> (r: Result<u64, RaftError>)
        requires
            old(self).wf(),
        ensures
            final(self).wf(),
            r.is_ok() == (old(self).last_log_term <= old(self).current_term && old(self).last_log_index < u64::MAX),
            r.is_ok() ==> {
                let e = Entry { index: (old(self).last_log_index + 1) as u64, term: old(self).current_term, payload };
                &&& r == Ok::<u64, RaftError>(e.index)
                &&& final(self).log@ == old(self).log@.push(e)
                &&& *final(self) == (RaftCore { log: final(self).log, last_log_index: e.index, last_log_term: e.term, ..*old(self) })
            },
            r.is_err() ==> r == Err::<u64, RaftError>(RaftError::InconsistentState) && *final(self) == *old(self),
    {
        if self.last_log_term > self.current_term || self.last_log_index == u64::MAX {
            return Err(RaftError::InconsistentState);
        }
        let index = self.last_log_index + 1;
        let e = Entry { index, term: self.current_term, payload };
        let ghost before = self.log@;
        self.log.push(e);
        self.last_log_index = index;
        self.last_log_term = self.current_term;
        proof {
            let l = self.log@;
            assert forall|i: int, j: int| 0 <= i <= j < l.len() implies #[trigger] l[i].term <= #[trigger] l[j].term by {
                if j == l.len() - 1 && i < j {
                    assert(before[i].term <= last_term(before, self.log_start_term));
                }
            }
            assert forall|k: int| 0 <= k < l.len() implies self.log_start_term <= #[trigger] l[k].term by {
                if k == l.len() - 1 && k > 0 {
                    assert(self.log_start_term <= before[k - 1].term);
                }
            }
            assert forall|k: int| 0 <= k < l.len() implies #[trigger] l[k].index == self.log_start + 1 + k by {
                if k < l.len() - 1 {
                    assert(l[k] == before[k]);
                }
            }
        }
        Ok(index)
    }
}

/// The leader holds a replication record for exactly the other nodes of both membership sets.
pub open spec fn drivers_cover(nodes: Seq<ReplicationState>, core: RaftCore) -> bool {
    forall|x: NodeId| (exists|k: int| 0 <= k < nodes.len() && (#[trigger] nodes[k]).target == x)
        <==> (core.membership.has_node(x) && x != core.id)
}

impl RaftCore {
    /// Copies of the log entries of indices `from .. to` (`to` excluded), for an
    /// AppendEntries request.
    pub fn entries_between(&self, from: u64, to: u64) -> (r: Vec<Entry>)
        requires
            self.wf(),
            self.log_start < from <= to,
            to <= self.last_log_index + 1,
        ensures
            r@.len() == to - from,
            forall|k: int| 0 <= k < r@.len() ==> #[trigger] same_entry(r@[k], self.log@[from - self.log_start - 1 + k]),
            forall|k: int| 0 <= k < r@.len() ==> (#[trigger] r@[k]).index == from + k,
    {
        let mut r: Vec<Entry> = Vec::new();
        let ll = self.log.len();
        let base_u64 = from - self.log_start - 1;
        let n_u64 = to - from;
        assert(base_u64 + n_u64 <= ll);
        let base = base_u64 as usize;
        let n = n_u64 as usize;
        let mut k: usize = 0;
        while k < n
            invariant
                self.wf(),
                k <= n,
                n == to - from,
                base == from - self.log_start - 1,
                base + n <= self.log@.len(),
                self.log@.len() == ll,
                r@.len() == k,
                forall|j: int| 0 <= j < k ==> #[trigger] same_entry(r@[j], self.log@[base + j]),
            decreases n - k,
        {
            r.push(copy_entry(&self.log[base + k]));
            k = k + 1;
        }
        proof {
            assert forall|j: int| 0 <= j < r@.len() implies (#[trigger] r@[j]).index == from + j by {
                assert(same_entry(r@[j], self.log@[base + j]));
                assert(self.log@[base + j].index == self.log_start + 1 + (base + j));
            }
        }
        r
    }
}

impl LeaderState {
    /// The leader state of a node that just won an election: joint consensus carries over
    /// from the membership, not yet known to be committed.
    pub fn new(core: &RaftCore) -> (r: LeaderState)
        ensures
            r.nodes@.len() == 0,
            r.non_voters@.len() == 0,
            !r.is_stepping_down,
            r.awaiting_committed@.len() == 0,
            r.joint_entry.is_none(),
            r.final_entry.is_none(),
            r.step_down_at.is_none(),
            r.initial_entry.is_none(),
            r.consensus_state == if core.membership.members_after_consensus.is_some() {
                ConsensusState::Joint { is_committed: false }
            } else {
                ConsensusState::Uniform
            },
    {
        let consensus_state = if core.membership.is_in_joint_consensus() {
            ConsensusState::Joint { is_committed: false }
        } else {
            ConsensusState::Uniform
        };
        LeaderState {
            nodes: Vec::new(),
            non_voters: Vec::new(),
            is_stepping_down: false,
            awaiting_committed: Vec::new(),
            consensus_state,
            joint_entry: None,
            final_entry: None,
            step_down_at: None,
            initial_entry: None,
        }
    }

    /// Takes office: one replication record per other node of both membership sets, no
    /// election deadline, this node as leader, and a blank entry of the new term appended.
    /// Returns the nodes to start replication drivers for and the blank entry's index.
    pub fn begin(&mut self, core: &mut RaftCore) -> (r: Result<(Vec<NodeId>, u64), RaftError>)
        requires
            old(core).wf(),
        ensures
            final(core).wf(),
            r.is_ok() == (old(core).last_log_term <= old(core).current_term && old(core).last_log_index < u64::MAX),
            r.is_ok() ==> {
                let (targets, index) = r.unwrap();
                &&& index == old(core).last_log_index + 1
                &&& final(core).log@ == old(core).log@.push(Entry { index, term: old(core).current_term, payload: EntryPayload::Blank })
                &&& *final(core) == (RaftCore {
                    log: final(core).log,
                    last_log_index: index,
                    last_log_term: old(core).current_term,
                    current_leader: Some(old(core).id),
                    next_election_timeout: None,
                    ..*old(core)
                })
                &&& final(self).joint_entry == if old(core).membership.members_after_consensus.is_some() {
                    Some(index)
                } else {
                    old(self).joint_entry
                }
                &&& final(self).initial_entry == Some(index)
                &&& drivers_cover(final(self).nodes@, *final(core))
                &&& targets@.no_duplicates()
                &&& forall|x: NodeId| targets@.contains(x) <==> (old(core).membership.has_node(x) && x != old(core).id)
                &&& final(self).nodes@.len() == targets@.len()
                &&& forall|k: int| 0 <= k < targets@.len() ==> #[trigger] final(self).nodes@[k] == (ReplicationState {
                    target: targets@[k], match_index: 0, match_term: 0, is_at_line_rate: false,
                })
            },
            r.is_err() ==> *final(core) == *old(core),
    {
        let all = core.membership.all_nodes();
        let mut targets: Vec<NodeId> = Vec::new();
        let mut nodes: Vec<ReplicationState> = Vec::new();
        let mut i: usize = 0;
        while i < all.len()
            invariant
                i <= all.len(),
                all@.no_duplicates(),
                targets@.no_duplicates(),
                nodes@.len() == targets@.len(),
                forall|k: int| 0 <= k < targets@.len() ==> #[trigger] nodes@[k] == (ReplicationState {
                    target: targets@[k], match_index: 0, match_term: 0, is_at_line_rate: false,
                }),
                forall|x: NodeId| #[trigger] targets@.contains(x) <==> (all@.subrange(0, i as int).contains(x) && x != core.id),
            decreases all.len() - i,
        {
            let x = all[i];
            let ghost before = targets@;
            let ghost pre = all@.subrange(0, i as int);
            assert(all@.subrange(0, i + 1) == pre.push(x));
            assert(!pre.contains(x)) by {
                if pre.contains(x) {
                    let k = choose|k: int| 0 <= k < pre.len() && pre[k] == x;
                    assert(all@[k] == all@[i as int]);
                }
            }
            assert(!before.contains(x));
            if x != core.id {
                targets.push(x);
                nodes.push(ReplicationState { target: x, match_index: 0, match_term: 0, is_at_line_rate: false });
                assert forall|y: NodeId| #[trigger] targets@.contains(y) <==> (before.contains(y) || y == x) by {
                    if targets@.contains(y) && y != x {
                        let k = choose|k: int| 0 <= k < targets@.len() && targets@[k] == y;
                        assert(before[k] == y);
                    }
                    if y == x {
                        assert(targets@[before.len() as int] == x);
                    }
                    if before.contains(y) {
                        let k = choose|k: int| 0 <= k < before.len() && before[k] == y;
                        assert(targets@[k] == y);
                    }
                }
            }
            assert forall|y: NodeId| #[trigger] targets@.contains(y) <==> (all@.subrange(0, i + 1).contains(y) && y != core.id) by {
                assert(all@.subrange(0, i + 1).contains(y) <==> (pre.contains(y) || y == x)) by {
                    let b = all@.subrange(0, i + 1);
                    if b.contains(y) && y != x {
                        let k = choose|k: int| 0 <= k < b.len() && b[k] == y;
                        assert(pre[k] == y);
                    }
                    if y == x {
                        assert(b[i as int] == x);
                    }
                    if pre.contains(y) {
                        let k = choose|k: int| 0 <= k < pre.len() && pre[k] == y;
                        assert(b[k] == y);
                    }
                }
            }
            i = i + 1;
        }
        assert(all@.subrange(0, all.len() as int) == all@);
        if core.last_log_term > core.current_term || core.last_log_index == u64::MAX {
            return Err(RaftError::InconsistentState);
        }
        core.next_election_timeout = None;
        core.update_current_leader(UpdateCurrentLeader::ThisNode);
        let index = match core.append_leader_entry(EntryPayload::Blank) {
            Ok(i) => i,
            Err(e) => {
                return Err(e);
            },
        };
        self.nodes = nodes;
        self.initial_entry = Some(index);
        proof {
            assert forall|x: NodeId| (exists|k: int| 0 <= k < self.nodes@.len() && (#[trigger] self.nodes@[k]).target == x)
                <==> (core.membership.has_node(x) && x != core.id) by {
                if exists|k: int| 0 <= k < self.nodes@.len() && (#[trigger] self.nodes@[k]).target == x {
                    let k = choose|k: int| 0 <= k < self.nodes@.len() && (#[trigger] self.nodes@[k]).target == x;
                    assert(targets@[k] == x);
                    assert(targets@.contains(x));
                }
                if core.membership.has_node(x) && x != core.id {
                    assert(targets@.contains(x));
                    let k = choose|k: int| 0 <= k < targets@.len() && targets@[k] == x;
                    assert(self.nodes@[k].target == x);
                }
            }
        }
        if core.membership.is_in_joint_consensus() {
            // A joint configuration inherited from an earlier term is settled by committing
            // the new term's blank entry, which follows it.
            self.joint_entry = Some(index);
        }
        Ok((targets, index))
    }

    /// Every known match index, this node's own log end first.
    fn matches(&self, core: &RaftCore) -> (r: Vec<(NodeId, u64)>)
        ensures
            r@ == match_view(*core, self.nodes@),
    {
        let mut r: Vec<(NodeId, u64)> = Vec::new();
        r.push((core.id, core.last_log_index));
        let mut i: usize = 0;
        while i < self.nodes.len()
            invariant
                i <= self.nodes@.len(),
                r@ == seq![(core.id, core.last_log_index)] + self.nodes@.subrange(0, i as int).map_values(|n: ReplicationState| (n.target, n.match_index)),
            decreases self.nodes@.len() - i,
        {
            let n = self.nodes[i];
            r.push((n.target, n.match_index));
            assert(self.nodes@.subrange(0, i + 1).map_values(|n: ReplicationState| (n.target, n.match_index))
                =~= self.nodes@.subrange(0, i as int).map_values(|n: ReplicationState| (n.target, n.match_index)).push((n.target, n.match_index)));
            assert(r@ =~= seq![(core.id, core.last_log_index)] + self.nodes@.subrange(0, i + 1).map_values(|n: ReplicationState| (n.target, n.match_index)));
            i = i + 1;
        }
        assert(self.nodes@.subrange(0, self.nodes@.len() as int) == self.nodes@);
        r
    }

    /// The highest committable index, or the current commit index when there is none.
    pub fn calculate_commit_index(&self, core: &RaftCore) -> (r: u64)
        requires
            core.wf(),
        ensures
            r == core.commit_index || committable(*core, self.nodes@, r as int),
            r >= core.commit_index,
            forall|j: int| r < j <= core.last_log_index ==> !committable(*core, self.nodes@, j),
    {
        let matches = self.matches(core);
        let floor = if core.commit_index >= core.log_start { core.commit_index } else { core.log_start };
        let mut i: u64 = core.last_log_index;
        while i > floor
            invariant
                core.wf(),
                floor >= core.commit_index,
                floor >= core.log_start,
                i <= core.last_log_index,
                matches@ == match_view(*core, self.nodes@),
                forall|j: int| i < j <= core.last_log_index ==> !committable(*core, self.nodes@, j),
            decreases i,
        {
            let ll = core.log.len();
            let idx = i - core.log_start - 1;
            assert(idx < ll);
            let t = core.log[idx as usize].term;
            assert(t == term_at(core.log@, core.log_start, core.log_start_term, i as int));
            let q = is_replicated_by_quorum(&core.membership, &matches, i);
            if t == core.current_term && q {
                assert(committable(*core, self.nodes@, i as int));
                return i;
            }
            assert(!committable(*core, self.nodes@, i as int));
            i = i - 1;
        }
        core.commit_index
    }

    /// Takes in a driver's report that `target` holds the log through `match_index`. The
    /// match index only moves forward; the commit index then advances to the highest
    /// committable index, which is returned when it moved.
    pub fn handle_update_match_index(&mut self, core: &mut RaftCore, target: NodeId, match_index: u64, match_term: u64) -> (r: Option<u64>)
        requires
            old(core).wf(),
        ensures
            final(core).wf(),
            final(self).nodes@.len() == old(self).nodes@.len(),
            forall|k: int| 0 <= k < old(self).nodes@.len() ==> {
                let n = #[trigger] old(self).nodes@[k];
                final(self).nodes@[k] == if n.target == target && match_index > n.match_index {
                    ReplicationState { match_index, match_term, is_at_line_rate: match_index == old(core).last_log_index, ..n }
                } else {
                    n
                }
            },
            match r {
                Some(c) => {
                    &&& c > old(core).commit_index
                    &&& committable(*old(core), final(self).nodes@, c as int)
                    &&& forall|j: int| c < j <= old(core).last_log_index ==> !committable(*old(core), final(self).nodes@, j)
                    &&& *final(core) == (RaftCore { commit_index: c, ..*old(core) })
                },
                None => {
                    &&& forall|j: int| old(core).commit_index < j <= old(core).last_log_index ==> !committable(*old(core), final(self).nodes@, j)
                    &&& *final(core) == *old(core)
                },
            },
    {
        let mut i: usize = 0;
        while i < self.nodes.len()
            invariant
                i <= self.nodes@.len(),
                self.nodes@.len() == old(self).nodes@.len(),
                forall|k: int| 0 <= k < old(self).nodes@.len() ==> {
                    let n = #[trigger] old(self).nodes@[k];
                    self.nodes@[k] == if k < i && n.target == target && match_index > n.match_index {
                        ReplicationState { match_index, match_term, is_at_line_rate: match_index == core.last_log_index, ..n }
                    } else {
                        n
                    }
                },
            decreases self.nodes@.len() - i,
        {
            let n = self.nodes[i];
            if n.target == target && match_index > n.match_index {
                let updated = ReplicationState {
                    match_index,
                    match_term,
                    is_at_line_rate: match_index == core.last_log_index,
                    ..n
                };
                self.nodes.set(i, updated);
            }
            i = i + 1;
        }
        let c = self.calculate_commit_index(core);
        if c > core.commit_index {
            core.commit_index = c;
            Some(c)
        } else {
            None
        }
    }

    /// Registers a client write appended at `index` as awaiting commit.
    pub fn await_commit(&mut self, index: u64)
        ensures
            final(self).awaiting_committed@ == old(self).awaiting_committed@.push(index),
            final(self).nodes == old(self).nodes,
            final(self).consensus_state == old(self).consensus_state,
    {
        self.awaiting_committed.push(index);
    }

    /// Takes the writes that `commit_index` covers from the front of the queue, in the order
    /// they were appended; the queue keeps the rest, starting with the first write beyond it.
    pub fn take_committed(&mut self, commit_index: u64) -> (r: Vec<u64>)
        ensures
            r@ + final(self).awaiting_committed@ == old(self).awaiting_committed@,
            forall|k: int| 0 <= k < r@.len() ==> #[trigger] r@[k] <= commit_index,
            final(self).awaiting_committed@.len() > 0 ==> final(self).awaiting_committed@[0] > commit_index,
            final(self).nodes == old(self).nodes,
            final(self).consensus_state == old(self).consensus_state,
    {
        let mut n: usize = 0;
        while n < self.awaiting_committed.len() && self.awaiting_committed[n] <= commit_index
            invariant
                n <= self.awaiting_committed@.len(),
                forall|k: int| 0 <= k < n ==> #[trigger] self.awaiting_committed@[k] <= commit_index,
            decreases self.awaiting_committed@.len() - n,
        {
            n = n + 1;
        }
        let rest = self.awaiting_committed.split_off(n);
        let done = crate::types::copy_ids(&self.awaiting_committed);
        self.awaiting_committed = rest;
        proof {
            assert(done@ + rest@ =~= old(self).awaiting_committed@);
        }
        done
    }

    /// A driver saw a higher term: the node adopts it and follows.
    pub fn handle_revert_to_follower(&mut self, core: &mut RaftCore, term: u64)
        ensures
            term > old(core).current_term ==> *final(core) == (RaftCore {
                current_term: term,
                voted_for: None,
                current_leader: None,
                target_state: coerced_role(old(core).membership, old(core).id, State::Follower),
                ..*old(core)
            }),
            term <= old(core).current_term ==> *final(core) == *old(core),
    {
        if term > core.current_term {
            core.update_current_term(term, None);
            core.update_current_leader(UpdateCurrentLeader::Unknown);
            core.set_target_state(State::Follower);
        }
    }

    /// Confirms leadership for a linearizable read: `acks` are the nodes that answered this
    /// round of heartbeats in the current term. With a quorum in every active set (this node
    /// counts) the read may proceed once `last_applied` reaches the returned read index.
    pub fn confirm_read(&self, core: &RaftCore, acks: &Vec<NodeId>) -> (r: Result<u64, ClientReadError>)
        ensures
            ({
                let voters = acks@.push(core.id).to_set();
                &&& r.is_ok() == joint_quorum(core.membership, voters)
                &&& r.is_ok() ==> r == Ok::<u64, ClientReadError>(core.commit_index)
                &&& r.is_err() ==> r == Err::<u64, ClientReadError>(ClientReadError::QuorumLost)
            }),
    {
        let mut voters = crate::types::copy_ids(acks);
        voters.push(core.id);
        if has_quorum(&core.membership, &voters) {
            Ok(core.commit_index)
        } else {
            Err(ClientReadError::QuorumLost)
        }
    }
}

} // verus!
