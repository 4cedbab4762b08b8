//! The leader's joint consensus controller: non-voter sync, the joint configuration, the
//! final configuration, and stepping down when this node leaves the cluster.
use vstd::prelude::*;
use crate::leader::{LeaderState, NonVoterReplicationState, ReplicationState};
use crate::node::RaftCore;
use crate::types::{copy_ids, vec_contains, ChangeConfigError, ConsensusState, EntryPayload, MembershipConfig, NodeId, RaftError};

verus! {

/// What a membership change request led to.
#[derive(Debug)]
pub enum ChangeStep {
    /// Some new nodes must catch up first; replication drivers are to be started for these.
    AwaitingNonVoters(Vec<NodeId>),
    /// The joint configuration was appended at this index.
    JointAppended(u64),
    /// The request was refused.
    Rejected(ChangeConfigError),
}

/// How joint consensus moved after a commit.
#[derive(Clone, Copy, Debug, PartialEq, Eq, Structural)]
pub enum ConsensusProgress {
    /// Nothing the protocol waits for was committed.
    Nothing,
    /// The joint entry was committed; the final configuration was appended at this index.
    FinalAppended(u64),
    /// The final entry was committed; the change is complete.
    ChangeCommitted { stepping_down: bool },
}

/// Whether `id` has a non-voter record.
pub open spec fn has_non_voter(s: Seq<NonVoterReplicationState>, id: NodeId) -> bool {
    exists|k: int| 0 <= k < s.len() && (#[trigger] s[k]).state.target == id
}

/// A non-voter record marked ready to join, at line rate.
pub open spec fn marked_ready(n: NonVoterReplicationState) -> NonVoterReplicationState {
    NonVoterReplicationState { is_ready_to_join: true, state: ReplicationState { is_at_line_rate: true, ..n.state } }
}

/// `c` lists `members` now and `after` once consensus is reached.
pub open spec fn config_lists(c: MembershipConfig, members: Seq<NodeId>, after: Option<Seq<NodeId>>) -> bool {
    &&& c.members@ == members
    &&& match (c.members_after_consensus, after) {
        (Some(v), Some(w)) => v@ == w,
        (None, None) => true,
        _ => false,
    }
}

/// `f` is `o` with a configuration change of the current term appended at the next index;
/// the entry lists `members` and `after`, and takes effect at once. Nothing else changes.
pub open spec fn appended_config(o: RaftCore, f: RaftCore, members: Seq<NodeId>, after: Option<Seq<NodeId>>) -> bool {
    &&& f.log@.len() == o.log@.len() + 1
    &&& f.log@.subrange(0, o.log@.len() as int) == o.log@
    &&& f.log@.last().index == o.last_log_index + 1
    &&& f.log@.last().term == o.current_term
    &&& (f.log@.last().payload matches EntryPayload::ConfigChange(c) && config_lists(c, members, after))
    &&& config_lists(f.membership, members, after)
    &&& f == (RaftCore {
        log: f.log,
        membership: f.membership,
        last_log_index: (o.last_log_index + 1) as u64,
        last_log_term: o.current_term,
        ..o
    })
}

/// `kept` holds exactly the records of `old` whose node `m` names, unchanged.
pub open spec fn kept_members(old: Seq<ReplicationState>, kept: Seq<ReplicationState>, m: MembershipConfig) -> bool {
    &&& forall|k: int| 0 <= k < kept.len() ==> m.has_node((#[trigger] kept[k]).target)
        && exists|j: int| 0 <= j < old.len() && old[j] == kept[k]
    &&& forall|j: int| 0 <= j < old.len() && m.has_node((#[trigger] old[j]).target)
        ==> exists|k: int| 0 <= k < kept.len() && kept[k] == old[j]
}

/// A membership change cannot start now: another is under way, or this leader's blank
/// entry is not committed yet.
pub open spec fn change_blocked(l: LeaderState, c: RaftCore) -> bool {
    l.consensus_state != ConsensusState::Uniform || match l.initial_entry {
        Some(b) => c.commit_index < b,
        None => false,
    }
}

/// Whether `id` has a voter replication record.
pub open spec fn has_node_record(s: Seq<ReplicationState>, id: NodeId) -> bool {
    exists|k: int| 0 <= k < s.len() && (#[trigger] s[k]).target == id
}

fn find_non_voter(s: &Vec<NonVoterReplicationState>, id: NodeId) -> (r: Option<usize>)
    ensures
        match r {
            Some(k) => k < s@.len() && s@[k as int].state.target == id,
            None => !has_non_voter(s@, id),
        },
{
    let mut i: usize = 0;
    while i < s.len()
        invariant
            i <= s@.len(),
            forall|k: int| 0 <= k < i ==> (#[trigger] s@[k]).state.target != id,
        decreases s@.len() - i,
    {
        if s[i].state.target == id {
            return Some(i);
        }
        i = i + 1;
    }
    None
}

fn find_node(s: &Vec<ReplicationState>, id: NodeId) -> (r: bool)
    ensures
        r == has_node_record(s@, id),
{
    let mut i: usize = 0;
    while i < s.len()
        invariant
            i <= s@.len(),
            forall|k: int| 0 <= k < i ==> (#[trigger] s@[k]).target != id,
        decreases s@.len() - i,
    {
        if s[i].target == id {
            return true;
        }
        i = i + 1;
    }
    false
}

/// A node of `members` that is not a current member and has no non-voter record ready to join.
pub open spec fn still_syncing(members: Seq<NodeId>, current: MembershipConfig, nv: Seq<NonVoterReplicationState>, x: NodeId) -> bool {
    &&& members.contains(x)
    &&& !current.in_members(x)
    &&& !(exists|k: int| 0 <= k < nv.len() && (#[trigger] nv[k]).state.target == x && nv[k].is_ready_to_join)
}

proof fn lemma_prefix_step(s: Seq<NodeId>, i: int)
    requires
        0 <= i < s.len(),
    ensures
        forall|y: NodeId| #[trigger] s.subrange(0, i + 1).contains(y) <==> (s.subrange(0, i).contains(y) || y == s[i]),
{
    let a = s.subrange(0, i);
    let b = s.subrange(0, i + 1);
    assert forall|y: NodeId| #[trigger] b.contains(y) <==> (a.contains(y) || y == s[i]) by {
        if b.contains(y) && y != s[i] {
            let k = choose|k: int| 0 <= k < b.len() && b[k] == y;
            assert(a[k] == y);
        }
        if y == s[i] {
            assert(b[i] == y);
        }
        if a.contains(y) {
            let k = choose|k: int| 0 <= k < a.len() && a[k] == y;
            assert(b[k] == y);
        }
    }
}

proof fn lemma_push_step(s: Seq<NodeId>, x: NodeId)
    ensures
        forall|y: NodeId| #[trigger] s.push(x).contains(y) <==> (s.contains(y) || y == x),
{
    let b = s.push(x);
    assert forall|y: NodeId| #[trigger] b.contains(y) <==> (s.contains(y) || y == x) by {
        if b.contains(y) && y != x {
            let k = choose|k: int| 0 <= k < b.len() && b[k] == y;
            assert(s[k] == y);
        }
        if y == x {
            assert(b[s.len() as int] == y);
        }
        if s.contains(y) {
            let k = choose|k: int| 0 <= k < s.len() && s[k] == y;
            assert(b[k] == y);
        }
    }
}

/// Whether `x` has a non-voter record ready to join.
fn is_ready(nv: &Vec<NonVoterReplicationState>, x: NodeId) -> (r: bool)
    ensures
        r == exists|k: int| 0 <= k < nv@.len() && (#[trigger] nv@[k]).state.target == x && nv@[k].is_ready_to_join,
{
    let mut i: usize = 0;
    while i < nv.len()
        invariant
            i <= nv@.len(),
            forall|k: int| 0 <= k < i ==> !((#[trigger] nv@[k]).state.target == x && nv@[k].is_ready_to_join),
        decreases nv@.len() - i,
    {
        if nv[i].state.target == x && nv[i].is_ready_to_join {
            return true;
        }
        i = i + 1;
    }
    false
}

/// The nodes of `members` still to be synced before joint consensus can begin.
fn syncing_nodes(members: &Vec<NodeId>, current: &MembershipConfig, nv: &Vec<NonVoterReplicationState>) -> (r: Vec<NodeId>)
    ensures
        forall|x: NodeId| #[trigger] r@.contains(x) <==> still_syncing(members@, *current, nv@, x),
{
    let mut r: Vec<NodeId> = Vec::new();
    let mut i: usize = 0;
    while i < members.len()
        invariant
            i <= members@.len(),
            forall|x: NodeId| #[trigger] r@.contains(x) <==> (still_syncing(members@, *current, nv@, x)
                && members@.subrange(0, i as int).contains(x)),
        decreases members@.len() - i,
    {
        let x = members[i];
        proof {
            lemma_prefix_step(members@, i as int);
            lemma_push_step(r@, x);
            assert(members@.contains(x)) by {
                assert(members@[i as int] == x);
            }
        }
        if !vec_contains(&current.members, x) && !is_ready(nv, x) {
            r.push(x);
        }
        i = i + 1;
    }
    proof {
        assert(members@.subrange(0, members@.len() as int) == members@);
    }
    r
}

impl LeaderState {
    /// Registers `id` as a non-voter to be synced; the caller starts its replication driver.
    /// A node that already has a replication record is refused.
    pub fn add_member(&mut self, id: NodeId) -> (r: Result<(), ChangeConfigError>)
        ensures
            r.is_ok() == (!has_node_record(old(self).nodes@, id) && !has_non_voter(old(self).non_voters@, id)),
            r.is_ok() ==> final(self).non_voters@ == old(self).non_voters@.push(NonVoterReplicationState {
                state: ReplicationState { target: id, match_index: 0, match_term: 0, is_at_line_rate: false },
                is_ready_to_join: false,
            }),
            r.is_err() ==> r == Err::<(), ChangeConfigError>(ChangeConfigError::Noop) && final(self).non_voters == old(self).non_voters,
            final(self).nodes == old(self).nodes,
            final(self).consensus_state == old(self).consensus_state,
            final(self).is_stepping_down == old(self).is_stepping_down,
    {
        if find_node(&self.nodes, id) {
            return Err(ChangeConfigError::Noop);
        }
        match find_non_voter(&self.non_voters, id) {
            Some(_) => Err(ChangeConfigError::Noop),
            None => {
                self.non_voters.push(NonVoterReplicationState {
                    state: ReplicationState { target: id, match_index: 0, match_term: 0, is_at_line_rate: false },
                    is_ready_to_join: false,
                });
                Ok(())
            },
        }
    }

    /// Appends the joint configuration `{current, after: members}` and enters joint consensus.
    /// The configuration takes effect on append; the non-voters it lists start counting
    /// toward quorums.
    fn append_joint_config(&mut self, core: &mut RaftCore, members: Vec<NodeId>) -> (r: Result<u64, RaftError>)
        requires
            old(core).wf(),
        ensures
            final(core).wf(),
            r.is_ok() ==> {
                &&& appended_config(*old(core), *final(core), old(core).membership.members@, Some(members@))
                &&& final(self).consensus_state == ConsensusState::Joint { is_committed: false }
                &&& r == Ok::<u64, RaftError>((old(core).last_log_index + 1) as u64)
                &&& final(self).joint_entry == Some((old(core).last_log_index + 1) as u64)
                &&& final(self).final_entry == old(self).final_entry
                &&& final(self).step_down_at == old(self).step_down_at
                &&& forall|k: int| 0 <= k < old(self).non_voters@.len() && members@.contains(#[trigger] old(self).non_voters@[k].state.target)
                    ==> has_node_record(final(self).nodes@, old(self).non_voters@[k].state.target)
                &&& final(self).nodes@.len() >= old(self).nodes@.len()
                &&& forall|m: int| 0 <= m < old(self).nodes@.len() ==> #[trigger] final(self).nodes@[m] == old(self).nodes@[m]
            },
            r.is_ok() == (old(core).last_log_term <= old(core).current_term && old(core).last_log_index < u64::MAX),
            r.is_err() ==> *final(core) == *old(core),
            final(self).is_stepping_down == old(self).is_stepping_down,
            final(self).initial_entry == old(self).initial_entry,
            final(self).awaiting_committed == old(self).awaiting_committed,
    {
        let current = copy_ids(&core.membership.members);
        let in_log = MembershipConfig { members: copy_ids(&current), members_after_consensus: Some(copy_ids(&members)) };
        let index = match core.append_leader_entry(EntryPayload::ConfigChange(in_log)) {
            Ok(i) => i,
            Err(e) => {
                return Err(e);
            },
        };
        let mut i: usize = 0;
        let mut remaining: Vec<NonVoterReplicationState> = Vec::new();
        let ghost nodes0 = self.nodes@;
        while i < self.non_voters.len()
            invariant
                i <= self.non_voters@.len(),
                self.non_voters == old(self).non_voters,
                self.is_stepping_down == old(self).is_stepping_down,
                self.final_entry == old(self).final_entry,
                self.step_down_at == old(self).step_down_at,
                self.initial_entry == old(self).initial_entry,
                self.awaiting_committed == old(self).awaiting_committed,
                forall|k: int| 0 <= k < i && members@.contains(#[trigger] self.non_voters@[k].state.target)
                    ==> has_node_record(self.nodes@, self.non_voters@[k].state.target),
                forall|m: int| 0 <= m < nodes0.len() ==> #[trigger] self.nodes@[m] == nodes0[m],
                self.nodes@.len() >= nodes0.len(),
            decreases self.non_voters@.len() - i,
        {
            let nv = self.non_voters[i];
            if vec_contains(&members, nv.state.target) {
                let ghost before = self.nodes@;
                self.nodes.push(nv.state);
                proof {
                    assert(self.nodes@[before.len() as int].target == nv.state.target);
                    assert forall|k: int| 0 <= k < i && members@.contains(#[trigger] self.non_voters@[k].state.target)
                        implies has_node_record(self.nodes@, self.non_voters@[k].state.target) by {
                        let t = self.non_voters@[k].state.target;
                        let m = choose|m: int| 0 <= m < before.len() && (#[trigger] before[m]).target == t;
                        assert(self.nodes@[m] == before[m]);
                    }
                }
            } else {
                remaining.push(nv);
            }
            i = i + 1;
        }
        self.non_voters = remaining;
        let ghost logged = core.log@;
        core.membership = MembershipConfig { members: current, members_after_consensus: Some(members) };
        proof {
            assert(logged.subrange(0, old(core).log@.len() as int) =~= old(core).log@);
        }
        self.consensus_state = ConsensusState::Joint { is_committed: false };
        self.joint_entry = Some(index);
        Ok(index)
    }

    /// Handles `ChangeMembership(members)`. Allowed only in uniform consensus, once this
    /// leader's blank entry is committed, and for a non-empty set. New nodes that are not ready yet are synced as non-voters first (the
    /// nodes returned need a replication driver); when none is left to wait for, the joint
    /// configuration is appended at once.
    pub fn change_membership(&mut self, core: &mut RaftCore, members: Vec<NodeId>) -> (r: Result<ChangeStep, RaftError>)
        requires
            old(core).wf(),
        ensures
            final(core).wf(),
            change_blocked(*old(self), *old(core)) ==> {
                &&& r matches Ok(ChangeStep::Rejected(ChangeConfigError::NotAllowed))
                &&& *final(core) == *old(core)
                &&& final(self).consensus_state == old(self).consensus_state
                &&& final(self).non_voters == old(self).non_voters
                &&& final(self).nodes == old(self).nodes
            },
            !change_blocked(*old(self), *old(core)) && members@.len() == 0 ==> {
                &&& r matches Ok(ChangeStep::Rejected(ChangeConfigError::InoperableConfig))
                &&& *final(core) == *old(core)
                &&& final(self).consensus_state == old(self).consensus_state
                &&& final(self).non_voters == old(self).non_voters
                &&& final(self).nodes == old(self).nodes
            },
            !change_blocked(*old(self), *old(core)) && members@.len() > 0
                && (exists|x: NodeId| still_syncing(members@, old(core).membership, old(self).non_voters@, x)) ==> {
                &&& r matches Ok(ChangeStep::AwaitingNonVoters(a)) && (forall|x: NodeId| #[trigger] a@.contains(x) <==>
                    (still_syncing(members@, old(core).membership, old(self).non_voters@, x)
                        && !has_node_record(old(self).nodes@, x) && !has_non_voter(old(self).non_voters@, x)))
                &&& (final(self).consensus_state matches ConsensusState::NonVoterSync { awaiting, members: m }
                    && m@ == members@
                    && (forall|x: NodeId| #[trigger] awaiting@.contains(x) <==> still_syncing(members@, old(core).membership, old(self).non_voters@, x)))
                &&& forall|x: NodeId| #[trigger] has_non_voter(final(self).non_voters@, x) <==>
                    (has_non_voter(old(self).non_voters@, x) || (still_syncing(members@, old(core).membership, old(self).non_voters@, x)
                        && !has_node_record(old(self).nodes@, x)))
                &&& final(self).nodes == old(self).nodes
                &&& *final(core) == *old(core)
            },
            !change_blocked(*old(self), *old(core)) && members@.len() > 0
                && !(exists|x: NodeId| still_syncing(members@, old(core).membership, old(self).non_voters@, x)) ==> {
                &&& r.is_ok() == (old(core).last_log_term <= old(core).current_term && old(core).last_log_index < u64::MAX)
                &&& r.is_ok() ==> {
                    &&& r == Ok::<ChangeStep, RaftError>(ChangeStep::JointAppended((old(core).last_log_index + 1) as u64))
                    &&& appended_config(*old(core), *final(core), old(core).membership.members@, Some(members@))
                    &&& final(self).consensus_state == ConsensusState::Joint { is_committed: false }
                    &&& crate::leader::drivers_cover(old(self).nodes@, *old(core)) ==> forall|x: NodeId|
                        #[trigger] final(core).membership.has_node(x) && x != old(core).id ==> has_node_record(final(self).nodes@, x)
                }
                &&& r.is_err() ==> *final(core) == *old(core)
            },
    {
        match self.consensus_state {
            ConsensusState::Uniform => {},
            _ => {
                return Ok(ChangeStep::Rejected(ChangeConfigError::NotAllowed));
            },
        }
        match self.initial_entry {
            Some(b) => {
                if core.commit_index < b {
                    return Ok(ChangeStep::Rejected(ChangeConfigError::NotAllowed));
                }
            },
            None => {},
        }
        if members.len() == 0 {
            return Ok(ChangeStep::Rejected(ChangeConfigError::InoperableConfig));
        }
        let awaiting = syncing_nodes(&members, &core.membership, &self.non_voters);
        if awaiting.len() == 0 {
            proof {
                assert forall|x: NodeId| !still_syncing(members@, old(core).membership, old(self).non_voters@, x) by {
                    if still_syncing(members@, old(core).membership, old(self).non_voters@, x) {
                        assert(awaiting@.contains(x));
                    }
                }
            }
            let ghost members_v = members@;
            let ghost nv_old = self.non_voters@;
            let ghost nodes_old = self.nodes@;
            let index = self.append_joint_config(core, members)?;
            proof {
                if crate::leader::drivers_cover(nodes_old, *old(core)) {
                    assert forall|x: NodeId| #[trigger] core.membership.has_node(x) && x != old(core).id
                        implies has_node_record(self.nodes@, x) by {
                        if old(core).membership.in_members(x) {
                            assert(old(core).membership.has_node(x));
                            let m = choose|m: int| 0 <= m < nodes_old.len() && (#[trigger] nodes_old[m]).target == x;
                            assert(self.nodes@[m] == nodes_old[m]);
                        } else {
                            assert(members_v.contains(x));
                            assert(!still_syncing(members_v, old(core).membership, nv_old, x));
                            let k = choose|k: int| 0 <= k < nv_old.len() && (#[trigger] nv_old[k]).state.target == x && nv_old[k].is_ready_to_join;
                            assert(members_v.contains(nv_old[k].state.target));
                        }
                    }
                }
            }
            return Ok(ChangeStep::JointAppended(index));
        }
        proof {
            assert(awaiting@.contains(awaiting@[0]));
            assert(still_syncing(members@, old(core).membership, old(self).non_voters@, awaiting@[0]));
        }
        let mut starting: Vec<NodeId> = Vec::new();
        let mut i: usize = 0;
        while i < awaiting.len()
            invariant
                i <= awaiting@.len(),
                self.nodes == old(self).nodes,
                self.consensus_state == old(self).consensus_state,
                forall|x: NodeId| #[trigger] awaiting@.contains(x) <==> still_syncing(members@, old(core).membership, old(self).non_voters@, x),
                forall|x: NodeId| #[trigger] starting@.contains(x) <==> (awaiting@.subrange(0, i as int).contains(x)
                    && !has_node_record(old(self).nodes@, x) && !has_non_voter(old(self).non_voters@, x)),
                forall|x: NodeId| #[trigger] has_non_voter(self.non_voters@, x) <==>
                    (has_non_voter(old(self).non_voters@, x) || (awaiting@.subrange(0, i as int).contains(x) && !has_node_record(old(self).nodes@, x))),
            decreases awaiting@.len() - i,
        {
            let x = awaiting[i];
            let ghost nv0 = self.non_voters@;
            proof {
                lemma_push_step(starting@, x);
                lemma_prefix_step(awaiting@, i as int);
            }
            let added = self.add_member(x).is_ok();
            proof {
                if added {
                    assert forall|y: NodeId| #[trigger] has_non_voter(self.non_voters@, y) <==> (has_non_voter(nv0, y) || y == x) by {
                        if has_non_voter(self.non_voters@, y) && y != x {
                            let k = choose|k: int| 0 <= k < self.non_voters@.len() && (#[trigger] self.non_voters@[k]).state.target == y;
                            assert(nv0[k] == self.non_voters@[k]);
                        }
                        if y == x {
                            assert(self.non_voters@[nv0.len() as int].state.target == x);
                        }
                        if has_non_voter(nv0, y) {
                            let k = choose|k: int| 0 <= k < nv0.len() && (#[trigger] nv0[k]).state.target == y;
                            assert(self.non_voters@[k] == nv0[k]);
                        }
                    }
                }
            }
            if added {
                starting.push(x);
            }
            i = i + 1;
        }
        proof {
            assert(awaiting@.subrange(0, awaiting@.len() as int) == awaiting@);
        }
        self.consensus_state = ConsensusState::NonVoterSync { awaiting, members };
        Ok(ChangeStep::AwaitingNonVoters(starting))
    }

    /// A non-voter's driver reached line rate: it is ready to join. When that was the last
    /// node a pending change waited for, the joint configuration is appended and its index
    /// returned.
    pub fn handle_non_voter_line_rate(&mut self, core: &mut RaftCore, target: NodeId) -> (r: Result<Option<u64>, RaftError>)
        requires
            old(core).wf(),
        ensures
            final(core).wf(),
            r matches Ok(Some(i)) ==> {
                &&& i == old(core).last_log_index + 1
                &&& (old(self).consensus_state matches ConsensusState::NonVoterSync { awaiting, members }
                    && (forall|x: NodeId| #[trigger] awaiting@.contains(x) ==> x == target)
                    && appended_config(*old(core), *final(core), old(core).membership.members@, Some(members@)))
                &&& final(self).consensus_state == ConsensusState::Joint { is_committed: false }
            },
            r matches Ok(None) ==> *final(core) == *old(core),
            r matches Ok(None) ==> {
                &&& !has_non_voter(old(self).non_voters@, target) ==> final(self).non_voters == old(self).non_voters
                &&& has_non_voter(old(self).non_voters@, target) ==> exists|k: int| 0 <= k < old(self).non_voters@.len()
                    && (#[trigger] old(self).non_voters@[k]).state.target == target
                    && final(self).non_voters@ == old(self).non_voters@.update(k, marked_ready(old(self).non_voters@[k]))
            },
            (old(self).consensus_state matches ConsensusState::NonVoterSync { awaiting, members }
                && (exists|x: NodeId| #[trigger] awaiting@.contains(x) && x != target)) ==> {
                &&& r == Ok::<Option<u64>, RaftError>(None)
                &&& old(self).consensus_state matches ConsensusState::NonVoterSync { awaiting, members }
                    && final(self).consensus_state matches ConsensusState::NonVoterSync { awaiting: a2, members: m2 }
                    && m2@ == members@
                    && (forall|x: NodeId| #[trigger] a2@.contains(x) <==> (awaiting@.contains(x) && x != target))
            },
            !(old(self).consensus_state matches ConsensusState::NonVoterSync { .. }) ==> r == Ok::<Option<u64>, RaftError>(None)
                && final(self).consensus_state == old(self).consensus_state,
            (old(self).consensus_state matches ConsensusState::NonVoterSync { awaiting, .. }
                && (forall|x: NodeId| #[trigger] awaiting@.contains(x) ==> x == target))
                && old(core).last_log_term <= old(core).current_term && old(core).last_log_index < u64::MAX
                ==> r matches Ok(Some(_)),
    {
        match find_non_voter(&self.non_voters, target) {
            Some(k) => {
                let mut nv = self.non_voters[k];
                nv.is_ready_to_join = true;
                nv.state.is_at_line_rate = true;
                self.non_voters.set(k, nv);
            },
            None => {},
        }
        let pending = match &self.consensus_state {
            ConsensusState::NonVoterSync { awaiting, members } => Some((copy_ids(awaiting), copy_ids(members))),
            _ => None,
        };
        match pending {
            Some((awaiting, members)) => {
                let mut left: Vec<NodeId> = Vec::new();
                let mut i: usize = 0;
                while i < awaiting.len()
                    invariant
                        i <= awaiting@.len(),
                        forall|x: NodeId| #[trigger] left@.contains(x) <==> (awaiting@.subrange(0, i as int).contains(x) && x != target),
                    decreases awaiting@.len() - i,
                {
                    let x = awaiting[i];
                    proof {
                        lemma_prefix_step(awaiting@, i as int);
                        lemma_push_step(left@, x);
                    }
                    if x != target {
                        left.push(x);
                    }
                    i = i + 1;
                }
                proof {
                    assert(awaiting@.subrange(0, awaiting@.len() as int) == awaiting@);
                }
                if left.len() == 0 {
                    proof {
                        assert forall|x: NodeId| #[trigger] awaiting@.contains(x) implies x == target by {
                            if x != target {
                                assert(left@.contains(x));
                            }
                        }
                    }
                    let index = self.append_joint_config(core, members)?;
                    Ok(Some(index))
                } else {
                    proof {
                        assert(left@.contains(left@[0]));
                    }
                    self.consensus_state = ConsensusState::NonVoterSync { awaiting: left, members };
                    Ok(None)
                }
            },
            None => Ok(None),
        }
    }

    /// The joint configuration is committed: the final configuration, holding the new set
    /// alone, is appended and takes effect; its index is returned.
    pub fn handle_joint_consensus_committed(&mut self, core: &mut RaftCore) -> (r: Result<Option<u64>, RaftError>)
        requires
            old(core).wf(),
        ensures
            final(core).wf(),
            r matches Ok(Some(i)) ==> {
                &&& old(self).consensus_state matches ConsensusState::Joint { is_committed: false }
                &&& (old(core).membership.members_after_consensus matches Some(v)
                    && appended_config(*old(core), *final(core), v@, None))
                &&& i == old(core).last_log_index + 1
                &&& final(self).consensus_state == ConsensusState::Joint { is_committed: true }
                &&& final(self).final_entry == Some(i)
            },
            r matches Ok(None) ==> *final(core) == *old(core) && final(self).final_entry == old(self).final_entry,
            r.is_err() ==> *final(core) == *old(core),
            final(self).non_voters == old(self).non_voters,
            final(self).awaiting_committed == old(self).awaiting_committed,
            final(self).initial_entry == old(self).initial_entry,
            final(self).joint_entry == old(self).joint_entry,
            final(self).step_down_at == old(self).step_down_at,
            final(self).is_stepping_down == old(self).is_stepping_down,
            final(self).nodes == old(self).nodes,
            (old(self).consensus_state matches ConsensusState::Joint { is_committed: false }) && old(core).membership.members_after_consensus.is_some()
                && old(core).last_log_term <= old(core).current_term && old(core).last_log_index < u64::MAX
                ==> r matches Ok(Some(_)),
            !(old(self).consensus_state matches ConsensusState::Joint { is_committed: false }) ==> r == Ok::<Option<u64>, RaftError>(None),
    {
        let joint = match self.consensus_state {
            ConsensusState::Joint { is_committed } => !is_committed,
            _ => false,
        };
        if !joint {
            return Ok(None);
        }
        let after = match &core.membership.members_after_consensus {
            Some(v) => copy_ids(v),
            None => {
                return Ok(None);
            },
        };
        let in_log = MembershipConfig { members: copy_ids(&after), members_after_consensus: None };
        let index = core.append_leader_entry(EntryPayload::ConfigChange(in_log))?;
        let ghost logged = core.log@;
        core.membership = MembershipConfig { members: after, members_after_consensus: None };
        proof {
            assert(logged.subrange(0, old(core).log@.len() as int) =~= old(core).log@);
        }
        self.consensus_state = ConsensusState::Joint { is_committed: true };
        self.final_entry = Some(index);
        Ok(Some(index))
    }

    /// The final configuration, at `index`, is committed: consensus is uniform again, the
    /// records of nodes the configuration no longer names are dropped, and a leader that is
    /// not a member of it starts stepping down once every remaining driver holds `index`.
    pub fn handle_uniform_consensus_committed(&mut self, core: &RaftCore, index: u64)
        ensures
            final(self).consensus_state == ConsensusState::Uniform,
            final(self).is_stepping_down == (old(self).is_stepping_down || !core.membership.in_members(core.id)),
            final(self).step_down_at == if !core.membership.in_members(core.id) { Some(index) } else { old(self).step_down_at },
            kept_members(old(self).nodes@, final(self).nodes@, core.membership),
            final(self).non_voters == old(self).non_voters,
            final(self).joint_entry == old(self).joint_entry,
            final(self).final_entry == old(self).final_entry,
            final(self).awaiting_committed == old(self).awaiting_committed,
            final(self).initial_entry == old(self).initial_entry,
    {
        self.consensus_state = ConsensusState::Uniform;
        let mut kept: Vec<ReplicationState> = Vec::new();
        let mut i: usize = 0;
        while i < self.nodes.len()
            invariant
                i <= self.nodes@.len(),
                self.nodes == old(self).nodes,
                forall|k: int| 0 <= k < kept@.len() ==> core.membership.has_node((#[trigger] kept@[k]).target)
                    && exists|j: int| 0 <= j < i && old(self).nodes@[j] == kept@[k],
                forall|j: int| 0 <= j < i && core.membership.has_node((#[trigger] old(self).nodes@[j]).target)
                    ==> exists|k: int| 0 <= k < kept@.len() && kept@[k] == old(self).nodes@[j],
            decreases self.nodes@.len() - i,
        {
            let n = self.nodes[i];
            let ghost before = kept@;
            if core.membership.contains(&n.target) {
                kept.push(n);
                proof {
                    assert(kept@[before.len() as int] == n);
                    assert forall|k: int| 0 <= k < kept@.len() implies core.membership.has_node((#[trigger] kept@[k]).target)
                        && exists|j: int| 0 <= j < i + 1 && old(self).nodes@[j] == kept@[k] by {
                        if k < before.len() {
                            assert(kept@[k] == before[k]);
                            let j = choose|j: int| 0 <= j < i && old(self).nodes@[j] == before[k];
                            assert(old(self).nodes@[j] == kept@[k]);
                        } else {
                            assert(old(self).nodes@[i as int] == kept@[k]);
                        }
                    }
                    assert forall|j: int| 0 <= j < i + 1 && core.membership.has_node((#[trigger] old(self).nodes@[j]).target)
                        implies exists|k: int| 0 <= k < kept@.len() && kept@[k] == old(self).nodes@[j] by {
                        if j < i {
                            let k = choose|k: int| 0 <= k < before.len() && before[k] == old(self).nodes@[j];
                            assert(kept@[k] == before[k]);
                        } else {
                            assert(kept@[before.len() as int] == old(self).nodes@[j]);
                        }
                    }
                }
            } else {
                proof {
                    assert forall|k: int| 0 <= k < kept@.len() implies core.membership.has_node((#[trigger] kept@[k]).target)
                        && exists|j: int| 0 <= j < i + 1 && old(self).nodes@[j] == kept@[k] by {
                        let j = choose|j: int| 0 <= j < i && old(self).nodes@[j] == kept@[k];
                    }
                }
            }
            i = i + 1;
        }
        self.nodes = kept;
        if !vec_contains(&core.membership.members, core.id) {
            self.is_stepping_down = true;
            self.step_down_at = Some(index);
        }
    }

    /// Moves joint consensus on after the commit index changed: a committed joint entry
    /// leads to the final entry, and a committed final entry makes consensus uniform.
    pub fn handle_commit_advanced(&mut self, core: &mut RaftCore) -> (r: Result<ConsensusProgress, RaftError>)
        requires
            old(core).wf(),
        ensures
            final(core).wf(),
            (match old(self).joint_entry {
                Some(j) => old(core).commit_index >= j,
                None => false,
            }) ==> {
                &&& final(self).joint_entry.is_none()
                &&& r matches Ok(ConsensusProgress::FinalAppended(i)) ==> {
                    &&& final(self).final_entry == Some(i)
                    &&& i == old(core).last_log_index + 1
                    &&& (old(core).membership.members_after_consensus matches Some(v)
                        && appended_config(*old(core), *final(core), v@, None))
                    &&& final(self).consensus_state == ConsensusState::Joint { is_committed: true }
                }
                &&& final(self).nodes == old(self).nodes
                &&& final(self).non_voters == old(self).non_voters
                &&& final(self).awaiting_committed == old(self).awaiting_committed
                &&& (old(self).consensus_state matches ConsensusState::Joint { is_committed: false }) && old(core).membership.members_after_consensus.is_some()
                    && old(core).last_log_term <= old(core).current_term && old(core).last_log_index < u64::MAX
                    ==> r matches Ok(ConsensusProgress::FinalAppended(_))
            },
            !(match old(self).joint_entry {
                Some(j) => old(core).commit_index >= j,
                None => false,
            }) && (match old(self).final_entry {
                Some(f) => old(core).commit_index >= f,
                None => false,
            }) ==> {
                &&& r == Ok::<ConsensusProgress, RaftError>(ConsensusProgress::ChangeCommitted { stepping_down: final(self).is_stepping_down })
                &&& final(self).final_entry.is_none()
                &&& final(self).consensus_state == ConsensusState::Uniform
                &&& final(self).is_stepping_down == (old(self).is_stepping_down || !old(core).membership.in_members(old(core).id))
                &&& final(self).step_down_at == if !old(core).membership.in_members(old(core).id) {
                    old(self).final_entry
                } else {
                    old(self).step_down_at
                }
                &&& *final(core) == *old(core)
                &&& kept_members(old(self).nodes@, final(self).nodes@, old(core).membership)
                &&& final(self).non_voters == old(self).non_voters
                &&& final(self).awaiting_committed == old(self).awaiting_committed
            },
            !(match old(self).joint_entry {
                Some(j) => old(core).commit_index >= j,
                None => false,
            }) && !(match old(self).final_entry {
                Some(f) => old(core).commit_index >= f,
                None => false,
            }) ==> r == Ok::<ConsensusProgress, RaftError>(ConsensusProgress::Nothing) && *final(core) == *old(core)
                && *final(self) == *old(self),
    {
        match self.joint_entry {
            Some(j) => {
                if core.commit_index >= j {
                    self.joint_entry = None;
                    return match self.handle_joint_consensus_committed(core)? {
                        Some(i) => Ok(ConsensusProgress::FinalAppended(i)),
                        None => Ok(ConsensusProgress::Nothing),
                    };
                }
            },
            None => {},
        }
        match self.final_entry {
            Some(f) => {
                if core.commit_index >= f {
                    self.final_entry = None;
                    self.handle_uniform_consensus_committed(core, f);
                    return Ok(ConsensusProgress::ChangeCommitted { stepping_down: self.is_stepping_down });
                }
            },
            None => {},
        }
        Ok(ConsensusProgress::Nothing)
    }

    /// A leader stepping down becomes a non-voter once every replication driver holds the
    /// log through the final configuration's entry; the caller then stops the drivers.
    pub fn step_down_if_replicated(&self, core: &mut RaftCore) -> (r: bool)
        ensures
            r == (self.is_stepping_down && match self.step_down_at {
                Some(index) => forall|k: int| 0 <= k < self.nodes@.len() ==> (#[trigger] self.nodes@[k]).match_index >= index,
                None => false,
            }),
            r ==> *final(core) == (RaftCore { target_state: crate::types::State::NonVoter, ..*old(core) }),
            !r ==> *final(core) == *old(core),
    {
        if !self.is_stepping_down {
            return false;
        }
        let index = match self.step_down_at {
            Some(i) => i,
            None => {
                return false;
            },
        };
        let mut i: usize = 0;
        while i < self.nodes.len()
            invariant
                i <= self.nodes@.len(),
                self.step_down_at == Some(index),
                self.is_stepping_down,
                forall|k: int| 0 <= k < i ==> (#[trigger] self.nodes@[k]).match_index >= index,
            decreases self.nodes@.len() - i,
        {
            if self.nodes[i].match_index < index {
                return false;
            }
            i = i + 1;
        }
        core.target_state = crate::types::State::NonVoter;
        true
    }
}

} // verus!
