//! The decisions of the candidate, follower and non-voter role drivers.
use vstd::prelude::*;
use crate::apply::{after_observe, ReplicationEventListener};
use crate::node::{coerced_role, compaction_due, RaftCore};
use crate::quorum::{count_acked_and_distinct, distinct_len, has_quorum, joint_quorum, majority, majority_of};
use crate::types::{names_only, vec_names_only, InitializeError, MembershipConfig, NodeId, SnapshotState, State, UpdateCurrentLeader, VoteRequest, VoteResponse};

verus! {

/// Volatile state of a node campaigning for leadership.
#[derive(Debug)]
pub struct CandidateState {
    /// The nodes that granted their vote in this term, this node included.
    pub granted: Vec<NodeId>,
    /// The votes needed from the current membership set.
    pub votes_needed_old: u64,
    /// The votes needed from the new membership set, in joint consensus.
    pub votes_needed_new: u64,
}

impl CandidateState {
    /// A candidate that has not started a term yet.
    pub fn new() -> (r: CandidateState)
        ensures
            r.granted@.len() == 0,
            r.votes_needed_old == 0,
            r.votes_needed_new == 0,
    {
        CandidateState { granted: Vec::new(), votes_needed_old: 0, votes_needed_new: 0 }
    }

    /// Starts a new election term: the node moves to the next term, votes for itself, forgets
    /// the leader and installs `fresh_timeout` as its election deadline. Returns the request
    /// to send to every other node of both membership sets; the caller persists the hard
    /// state first.
    pub fn start_term(&mut self, core: &mut RaftCore, fresh_timeout: u64) -> (r: VoteRequest)
        requires
            old(core).wf(),
            old(core).current_term < u64::MAX,
        ensures
            final(core).wf(),
            *final(core) == (RaftCore {
                current_term: (old(core).current_term + 1) as u64,
                voted_for: Some(old(core).id),
                current_leader: None,
                next_election_timeout: Some(fresh_timeout),
                ..*old(core)
            }),
            final(self).granted@ == seq![old(core).id],
            final(self).votes_needed_old == majority(distinct_len(old(core).membership.members@)),
            final(self).votes_needed_new == match old(core).membership.members_after_consensus {
                Some(v) => majority(distinct_len(v@)),
                None => 0,
            },
            r == (VoteRequest {
                term: final(core).current_term,
                candidate_id: old(core).id,
                last_log_index: old(core).last_log_index,
                last_log_term: old(core).last_log_term,
            }),
    {
        let mut granted: Vec<NodeId> = Vec::new();
        granted.push(core.id);
        self.granted = granted;
        self.votes_needed_old = majority_of(count_acked_and_distinct(&core.membership.members, &self.granted).1);
        self.votes_needed_new = match &core.membership.members_after_consensus {
            Some(v) => majority_of(count_acked_and_distinct(v, &self.granted).1),
            None => 0,
        };
        core.update_next_election_timeout(fresh_timeout);
        core.current_term = core.current_term + 1;
        core.voted_for = Some(core.id);
        core.update_current_leader(UpdateCurrentLeader::Unknown);
        VoteRequest {
            term: core.current_term,
            candidate_id: core.id,
            last_log_index: core.last_log_index,
            last_log_term: core.last_log_term,
        }
    }

    /// Takes in `peer`'s answer to this term's vote request.
    ///
    /// A higher term sends the node back to following. A vote granted in this term is
    /// counted once per node; the node becomes leader as soon as the granted votes reach a
    /// majority in the current set and, in joint consensus, in the new set too.
    pub fn handle_vote_response(&mut self, core: &mut RaftCore, res: VoteResponse, peer: NodeId)
        requires
            old(core).wf(),
        ensures
            final(core).wf(),
            res.term > old(core).current_term ==> {
                &&& *final(core) == (RaftCore {
                    current_term: res.term,
                    voted_for: None,
                    current_leader: None,
                    target_state: coerced_role(old(core).membership, old(core).id, State::Follower),
                    ..*old(core)
                })
                &&& final(self).granted == old(self).granted
            },
            res.term <= old(core).current_term ==> {
                let counted = res.vote_granted && res.term == old(core).current_term;
                let voters = if counted && !old(self).granted@.contains(peer) {
                    old(self).granted@.push(peer)
                } else {
                    old(self).granted@
                };
                &&& final(self).granted@ == voters
                &&& *final(core) == (RaftCore {
                    target_state: if counted && old(core).target_state == State::Candidate
                        && joint_quorum(old(core).membership, voters.to_set()) {
                        State::Leader
                    } else {
                        old(core).target_state
                    },
                    ..*old(core)
                })
            },
            final(self).votes_needed_old == old(self).votes_needed_old,
            final(self).votes_needed_new == old(self).votes_needed_new,
    {
        if res.term > core.current_term {
            core.update_current_term(res.term, None);
            core.update_current_leader(UpdateCurrentLeader::Unknown);
            core.set_target_state(State::Follower);
            return;
        }
        if !(res.vote_granted && res.term == core.current_term) {
            return;
        }
        if !crate::types::vec_contains(&self.granted, peer) {
            self.granted.push(peer);
        }
        if core.target_state == State::Candidate && has_quorum(&core.membership, &self.granted) {
            core.set_target_state(State::Leader);
        }
    }
}

/// The role a pristine node takes on `Initialize(members)`.
pub open spec fn role_after_init(id: NodeId, members: Seq<NodeId>) -> State {
    if names_only(members, id) {
        State::Leader
    } else if members.contains(id) {
        State::Follower
    } else {
        State::NonVoter
    }
}

/// Volatile state of a non-voter.
#[derive(Debug)]
pub struct NonVoterState {}

impl NonVoterState {
    /// A non-voter's state.
    pub fn new() -> (r: NonVoterState) {
        NonVoterState {}
    }

    /// Handles `Initialize(members)`: accepted exactly by a non-voter whose log is empty.
    /// The membership becomes `members`; a node alone in it moves to the next term, votes
    /// for itself and leads, a node among others follows.
    pub fn handle_init_with_config(&mut self, core: &mut RaftCore, members: Vec<NodeId>) -> (r: Result<(), InitializeError>)
        requires
            old(core).wf(),
            old(core).current_term < u64::MAX,
        ensures
            final(core).wf(),
            r.is_ok() == (old(core).target_state == State::NonVoter && old(core).last_log_index == 0),
            r.is_err() ==> r == Err::<(), InitializeError>(InitializeError::NotAllowed) && *final(core) == *old(core),
            r.is_ok() ==> ({
                let alone = names_only(members@, old(core).id);
                *final(core) == (RaftCore {
                    membership: MembershipConfig { members, members_after_consensus: None },
                    target_state: role_after_init(old(core).id, members@),
                    current_term: if alone { (old(core).current_term + 1) as u64 } else { old(core).current_term },
                    voted_for: if alone { Some(old(core).id) } else { old(core).voted_for },
                    ..*old(core)
                })
            }),
    {
        if core.target_state != State::NonVoter || core.last_log_index != 0 {
            return Err(core.reject_init_with_config());
        }
        let alone = vec_names_only(&members, core.id);
        let listed = crate::types::vec_contains(&members, core.id);
        let cfg = MembershipConfig { members, members_after_consensus: None };
        let _ = core.update_membership(cfg);
        if alone {
            core.current_term = core.current_term + 1;
            core.voted_for = Some(core.id);
            core.set_target_state(State::Leader);
        } else if listed {
            core.set_target_state(State::Follower);
        } else {
            core.set_target_state(State::NonVoter);
        }
        Ok(())
    }

}

/// Volatile state of a follower: its apply worker's view of the node.
#[derive(Debug)]
pub struct FollowerState {
    pub replication_task: ReplicationEventListener,
}

impl FollowerState {
    /// A follower whose apply worker has seen nothing yet.
    pub fn new() -> (r: FollowerState)
        ensures
            r.replication_task == ReplicationEventListener::new_spec(),
    {
        FollowerState { replication_task: ReplicationEventListener::new() }
    }

    /// After an AppendEntries request, tells the apply worker where the node stands.
    pub fn report_commit(&mut self, core: &RaftCore)
        ensures
            final(self).replication_task == after_observe(old(self).replication_task, core.commit_index, core.last_log_index, core.last_applied),
    {
        self.replication_task.observe_committed(core.commit_index, core.last_log_index, core.last_applied);
    }
}

impl RaftCore {
    /// A follower whose election deadline passed starts campaigning.
    pub fn handle_election_timeout(&mut self)
        ensures
            *final(self) == (RaftCore {
                target_state: if old(self).target_state == State::Follower { State::Candidate } else { old(self).target_state },
                ..*old(self)
            }),
    {
        if self.target_state == State::Follower {
            self.set_target_state(State::Candidate);
        }
    }

    /// A follower or non-voter learns from its apply worker that `index` is applied; a
    /// compaction may then be due, and the index it must cover is returned. An index beyond
    /// the commit index is ignored.
    pub fn handle_applied(&mut self, index: u64) -> (r: Option<u64>)
        requires
            old(self).wf(),
        ensures
            final(self).wf(),
            old(self).applied_within_commit() ==> final(self).applied_within_commit(),
            index <= old(self).commit_index ==> {
                let s1 = RaftCore { last_applied: index, ..*old(self) };
                &&& r == compaction_due(s1)
                &&& match r {
                    Some(t) => *final(self) == (RaftCore { snapshot_state: Some(SnapshotState::Snapshotting { through: t }), ..s1 }),
                    None => *final(self) == s1,
                }
            },
            index > old(self).commit_index ==> *final(self) == *old(self) && r.is_none(),
    {
        if index > self.commit_index {
            return None;
        }
        self.last_applied = index;
        self.trigger_log_compaction_if_needed()
    }

    /// Whether the driver of role `role` must return control to the main loop.
    pub fn role_ended(&self, role: State, needs_shutdown: bool) -> (r: bool)
        ensures
            r == (self.target_state != role || needs_shutdown),
    {
        self.target_state != role || needs_shutdown
    }
}

} // verus!
