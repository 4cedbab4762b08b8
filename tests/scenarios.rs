use raft_core::apply::ReplicationEventListener;
use raft_core::consensus::{ChangeStep, ConsensusProgress};
use raft_core::leader::LeaderState;
use raft_core::roles::{CandidateState, NonVoterState};
use raft_core::rpc::SnapshotStep;
use raft_core::{
    AppendEntriesRequest, Config, ConsensusState, Entry, EntryPayload, HardState, InitialState,
    InstallSnapshotRequest, MembershipConfig, NodeId, RaftCore, State, VoteResponse,
};

const A: NodeId = 1;
const B: NodeId = 2;
const C: NodeId = 3;
const D: NodeId = 4;

fn config() -> Config {
    Config { snapshot_threshold: 1000 }
}

fn membership(ids: &[NodeId]) -> MembershipConfig {
    MembershipConfig { members: ids.to_vec(), members_after_consensus: None }
}

fn entry(index: u64, term: u64) -> Entry {
    Entry { index, term, payload: EntryPayload::Blank }
}

fn node(id: NodeId, ids: &[NodeId], snapshot: Option<(u64, u64)>, entries: Vec<Entry>, last_applied: u64) -> RaftCore {
    let mut core = RaftCore::new(id, config());
    let (start, start_term) = snapshot.unwrap_or((0, 0));
    let last_log_index = start + entries.len() as u64;
    let last_log_term = entries.last().map(|e| e.term).unwrap_or(start_term);
    let state = InitialState {
        hard_state: HardState { current_term: last_log_term, voted_for: None },
        last_log_index,
        last_log_term,
        last_applied_log: last_applied,
        membership: membership(ids),
    };
    core.load_initial_state(state, snapshot, entries).unwrap();
    core
}

fn append(term: u64, leader: NodeId, prev: (u64, u64), entries: Vec<Entry>, leader_commit: u64) -> AppendEntriesRequest {
    AppendEntriesRequest { term, leader_id: leader, prev_log_index: prev.0, prev_log_term: prev.1, entries, leader_commit }
}

/// Elects `A` leader of a fresh `{A, B, C}` cluster and commits its blank entry.
fn elected_cluster() -> (RaftCore, RaftCore, RaftCore, LeaderState) {
    let mut a = node(A, &[A, B, C], None, vec![], 0);
    let mut b = node(B, &[A, B, C], None, vec![], 0);
    let mut c = node(C, &[A, B, C], None, vec![], 0);
    a.handle_election_timeout();
    assert_eq!(a.target_state, State::Candidate);
    let mut cand = CandidateState::new();
    let req = cand.start_term(&mut a, 500);
    assert_eq!(a.current_term, 1);
    let rb = b.handle_vote_request(req, 600);
    let rc = c.handle_vote_request(req, 600);
    assert!(rb.vote_granted && rc.vote_granted);
    cand.handle_vote_response(&mut a, rb, B);
    assert_eq!(a.target_state, State::Leader);
    cand.handle_vote_response(&mut a, rc, C);
    let mut leader = LeaderState::new(&a);
    let (targets, index) = leader.begin(&mut a).unwrap();
    assert_eq!(targets.len(), 2);
    assert_eq!(index, 1);
    for f in [&mut b, &mut c] {
        let res = f.handle_append_entries_request(append(1, A, (0, 0), vec![entry(1, 1)], 0), 700).unwrap();
        assert!(res.success);
    }
    assert_eq!(leader.handle_update_match_index(&mut a, B, 1, 1), Some(1));
    leader.handle_update_match_index(&mut a, C, 1, 1);
    for f in [&mut b, &mut c] {
        f.handle_append_entries_request(append(1, A, (1, 1), vec![], 1), 800).unwrap();
    }
    (a, b, c, leader)
}

#[test]
fn single_node_bootstrap() {
    let mut a = node(A, &[A], None, vec![], 0);
    assert_eq!(a.target_state, State::NonVoter);
    NonVoterState::new().handle_init_with_config(&mut a, vec![A]).unwrap();
    assert_eq!(a.target_state, State::Leader);
    assert_eq!(a.current_term, 1);
    let mut leader = LeaderState::new(&a);
    let (targets, index) = leader.begin(&mut a).unwrap();
    assert!(targets.is_empty());
    assert_eq!(index, 1);
    assert_eq!(a.last_log_index, 1);
    assert_eq!(leader.calculate_commit_index(&a), 1);
    assert_eq!(leader.handle_update_match_index(&mut a, A, 1, 1), Some(1));
    assert_eq!(a.commit_index, 1);
}

#[test]
fn three_node_election() {
    let (a, b, c, _) = elected_cluster();
    assert_eq!(a.target_state, State::Leader);
    assert_eq!(a.current_leader, Some(A));
    assert_eq!(a.commit_index, 1);
    assert_eq!(b.current_leader, Some(A));
    assert_eq!(c.current_leader, Some(A));
    assert_eq!(b.commit_index, 1);
    assert_eq!(b.voted_for, Some(A));
}

#[test]
fn append_entries_conflict_truncation() {
    let mut b = node(B, &[A, B, C], None, vec![entry(1, 1), entry(2, 1), entry(3, 2)], 0);
    let res = b.handle_append_entries_request(append(2, A, (3, 2), vec![], 1), 10).unwrap();
    assert!(res.success);
    assert_eq!(b.commit_index, 1);
    let res = b.handle_append_entries_request(append(3, A, (2, 1), vec![entry(3, 3)], 1), 20).unwrap();
    assert!(res.success);
    assert_eq!(b.last_log_index, 3);
    assert_eq!(b.last_log_term, 3);
    assert_eq!(b.log.len(), 3);
    assert_eq!(b.log[2].term, 3);
    assert_eq!(b.log[1].term, 1);
}

#[test]
fn joint_consensus_add() {
    let (mut a, _, _, mut leader) = elected_cluster();
    let step = leader.change_membership(&mut a, vec![A, B, C, D]).unwrap();
    match step {
        ChangeStep::AwaitingNonVoters(started) => assert_eq!(started, vec![D]),
        _ => panic!("expected non-voter sync"),
    }
    assert!(matches!(leader.consensus_state, ConsensusState::NonVoterSync { .. }));
    let joint = leader.handle_non_voter_line_rate(&mut a, D).unwrap().unwrap();
    assert_eq!(joint, 2);
    assert_eq!(a.membership.members, vec![A, B, C]);
    assert_eq!(a.membership.members_after_consensus, Some(vec![A, B, C, D]));
    assert!(matches!(leader.consensus_state, ConsensusState::Joint { is_committed: false }));
    assert_eq!(leader.handle_update_match_index(&mut a, D, joint, 1), None);
    assert_eq!(leader.handle_update_match_index(&mut a, B, joint, 1), Some(joint));
    let last = leader.handle_joint_consensus_committed(&mut a).unwrap().unwrap();
    assert_eq!(last, 3);
    assert_eq!(a.membership.members, vec![A, B, C, D]);
    assert!(a.membership.members_after_consensus.is_none());
    assert!(leader.consensus_state.is_joint_consensus_safe_to_finalize());
    leader.handle_update_match_index(&mut a, B, last, 1);
    assert_eq!(leader.handle_update_match_index(&mut a, D, last, 1), Some(last));
    leader.handle_uniform_consensus_committed(&a, last);
    assert!(matches!(leader.consensus_state, ConsensusState::Uniform));
    assert!(!leader.is_stepping_down);
}

#[test]
fn leader_step_down() {
    let (mut a, _, _, mut leader) = elected_cluster();
    let joint = match leader.change_membership(&mut a, vec![B, C]).unwrap() {
        ChangeStep::JointAppended(i) => i,
        _ => panic!("expected the joint configuration"),
    };
    leader.handle_update_match_index(&mut a, B, joint, 1);
    assert_eq!(leader.handle_update_match_index(&mut a, C, joint, 1), Some(joint));
    let last = match leader.handle_commit_advanced(&mut a).unwrap() {
        ConsensusProgress::FinalAppended(i) => i,
        other => panic!("expected the final configuration, got {:?}", other),
    };
    assert_eq!(a.membership.members, vec![B, C]);
    leader.handle_update_match_index(&mut a, B, last, 1);
    assert!(!leader.step_down_if_replicated(&mut a));
    assert_eq!(leader.handle_update_match_index(&mut a, C, last, 1), Some(last));
    assert_eq!(leader.handle_commit_advanced(&mut a).unwrap(), ConsensusProgress::ChangeCommitted { stepping_down: true });
    assert!(leader.is_stepping_down);
    assert!(leader.step_down_if_replicated(&mut a));
    assert_eq!(a.target_state, State::NonVoter);
}

#[test]
fn snapshot_install() {
    let mut b = node(B, &[A, B], Some((10, 1)), vec![], 10);
    assert_eq!(b.last_log_index, 10);
    let chunk = |offset: u64, data: Vec<u8>, done: bool| InstallSnapshotRequest {
        term: 2,
        leader_id: A,
        snapshot_id: String::from("snap-50"),
        last_included_index: 50,
        last_included_term: 2,
        offset,
        data,
        done,
        membership: membership(&[A, B, C]),
    };
    let (_, step) = b.handle_install_snapshot_request(chunk(0, vec![1, 2, 3], false), 100).unwrap();
    assert_eq!(step, SnapshotStep::Write { abort_build: false, begin: true, install: false, discard: false });
    let (_, step) = b.handle_install_snapshot_request(chunk(3, vec![4, 5], false), 100).unwrap();
    assert_eq!(step, SnapshotStep::Write { abort_build: false, begin: false, install: false, discard: false });
    let (resp, step) = b.handle_install_snapshot_request(chunk(5, vec![6], true), 100).unwrap();
    assert_eq!(resp.term, 2);
    assert_eq!(step, SnapshotStep::Write { abort_build: false, begin: false, install: true, discard: false });
    assert_eq!(b.snapshot_index, 50);
    assert_eq!(b.last_applied, 50);
    assert_eq!(b.commit_index, 50);
    assert_eq!(b.last_log_index, 50);
    assert_eq!(b.last_log_term, 2);
    assert_eq!(b.membership.members, vec![A, B, C]);
    assert!(b.snapshot_state.is_none());
    let mut l = ReplicationEventListener::new();
    l.observe_committed(b.commit_index, b.last_log_index, b.last_applied);
    assert_eq!(l.entries_to_fetch(), None);
}

#[test]
fn vote_response_with_higher_term_reverts() {
    let mut a = node(A, &[A, B, C], None, vec![], 0);
    a.handle_election_timeout();
    let mut cand = CandidateState::new();
    cand.start_term(&mut a, 1);
    cand.handle_vote_response(&mut a, VoteResponse { term: 5, vote_granted: false }, B);
    assert_eq!(a.current_term, 5);
    assert_eq!(a.target_state, State::Follower);
    assert_eq!(a.voted_for, None);
}

#[test]
fn joint_consensus_waits_for_every_new_node() {
    let (mut a, _, _, mut leader) = elected_cluster();
    match leader.change_membership(&mut a, vec![A, B, C, D, 5]).unwrap() {
        ChangeStep::AwaitingNonVoters(started) => assert_eq!(started, vec![D, 5]),
        _ => panic!("expected non-voter sync"),
    }
    assert_eq!(leader.handle_non_voter_line_rate(&mut a, D).unwrap(), None);
    match &leader.consensus_state {
        ConsensusState::NonVoterSync { awaiting, members } => {
            assert_eq!(awaiting, &vec![5]);
            assert_eq!(members, &vec![A, B, C, D, 5]);
        }
        _ => panic!("still syncing"),
    }
    assert!(leader.non_voters[0].is_ready_to_join);
    assert!(leader.non_voters[0].state.is_at_line_rate);
    assert!(matches!(leader.change_membership(&mut a, vec![A]).unwrap(), ChangeStep::Rejected(raft_core::ChangeConfigError::NotAllowed)));
    let joint = leader.handle_non_voter_line_rate(&mut a, 5).unwrap().unwrap();
    assert_eq!(leader.joint_entry, Some(joint));
    leader.handle_update_match_index(&mut a, B, joint, 1);
    leader.handle_update_match_index(&mut a, D, joint, 1);
    leader.handle_update_match_index(&mut a, 5, joint, 1);
    assert_eq!(a.commit_index, joint);
    assert_eq!(leader.handle_commit_advanced(&mut a).unwrap(), ConsensusProgress::FinalAppended(joint + 1));
    assert_eq!(a.membership.members, vec![A, B, C, D, 5]);
    assert_eq!(leader.handle_commit_advanced(&mut a).unwrap(), ConsensusProgress::Nothing);
}

#[test]
fn removed_node_records_are_dropped() {
    let (mut a, _, _, mut leader) = elected_cluster();
    let joint = match leader.change_membership(&mut a, vec![A, B]).unwrap() {
        ChangeStep::JointAppended(i) => i,
        _ => panic!("expected the joint configuration"),
    };
    match &a.log[a.log.len() - 1].payload {
        EntryPayload::ConfigChange(c) => {
            assert_eq!(c.members, vec![A, B, C]);
            assert_eq!(c.members_after_consensus, Some(vec![A, B]));
        }
        _ => panic!("expected a configuration entry"),
    }
    assert_eq!(a.log[a.log.len() - 1].term, a.current_term);
    assert_eq!(leader.handle_update_match_index(&mut a, B, joint, 1), Some(joint));
    let last = match leader.handle_commit_advanced(&mut a).unwrap() {
        ConsensusProgress::FinalAppended(i) => i,
        other => panic!("expected the final configuration, got {:?}", other),
    };
    match &a.log[a.log.len() - 1].payload {
        EntryPayload::ConfigChange(c) => {
            assert_eq!(c.members, vec![A, B]);
            assert!(c.members_after_consensus.is_none());
        }
        _ => panic!("expected a configuration entry"),
    }
    assert_eq!(leader.handle_update_match_index(&mut a, B, last, 1), Some(last));
    assert_eq!(leader.handle_commit_advanced(&mut a).unwrap(), ConsensusProgress::ChangeCommitted { stepping_down: false });
    let targets: Vec<NodeId> = leader.nodes.iter().map(|n| n.target).collect();
    assert_eq!(targets, vec![B]);
    assert!(!leader.step_down_if_replicated(&mut a));
    assert_eq!(a.target_state, State::Leader);
}
