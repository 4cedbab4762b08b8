use raft_core::apply::ReplicationEventListener;
use raft_core::consensus::ChangeStep;
use raft_core::leader::LeaderState;
use raft_core::log::check_log;
use raft_core::quorum::{count_acked, has_quorum, majority_of};
use raft_core::{
    AppendEntriesRequest, ChangeConfigError, ClientReadError, ClientWriteError, Config, ConflictOpt, Entry,
    EntryPayload, HardState, InitialState, InitializeError, InstallSnapshotRequest, MembershipConfig, NodeId,
    RaftError, RaftCore, SnapshotState, SnapshotUpdate, State, UpdateCurrentLeader, VoteRequest,
};

const A: NodeId = 1;
const B: NodeId = 2;
const C: NodeId = 3;

fn membership(ids: &[NodeId]) -> MembershipConfig {
    MembershipConfig { members: ids.to_vec(), members_after_consensus: None }
}

fn entry(index: u64, term: u64) -> Entry {
    Entry { index, term, payload: EntryPayload::Blank }
}

fn normal(index: u64, term: u64, data: Vec<u8>) -> Entry {
    Entry { index, term, payload: EntryPayload::Normal(data) }
}

fn node(id: NodeId, ids: &[NodeId], entries: Vec<Entry>, threshold: u64) -> RaftCore {
    let mut core = RaftCore::new(id, Config { snapshot_threshold: threshold });
    let last_log_index = entries.len() as u64;
    let last_log_term = entries.last().map(|e| e.term).unwrap_or(0);
    let state = InitialState {
        hard_state: HardState { current_term: last_log_term, voted_for: None },
        last_log_index,
        last_log_term,
        last_applied_log: 0,
        membership: membership(ids),
    };
    core.load_initial_state(state, None, entries).unwrap();
    core
}

fn append(term: u64, prev: (u64, u64), entries: Vec<Entry>, leader_commit: u64) -> AppendEntriesRequest {
    AppendEntriesRequest { term, leader_id: A, prev_log_index: prev.0, prev_log_term: prev.1, entries, leader_commit }
}

fn terms(core: &RaftCore) -> Vec<u64> {
    core.log.iter().map(|e| e.term).collect()
}

#[test]
fn state_predicates() {
    assert!(State::NonVoter.is_non_voter());
    assert!(State::Follower.is_follower());
    assert!(State::Candidate.is_candidate());
    assert!(State::Leader.is_leader());
    assert!(!State::Shutdown.is_leader());
    assert!(!State::Leader.is_follower());
}

#[test]
fn consensus_state_finalize() {
    assert!(raft_core::ConsensusState::Joint { is_committed: true }.is_joint_consensus_safe_to_finalize());
    assert!(!raft_core::ConsensusState::Joint { is_committed: false }.is_joint_consensus_safe_to_finalize());
    assert!(!raft_core::ConsensusState::Uniform.is_joint_consensus_safe_to_finalize());
}

#[test]
fn initial_roles() {
    assert_eq!(node(A, &[A], vec![entry(1, 1)], 10).target_state, State::Leader);
    assert_eq!(node(A, &[A], vec![], 10).target_state, State::NonVoter);
    assert_eq!(node(A, &[A, B], vec![], 10).target_state, State::Follower);
    let n = node(A, &[A, B], vec![entry(1, 1), entry(2, 1)], 10);
    assert_eq!(n.commit_index, 0);
    assert_eq!(n.last_log_index, 2);
}

#[test]
fn inconsistent_recovery_is_fatal() {
    let mut core = RaftCore::new(A, Config { snapshot_threshold: 10 });
    let state = InitialState {
        hard_state: HardState { current_term: 2, voted_for: None },
        last_log_index: 2,
        last_log_term: 1,
        last_applied_log: 0,
        membership: membership(&[A, B]),
    };
    let r = core.load_initial_state(state, None, vec![entry(1, 2), entry(2, 1)]);
    assert!(matches!(r, Err(RaftError::InconsistentState)));
    assert_eq!(core.target_state, State::Shutdown);
}

#[test]
fn log_terms_never_decrease() {
    assert!(check_log(&vec![entry(1, 1), entry(2, 1), entry(3, 4)], 0, 0));
    assert!(!check_log(&vec![entry(1, 2), entry(2, 1)], 0, 0));
    assert!(!check_log(&vec![entry(1, 1), entry(3, 1)], 0, 0));
    assert!(!check_log(&vec![entry(6, 1)], 5, 2));
    let mut b = node(B, &[A, B, C], vec![entry(1, 2)], 10);
    let r = b.handle_append_entries_request(append(3, (1, 2), vec![entry(2, 1)], 0), 5).unwrap();
    assert!(!r.success);
    assert_eq!(b.last_log_index, 1);
}

#[test]
fn applied_stays_within_commit() {
    let mut b = node(B, &[A, B, C], vec![entry(1, 1), entry(2, 1), entry(3, 1)], 1000);
    b.handle_append_entries_request(append(1, (3, 1), vec![], 2), 5).unwrap();
    assert_eq!(b.commit_index, 2);
    assert_eq!(b.handle_applied(3), None);
    assert_eq!(b.last_applied, 0);
    b.handle_applied(2);
    assert_eq!(b.last_applied, 2);
    assert!(b.last_applied <= b.commit_index && b.commit_index <= b.last_log_index);
}

#[test]
fn append_entries_idempotent() {
    let mut b = node(B, &[A, B, C], vec![entry(1, 1)], 10);
    let req = || append(2, (1, 1), vec![entry(2, 2), entry(3, 2)], 2);
    b.handle_append_entries_request(req(), 5).unwrap();
    let once = (terms(&b), b.last_log_index, b.commit_index);
    let r = b.handle_append_entries_request(req(), 5).unwrap();
    assert!(r.success);
    assert_eq!((terms(&b), b.last_log_index, b.commit_index), once);
    assert_eq!(once, (vec![1, 2, 2], 3, 2));
}

#[test]
fn append_entries_keeps_longer_matching_log() {
    let mut b = node(B, &[A, B, C], vec![entry(1, 1), entry(2, 1), entry(3, 1)], 10);
    let r = b.handle_append_entries_request(append(1, (0, 0), vec![entry(1, 1)], 0), 5).unwrap();
    assert!(r.success);
    assert_eq!(b.last_log_index, 3);
}

#[test]
fn append_entries_conflict_hints() {
    let mut b = node(B, &[A, B, C], vec![entry(1, 1), entry(2, 2)], 10);
    let r = b.handle_append_entries_request(append(2, (5, 2), vec![], 0), 5).unwrap();
    assert_eq!(r.conflict_opt, Some(ConflictOpt { term: 2, index: 2 }));
    let r = b.handle_append_entries_request(append(2, (2, 1), vec![], 0), 5).unwrap();
    assert!(!r.success);
    assert_eq!(r.conflict_opt, Some(ConflictOpt { term: 2, index: 0 }));
    let r = b.handle_append_entries_request(append(1, (0, 0), vec![], 0), 5).unwrap();
    assert!(!r.success);
    assert_eq!(r.term, 2);
}

#[test]
fn committed_entry_is_never_cut() {
    let mut b = node(B, &[A, B, C], vec![entry(1, 1), entry(2, 1)], 10);
    b.handle_append_entries_request(append(1, (2, 1), vec![], 2), 5).unwrap();
    let r = b.handle_append_entries_request(append(3, (1, 1), vec![entry(2, 3)], 2), 5);
    assert!(matches!(r, Err(RaftError::InconsistentState)));
    assert_eq!(b.target_state, State::Shutdown);
    assert_eq!(terms(&b), vec![1, 1]);
}

#[test]
fn append_entries_applies_config_change() {
    let mut b = node(B, &[A, B, C], vec![], 10);
    let cfg = Entry { index: 1, term: 1, payload: EntryPayload::ConfigChange(membership(&[A, C])) };
    b.handle_append_entries_request(append(1, (0, 0), vec![cfg], 0), 5).unwrap();
    assert_eq!(b.membership.members, vec![A, C]);
    assert_eq!(b.target_state, State::NonVoter);
}

#[test]
fn one_vote_per_term() {
    let mut b = node(B, &[A, B, C], vec![], 10);
    let req = |cand: NodeId| VoteRequest { term: 1, candidate_id: cand, last_log_index: 0, last_log_term: 0 };
    assert!(b.handle_vote_request(req(A), 5).vote_granted);
    assert!(!b.handle_vote_request(req(C), 5).vote_granted);
    assert!(b.handle_vote_request(req(A), 5).vote_granted);
    assert_eq!(b.voted_for, Some(A));
    let later = VoteRequest { term: 2, candidate_id: C, last_log_index: 0, last_log_term: 0 };
    assert!(b.handle_vote_request(later, 5).vote_granted);
}

#[test]
fn vote_refused_to_stale_log() {
    let mut b = node(B, &[A, B, C], vec![entry(1, 2)], 10);
    let r = b.handle_vote_request(VoteRequest { term: 3, candidate_id: A, last_log_index: 5, last_log_term: 1 }, 5);
    assert!(!r.vote_granted);
    assert_eq!(r.term, 3);
    assert_eq!(b.voted_for, None);
}

#[test]
fn quorum_counts() {
    assert_eq!(majority_of(3), 2);
    assert_eq!(majority_of(4), 3);
    assert_eq!(count_acked(&vec![A, B, C], &vec![C, 9, A]), 2);
    let m = membership(&[A, B, C]);
    assert!(has_quorum(&m, &vec![A, B]));
    assert!(!has_quorum(&m, &vec![A, 9]));
}

#[test]
fn joint_quorum_needs_both_sets() {
    let m = MembershipConfig { members: vec![A, B, C], members_after_consensus: Some(vec![C, 4, 5]) };
    assert!(!has_quorum(&m, &vec![A, B]));
    assert!(!has_quorum(&m, &vec![4, 5, C]));
    assert!(has_quorum(&m, &vec![4, 5, C, A]));
    assert!(has_quorum(&m, &vec![A, C, 4]));
    assert!(!has_quorum(&m, &vec![4, 5]));
}

#[test]
fn applied_exactly_once() {
    let mut l = ReplicationEventListener::new();
    l.observe_committed(3, 3, 0);
    assert_eq!(l.entries_to_fetch(), Some((1, 3)));
    let mut report = false;
    let batch = l
        .replicate_to_state_machine_if_needed(vec![normal(1, 1, vec![7]), entry(2, 1), normal(3, 1, vec![8, 9])], &mut report)
        .unwrap();
    assert!(report);
    assert_eq!(batch, vec![(1, vec![7]), (3, vec![8, 9])]);
    assert_eq!(l.last_applied, 3);
    assert_eq!(l.entries_to_fetch(), None);
    l.observe_committed(4, 4, 1);
    assert_eq!(l.last_applied, 3);
    assert_eq!(l.entries_to_fetch(), Some((4, 4)));
    let mut report = false;
    let r = l.replicate_to_state_machine_if_needed(vec![normal(3, 1, vec![8, 9])], &mut report);
    assert!(matches!(r, Err(RaftError::InconsistentState)));
    assert!(!report);
    let batch = l.replicate_to_state_machine_if_needed(vec![normal(4, 1, vec![1])], &mut report).unwrap();
    assert_eq!(batch, vec![(4, vec![1])]);
}

#[test]
fn snapshot_chunk_out_of_order() {
    let mut b = node(B, &[A, B], vec![], 10);
    let chunk = InstallSnapshotRequest {
        term: 1,
        leader_id: A,
        snapshot_id: String::from("s"),
        last_included_index: 5,
        last_included_term: 1,
        offset: 4,
        data: vec![1],
        done: false,
        membership: membership(&[A, B]),
    };
    let r = b.handle_install_snapshot_request(chunk, 5);
    assert!(matches!(r, Err(RaftError::SnapshotMismatch { expected: 0, received: 4 })));
}

#[test]
fn compaction_trigger() {
    let mut b = node(B, &[A, B, C], vec![entry(1, 1), entry(2, 1), entry(3, 1)], 2);
    assert_eq!(b.trigger_log_compaction_if_needed(), None);
    b.handle_append_entries_request(append(1, (3, 1), vec![], 5), 5).unwrap();
    assert_eq!(b.commit_index, 3);
    assert_eq!(b.trigger_log_compaction_if_needed(), Some(3));
    assert!(matches!(b.snapshot_state, Some(SnapshotState::Snapshotting { through: 3 })));
    assert_eq!(b.trigger_log_compaction_if_needed(), None);
    b.update_snapshot_state(SnapshotUpdate::SnapshotComplete(3));
    assert_eq!(b.snapshot_index, 3);
    assert!(b.snapshot_state.is_none());
    assert_eq!(b.trigger_log_compaction_if_needed(), None);
}

#[test]
fn target_state_and_membership_rules() {
    let mut n = node(C, &[A, B], vec![], 10);
    assert_eq!(n.target_state, State::Follower);
    n.set_target_state(State::Follower);
    assert_eq!(n.target_state, State::NonVoter);
    n.update_membership(membership(&[A, B, C])).unwrap();
    assert_eq!(n.target_state, State::Follower);
    n.update_membership(membership(&[A])).unwrap();
    assert_eq!(n.target_state, State::NonVoter);
    n.update_current_leader(UpdateCurrentLeader::OtherNode(A));
    assert_eq!(n.current_leader, Some(A));
    n.update_current_leader(UpdateCurrentLeader::ThisNode);
    assert_eq!(n.current_leader, Some(C));
    n.update_current_term(4, Some(A));
    n.update_current_term(3, Some(B));
    assert_eq!(n.save_hard_state(), HardState { current_term: 4, voted_for: Some(A) });
    assert_eq!(n.get_next_election_timeout(10), 10);
    assert_eq!(n.get_next_election_timeout(20), 10);
    n.update_next_election_timeout(30);
    assert_eq!(n.get_next_election_timeout(40), 30);
    let m = n.report_metrics();
    assert_eq!((m.id, m.current_term, m.current_leader), (C, 4, Some(C)));
    assert_eq!(m.membership_config.members, vec![A]);
}

#[test]
fn fatal_storage_error_shuts_down() {
    let mut n = node(A, &[A, B], vec![], 10);
    let e = n.map_fatal_storage_error(anyhow::Error::msg("disk gone"));
    assert!(matches!(e, RaftError::RaftStorage(_)));
    assert_eq!(n.target_state, State::Shutdown);
}

#[test]
fn requests_refused_off_leader() {
    let mut n = node(A, &[A, B], vec![entry(1, 1)], 10);
    n.update_current_leader(UpdateCurrentLeader::OtherNode(B));
    assert_eq!(n.reject_init_with_config(), InitializeError::NotAllowed);
    assert_eq!(n.reject_config_change_not_leader(), ChangeConfigError::NodeNotLeader(Some(B)));
    assert_eq!(n.forward_client_read_request(), ClientReadError::ForwardToLeader(Some(B)));
    match n.forward_client_write_request(vec![3]) {
        ClientWriteError::ForwardToLeader(req, hint) => assert_eq!((req, hint), (vec![3], Some(B))),
    }
    assert_eq!(raft_core::roles::NonVoterState::new().handle_init_with_config(&mut n, vec![A]), Err(InitializeError::NotAllowed));
}

#[test]
fn membership_change_refusals_and_reads() {
    let mut a = node(A, &[A], vec![entry(1, 1)], 10);
    let mut leader = LeaderState::new(&a);
    let (_, blank) = leader.begin(&mut a).unwrap();
    assert!(matches!(leader.change_membership(&mut a, vec![A, B]).unwrap(), ChangeStep::Rejected(ChangeConfigError::NotAllowed)));
    assert_eq!(leader.handle_update_match_index(&mut a, A, blank, 1), Some(blank));
    assert!(matches!(leader.change_membership(&mut a, vec![]).unwrap(), ChangeStep::Rejected(ChangeConfigError::InoperableConfig)));
    leader.consensus_state = raft_core::ConsensusState::Joint { is_committed: false };
    assert!(matches!(leader.change_membership(&mut a, vec![A, B]).unwrap(), ChangeStep::Rejected(ChangeConfigError::NotAllowed)));
    assert_eq!(leader.add_member(B), Ok(()));
    assert_eq!(leader.add_member(B), Err(ChangeConfigError::Noop));
    assert_eq!(leader.confirm_read(&a, &vec![]), Ok(a.commit_index));
    a.membership = membership(&[A, B, C]);
    assert_eq!(leader.confirm_read(&a, &vec![]), Err(ClientReadError::QuorumLost));
    assert_eq!(leader.confirm_read(&a, &vec![C]), Ok(a.commit_index));
}

#[test]
fn candidate_needs_both_sets_in_joint_consensus() {
    let mut a = node(A, &[A, B, C], vec![], 10);
    a.membership = MembershipConfig { members: vec![A, B, C], members_after_consensus: Some(vec![A, 4, 5]) };
    a.handle_election_timeout();
    let mut cand = raft_core::roles::CandidateState::new();
    cand.start_term(&mut a, 1);
    cand.handle_vote_response(&mut a, raft_core::VoteResponse { term: 1, vote_granted: true }, B);
    assert_eq!(a.target_state, State::Candidate);
    cand.handle_vote_response(&mut a, raft_core::VoteResponse { term: 1, vote_granted: true }, B);
    cand.handle_vote_response(&mut a, raft_core::VoteResponse { term: 1, vote_granted: true }, 4);
    assert_eq!(a.target_state, State::Leader);
}

#[test]
fn commit_callbacks_in_index_order() {
    let a = node(A, &[A], vec![entry(1, 1)], 10);
    let mut leader = LeaderState::new(&a);
    leader.await_commit(2);
    leader.await_commit(3);
    leader.await_commit(5);
    assert_eq!(leader.take_committed(3), vec![2, 3]);
    assert_eq!(leader.awaiting_committed, vec![5]);
    assert_eq!(leader.take_committed(4), Vec::<u64>::new());
    assert_eq!(leader.take_committed(9), vec![5]);
    assert!(leader.awaiting_committed.is_empty());
}

#[test]
fn winner_shares_a_voter_with_every_quorum() {
    let m = membership(&[A, B, C, 4, 5]);
    let voters = vec![A, B, C];
    let holders = vec![C, 4, 5];
    assert!(has_quorum(&m, &voters));
    assert!(has_quorum(&m, &holders));
    assert_eq!(count_acked(&voters, &holders), 1);
}

#[test]
fn initialize_accepts_pristine_log_in_any_term() {
    let mut n = RaftCore::new(A, Config { snapshot_threshold: 10 });
    let state = InitialState {
        hard_state: HardState { current_term: 5, voted_for: None },
        last_log_index: 0,
        last_log_term: 0,
        last_applied_log: 0,
        membership: membership(&[A]),
    };
    n.load_initial_state(state, None, vec![]).unwrap();
    assert_eq!(n.target_state, State::NonVoter);
    raft_core::roles::NonVoterState::new().handle_init_with_config(&mut n, vec![A]).unwrap();
    assert_eq!(n.target_state, State::Leader);
    assert_eq!(n.current_term, 6);
    assert_eq!(n.voted_for, Some(A));
}

#[test]
fn initialize_with_peers_follows() {
    let mut n = RaftCore::new(A, Config { snapshot_threshold: 10 });
    let state = InitialState {
        hard_state: HardState { current_term: 3, voted_for: None },
        last_log_index: 0,
        last_log_term: 0,
        last_applied_log: 0,
        membership: membership(&[A]),
    };
    n.load_initial_state(state, None, vec![]).unwrap();
    raft_core::roles::NonVoterState::new().handle_init_with_config(&mut n, vec![A, B]).unwrap();
    assert_eq!(n.target_state, State::Follower);
    assert_eq!(n.current_term, 3);
    assert_eq!(n.membership.members, vec![A, B]);
}

#[test]
fn joint_membership_with_a_peer_seeds_follower() {
    let mut n = RaftCore::new(A, Config { snapshot_threshold: 10 });
    let state = InitialState {
        hard_state: HardState { current_term: 1, voted_for: None },
        last_log_index: 1,
        last_log_term: 1,
        last_applied_log: 0,
        membership: MembershipConfig { members: vec![A], members_after_consensus: Some(vec![A, B]) },
    };
    n.load_initial_state(state, None, vec![entry(1, 1)]).unwrap();
    assert_eq!(n.target_state, State::Follower);
}

#[test]
fn duplicate_members_count_once() {
    let m = membership(&[A, A, B]);
    assert!(!has_quorum(&m, &vec![A]));
    assert!(has_quorum(&m, &vec![A, B]));
    assert_eq!(count_acked(&vec![A, A, B], &vec![A]), 1);
}
