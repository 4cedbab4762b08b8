use raft_core::replication::{next_chunk, DriverAction, ReplicaEvent, ReplicationDriver};
use raft_core::{AppendEntriesResponse, InstallSnapshotResponse, Config, ConflictOpt, Entry, EntryPayload, HardState, InitialState, MembershipConfig, RaftCore};

fn leader_with_log(snapshot: Option<(u64, u64)>, terms: &[u64]) -> RaftCore {
    let mut core = RaftCore::new(1, Config { snapshot_threshold: 100 });
    let (start, start_term) = snapshot.unwrap_or((0, 0));
    let entries: Vec<Entry> = terms
        .iter()
        .enumerate()
        .map(|(k, t)| Entry { index: start + 1 + k as u64, term: *t, payload: EntryPayload::Blank })
        .collect();
    let last_log_term = terms.last().copied().unwrap_or(start_term);
    let state = InitialState {
        hard_state: HardState { current_term: last_log_term, voted_for: None },
        last_log_index: start + terms.len() as u64,
        last_log_term,
        last_applied_log: 0,
        membership: MembershipConfig { members: vec![1, 2, 3], members_after_consensus: None },
    };
    core.load_initial_state(state, snapshot, entries).unwrap();
    core
}

#[test]
fn driver_starts_after_leader_log() {
    let core = leader_with_log(None, &[1, 1, 2]);
    let d = ReplicationDriver::new(2, core.last_log_index);
    assert_eq!(d.next_index, 4);
    assert_eq!(d.match_index, 0);
    assert_eq!(d.next_action(&core, 10), DriverAction::SendAppend { prev_log_index: 3, prev_log_term: 2, from: 4, to: 4 });
}

#[test]
fn driver_batches_and_backs_off() {
    let core = leader_with_log(None, &[1, 1, 2, 2, 3]);
    let mut d = ReplicationDriver::new(2, core.last_log_index);
    let ev = d.handle_append_response(3, 5, 5, 0, 3, AppendEntriesResponse { term: 3, success: false, conflict_opt: None });
    assert_eq!(ev, Some(ReplicaEvent::RateUpdate { target: 2, is_line_rate: false }));
    assert_eq!(d.next_index, 5);
    let hint = Some(ConflictOpt { term: 1, index: 1 });
    d.handle_append_response(3, 5, 4, 0, 3, AppendEntriesResponse { term: 3, success: false, conflict_opt: hint });
    assert_eq!(d.next_index, 2);
    assert_eq!(d.next_action(&core, 2), DriverAction::SendAppend { prev_log_index: 1, prev_log_term: 1, from: 2, to: 4 });
    let ev = d.handle_append_response(3, 5, 1, 2, 2, AppendEntriesResponse { term: 3, success: true, conflict_opt: None });
    assert_eq!(ev, Some(ReplicaEvent::UpdateMatchIndex { target: 2, match_index: 3, match_term: 2, is_line_rate: false }));
    assert_eq!(d.next_index, 4);
    let ev = d.handle_append_response(3, 5, 3, 2, 3, AppendEntriesResponse { term: 3, success: true, conflict_opt: None });
    assert_eq!(ev, Some(ReplicaEvent::UpdateMatchIndex { target: 2, match_index: 5, match_term: 3, is_line_rate: true }));
    let stale = d.handle_append_response(3, 5, 1, 1, 1, AppendEntriesResponse { term: 3, success: true, conflict_opt: None });
    assert_eq!(stale, Some(ReplicaEvent::UpdateMatchIndex { target: 2, match_index: 5, match_term: 3, is_line_rate: true }));
}

#[test]
fn driver_reverts_on_higher_term() {
    let mut d = ReplicationDriver::new(3, 0);
    let ev = d.handle_append_response(2, 0, 0, 0, 0, AppendEntriesResponse { term: 7, success: false, conflict_opt: None });
    assert_eq!(ev, Some(ReplicaEvent::RevertToFollower { target: 3, term: 7 }));
    assert_eq!(d.next_index, 1);
}

#[test]
fn driver_switches_to_snapshot() {
    let core = leader_with_log(Some((50, 4)), &[5]);
    let mut d = ReplicationDriver::new(2, core.last_log_index);
    d.next_index = 11;
    assert_eq!(d.next_action(&core, 10), DriverAction::SendSnapshot);
    let ev = d.handle_snapshot_installed(50, 4);
    assert_eq!(ev, ReplicaEvent::UpdateMatchIndex { target: 2, match_index: 50, match_term: 4, is_line_rate: false });
    assert_eq!(d.next_index, 51);
    assert_eq!(d.next_action(&core, 10), DriverAction::SendAppend { prev_log_index: 50, prev_log_term: 4, from: 51, to: 52 });
}

#[test]
fn driver_asks_for_snapshot_and_handles_reply() {
    let core = leader_with_log(Some((50, 4)), &[5]);
    let mut d = ReplicationDriver::new(2, core.last_log_index);
    assert_eq!(d.needs_snapshot(&core), None);
    d.next_index = 11;
    assert_eq!(d.needs_snapshot(&core), Some(ReplicaEvent::NeedsSnapshot { target: 2, through: 50 }));
    let ev = d.handle_snapshot_response(5, 50, 4, InstallSnapshotResponse { term: 9 });
    assert_eq!(ev, ReplicaEvent::RevertToFollower { target: 2, term: 9 });
    assert_eq!(d.next_index, 11);
    let ev = d.handle_snapshot_response(5, 50, 4, InstallSnapshotResponse { term: 5 });
    assert_eq!(ev, ReplicaEvent::UpdateMatchIndex { target: 2, match_index: 50, match_term: 4, is_line_rate: false });
    assert_eq!(d.next_index, 51);
}

#[test]
fn snapshot_chunks() {
    assert_eq!(next_chunk(10, 4, 0), (4, false));
    assert_eq!(next_chunk(10, 4, 4), (8, false));
    assert_eq!(next_chunk(10, 4, 8), (10, true));
    assert_eq!(next_chunk(0, 4, 0), (0, true));
}
