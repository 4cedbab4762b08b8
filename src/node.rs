//! The node's consensus state and the primitives that keep its invariants.
use vstd::prelude::*;
use crate::log::{check_log, last_term, log_ok};
use crate::types::{
    ChangeConfigError, ClientReadError, ClientWriteError, Config, Entry, HardState, InitialState,
    InitializeError, MembershipConfig, NodeId, RaftError, RaftMetrics, SnapshotState, SnapshotUpdate, State,
    UpdateCurrentLeader,
};

verus! {

/// The consensus state of one Raft node.
///
/// The log held here starts right after the compaction boundary `(log_start, log_start_term)`;
/// entry `k` of `log` has index `log_start + 1 + k`. Election deadlines are instants in
/// milliseconds, drawn by the caller.
#[derive(Debug)]
pub struct RaftCore {
    pub id: NodeId,
    pub config: Config,
    pub membership: MembershipConfig,
    pub target_state: State,
    pub commit_index: u64,
    pub last_applied: u64,
    pub current_term: u64,
    pub current_leader: Option<NodeId>,
    pub voted_for: Option<NodeId>,
    pub log_start: u64,
    pub log_start_term: u64,
    pub log: Vec<Entry>,
    pub last_log_index: u64,
    pub last_log_term: u64,
    pub snapshot_state: Option<SnapshotState>,
    pub snapshot_index: u64,
    pub next_election_timeout: Option<u64>,
}

/// The role a node takes when it starts from recovered state: alone in its membership it
/// leads if it has a log and waits as a non-voter if not; with peers it follows.
pub open spec fn initial_role(m: MembershipConfig, id: NodeId, last_log_index: u64) -> State {
    let only = m.only_node(id);
    if only && last_log_index != 0 {
        State::Leader
    } else if !only {
        State::Follower
    } else {
        State::NonVoter
    }
}

/// The role actually taken when `s` is asked for: a follower must be a member.
pub open spec fn coerced_role(m: MembershipConfig, id: NodeId, s: State) -> State {
    if s == State::Follower && !m.has_node(id) {
        State::NonVoter
    } else {
        s
    }
}

/// The snapshot state left after a build reports back: a build ends, a stream-in stays.
pub open spec fn snapshot_state_after_update(s: Option<SnapshotState>) -> Option<SnapshotState> {
    match s {
        Some(SnapshotState::Streaming { offset, id }) => Some(SnapshotState::Streaming { offset, id }),
        _ => None,
    }
}

/// The index a compaction would cover now, if one is due.
pub open spec fn compaction_due(c: RaftCore) -> Option<u64> {
    let through = if c.commit_index <= c.last_log_index { c.commit_index } else { c.last_log_index };
    if c.snapshot_state.is_some() || through == 0 || through < c.snapshot_index
        || through - c.snapshot_index < c.config.snapshot_threshold {
        None
    } else {
        Some(through)
    }
}

/// The recovered log is what storage reported.
pub open spec fn recovered_log_ok(state: InitialState, start: u64, start_term: u64, entries: Seq<Entry>) -> bool {
    &&& log_ok(entries, start, start_term)
    &&& state.last_log_index == start + entries.len()
    &&& state.last_log_term == last_term(entries, start_term)
    &&& state.last_applied_log <= state.last_log_index
}

impl RaftCore {
    /// The invariants of the state: the log's shape, the cached last entry, and
    /// `commit_index` and `last_applied` within the log.
    pub open spec fn wf(&self) -> bool {
        &&& log_ok(self.log@, self.log_start, self.log_start_term)
        &&& self.last_log_index == self.log_start + self.log@.len()
        &&& self.last_log_term == last_term(self.log@, self.log_start_term)
        &&& self.commit_index <= self.last_log_index
        &&& self.last_applied <= self.last_log_index
    }

    /// Nothing is applied that is not committed.
    pub open spec fn applied_within_commit(&self) -> bool {
        self.last_applied <= self.commit_index
    }

    /// A fresh node, before its state is loaded from storage.
    pub fn new(id: NodeId, config: Config) -> (r: RaftCore)
        ensures
            r.wf(),
            r.applied_within_commit(),
            r.id == id,
            r.config == config,
            r.membership.members@ == seq![id],
            r.membership.members_after_consensus.is_none(),
            r.target_state == State::Follower,
            r.commit_index == 0,
            r.last_applied == 0,
            r.current_term == 0,
            r.current_leader.is_none(),
            r.voted_for.is_none(),
            r.log@.len() == 0,
            r.log_start == 0,
            r.log_start_term == 0,
            r.last_log_index == 0,
            r.last_log_term == 0,
            r.snapshot_state.is_none(),
            r.snapshot_index == 0,
            r.next_election_timeout.is_none(),
    {
        RaftCore {
            id,
            config,
            membership: MembershipConfig::new_initial(id),
            target_state: State::Follower,
            commit_index: 0,
            last_applied: 0,
            current_term: 0,
            current_leader: None,
            voted_for: None,
            log_start: 0,
            log_start_term: 0,
            log: Vec::new(),
            last_log_index: 0,
            last_log_term: 0,
            snapshot_state: None,
            snapshot_index: 0,
            next_election_timeout: None,
        }
    }

    /// Loads the state recovered from storage and picks the initial role.
    ///
    /// `snapshot` is the current snapshot's `(index, term)`, if there is one; `entries` are the
    /// log entries that follow it. Recovered state that breaks the log's invariants is fatal.
    /// The commit index starts at zero: the next leader establishes it.
    pub fn load_initial_state(&mut self, state: InitialState, snapshot: Option<(u64, u64)>, entries: Vec<Entry>) -> (r: Result<(), RaftError>)
        requires
            old(self).wf(),
        ensures
            final(self).wf(),
            ({
                let (start, start_term) = match snapshot { Some(p) => p, None => (0u64, 0u64) };
                &&& r.is_ok() == recovered_log_ok(state, start, start_term, entries@)
                &&& r.is_ok() ==> {
                    &&& final(self).log@ == entries@
                    &&& final(self).log_start == start
                    &&& final(self).log_start_term == start_term
                    &&& final(self).snapshot_index == start
                    &&& final(self).last_log_index == state.last_log_index
                    &&& final(self).last_log_term == state.last_log_term
                    &&& final(self).current_term == state.hard_state.current_term
                    &&& final(self).voted_for == state.hard_state.voted_for
                    &&& final(self).last_applied == state.last_applied_log
                    &&& final(self).commit_index == 0
                    &&& final(self).membership == state.membership
                    &&& final(self).target_state == initial_role(state.membership, old(self).id, state.last_log_index)
                    &&& final(self).id == old(self).id
                }
                &&& r.is_err() ==> {
                    &&& r == Err::<(), RaftError>(RaftError::InconsistentState)
                    &&& final(self).target_state == State::Shutdown
                }
            }),
    {
        let (start, start_term) = match snapshot {
            Some(p) => p,
            None => (0u64, 0u64),
        };
        if !check_log(&entries, start, start_term) {
            self.target_state = State::Shutdown;
            return Err(RaftError::InconsistentState);
        }
        let n = entries.len();
        let last_term_here = if n == 0 { start_term } else { entries[n - 1].term };
        if state.last_log_index != start + n as u64 || state.last_log_term != last_term_here
            || state.last_applied_log > state.last_log_index {
            self.target_state = State::Shutdown;
            return Err(RaftError::InconsistentState);
        }
        let only = state.membership.is_only_member(self.id);
        let role = if only && state.last_log_index != 0 {
            State::Leader
        } else if !only {
            State::Follower
        } else {
            State::NonVoter
        };
        self.log = entries;
        self.log_start = start;
        self.log_start_term = start_term;
        self.snapshot_index = start;
        self.last_log_index = state.last_log_index;
        self.last_log_term = state.last_log_term;
        self.current_term = state.hard_state.current_term;
        self.voted_for = state.hard_state.voted_for;
        self.last_applied = state.last_applied_log;
        self.commit_index = 0;
        self.membership = state.membership;
        self.target_state = role;
        Ok(())
    }

    /// The metrics payload describing the node now.
    pub fn report_metrics(&self) -> (r: RaftMetrics)
        ensures
            r.id == self.id,
            r.state == self.target_state,
            r.current_term == self.current_term,
            r.last_log_index == self.last_log_index,
            r.last_applied == self.last_applied,
            r.current_leader == self.current_leader,
            r.membership_config.same_as(self.membership),
    {
        RaftMetrics {
            id: self.id,
            state: self.target_state,
            current_term: self.current_term,
            last_log_index: self.last_log_index,
            last_applied: self.last_applied,
            current_leader: self.current_leader,
            membership_config: self.membership.duplicate(),
        }
    }

    /// The hard state to persist.
    pub fn save_hard_state(&self) -> (r: HardState)
        ensures
            r == (HardState { current_term: self.current_term, voted_for: self.voted_for }),
    {
        HardState { current_term: self.current_term, voted_for: self.voted_for }
    }

    /// Sets the target state; a node outside the membership asked to follow becomes a non-voter.
    pub fn set_target_state(&mut self, target_state: State)
        ensures
            *final(self) == (RaftCore {
                target_state: coerced_role(old(self).membership, old(self).id, target_state),
                ..*old(self)
            }),
    {
        if target_state == State::Follower && !self.membership.contains(&self.id) {
            self.target_state = State::NonVoter;
        } else {
            self.target_state = target_state;
        }
    }

    /// The cached election deadline, or `fresh` (newly drawn by the caller), which is then cached.
    pub fn get_next_election_timeout(&mut self, fresh: u64) -> (r: u64)
        ensures
            match old(self).next_election_timeout {
                Some(t) => r == t && *final(self) == *old(self),
                None => r == fresh && *final(self) == (RaftCore { next_election_timeout: Some(fresh), ..*old(self) }),
            },
    {
        match self.next_election_timeout {
            Some(t) => t,
            None => {
                self.next_election_timeout = Some(fresh);
                fresh
            },
        }
    }

    /// Replaces the election deadline with `fresh`, newly drawn by the caller.
    pub fn update_next_election_timeout(&mut self, fresh: u64)
        ensures
            *final(self) == (RaftCore { next_election_timeout: Some(fresh), ..*old(self) }),
    {
        self.next_election_timeout = Some(fresh);
    }

    /// Updates the current leader hint.
    pub fn update_current_leader(&mut self, update: UpdateCurrentLeader)
        ensures
            *final(self) == (RaftCore {
                current_leader: match update {
                    UpdateCurrentLeader::ThisNode => Some(old(self).id),
                    UpdateCurrentLeader::OtherNode(t) => Some(t),
                    UpdateCurrentLeader::Unknown => None,
                },
                ..*old(self)
            }),
    {
        match update {
            UpdateCurrentLeader::ThisNode => {
                self.current_leader = Some(self.id);
            },
            UpdateCurrentLeader::OtherNode(target) => {
                self.current_leader = Some(target);
            },
            UpdateCurrentLeader::Unknown => {
                self.current_leader = None;
            },
        }
    }

    /// Moves to a higher term together with its vote; a term that is not higher changes nothing.
    pub fn update_current_term(&mut self, new_term: u64, voted_for: Option<NodeId>)
        ensures
            new_term > old(self).current_term ==> *final(self) == (RaftCore {
                current_term: new_term,
                voted_for,
                ..*old(self)
            }),
            new_term <= old(self).current_term ==> *final(self) == *old(self),
    {
        if new_term > self.current_term {
            self.current_term = new_term;
            self.voted_for = voted_for;
        }
    }

    /// A storage failure is fatal: the node shuts down and the error is handed back.
    pub fn map_fatal_storage_error(&mut self, err: anyhow::Error) -> (r: RaftError)
        ensures
            r == RaftError::RaftStorage(err),
            *final(self) == (RaftCore { target_state: State::Shutdown, ..*old(self) }),
    {
        self.set_target_state(State::Shutdown);
        RaftError::RaftStorage(err)
    }

    /// Installs a membership configuration: a node outside it becomes a non-voter, and a
    /// non-voter listed in its current set becomes a follower.
    pub fn update_membership(&mut self, cfg: MembershipConfig) -> (r: Result<(), RaftError>)
        ensures
            r.is_ok(),
            *final(self) == (RaftCore {
                membership: cfg,
                target_state: if !cfg.has_node(old(self).id) {
                    State::NonVoter
                } else if old(self).target_state == State::NonVoter && cfg.in_members(old(self).id) {
                    State::Follower
                } else {
                    old(self).target_state
                },
                ..*old(self)
            }),
    {
        self.membership = cfg;
        if !self.membership.contains(&self.id) {
            self.set_target_state(State::NonVoter);
        } else if self.target_state == State::NonVoter && crate::types::vec_contains(&self.membership.members, self.id) {
            self.set_target_state(State::Follower);
        }
        Ok(())
    }

    /// Takes in the outcome of a snapshot build: a completed one moves the snapshot index;
    /// either way the build is over, while a stream-in stays.
    pub fn update_snapshot_state(&mut self, update: SnapshotUpdate)
        ensures
            *final(self) == (RaftCore {
                snapshot_index: match update {
                    SnapshotUpdate::SnapshotComplete(i) => i,
                    SnapshotUpdate::SnapshotFailed => old(self).snapshot_index,
                },
                snapshot_state: snapshot_state_after_update(old(self).snapshot_state),
                ..*old(self)
            }),
    {
        if let SnapshotUpdate::SnapshotComplete(index) = update {
            self.snapshot_index = index;
        }
        let st = self.snapshot_state.take();
        match st {
            Some(SnapshotState::Streaming { offset, id }) => {
                self.snapshot_state = Some(SnapshotState::Streaming { offset, id });
            },
            _ => {},
        }
    }

    /// Starts a compaction when enough entries are committed since the last snapshot and no
    /// snapshot activity is under way; returns the index the new snapshot must cover.
    pub fn trigger_log_compaction_if_needed(&mut self) -> (r: Option<u64>)
        ensures
            r == compaction_due(*old(self)),
            match r {
                Some(t) => *final(self) == (RaftCore {
                    snapshot_state: Some(SnapshotState::Snapshotting { through: t }),
                    ..*old(self)
                }),
                None => *final(self) == *old(self),
            },
    {
        if self.snapshot_state.is_some() {
            return None;
        }
        let through = if self.commit_index <= self.last_log_index { self.commit_index } else { self.last_log_index };
        if through == 0 {
            return None;
        }
        if through < self.snapshot_index || through - self.snapshot_index < self.config.snapshot_threshold {
            return None;
        }
        self.snapshot_state = Some(SnapshotState::Snapshotting { through });
        Some(through)
    }

    /// The answer to `Initialize` outside the non-voter state.
    pub fn reject_init_with_config(&self) -> (r: InitializeError)
        ensures
            r == InitializeError::NotAllowed,
    {
        InitializeError::NotAllowed
    }

    /// The answer to a membership request on a node that does not lead.
    pub fn reject_config_change_not_leader(&self) -> (r: ChangeConfigError)
        ensures
            r == ChangeConfigError::NodeNotLeader(self.current_leader),
    {
        ChangeConfigError::NodeNotLeader(self.current_leader)
    }

    /// The answer to a client write on a node that does not lead: the request goes back
    /// with the leader hint.
    pub fn forward_client_write_request(&self, req: Vec<u8>) -> (r: ClientWriteError)
        ensures
            r == ClientWriteError::ForwardToLeader(req, self.current_leader),
    {
        ClientWriteError::ForwardToLeader(req, self.current_leader)
    }

    /// The answer to a client read on a node that does not lead.
    pub fn forward_client_read_request(&self) -> (r: ClientReadError)
        ensures
            r == ClientReadError::ForwardToLeader(self.current_leader),
    {
        ClientReadError::ForwardToLeader(self.current_leader)
    }
}

} // verus!
