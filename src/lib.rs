//! The consensus core of a Raft node, as a verified state machine.
//!
//! The node's consensus state lives in [`RaftCore`]; the role drivers' decisions,
//! the RPC handlers, the quorum rules, the apply pipeline and the snapshot
//! coordinator are functions over it. Timers, channels, storage and the
//! network are left to the caller, which hands the library plain values.

pub mod types;
pub mod log;
pub mod quorum;
pub mod node;
pub mod rpc;
pub mod apply;
pub mod roles;
pub mod leader;
pub mod consensus;
pub mod replication;
pub mod laws;

pub use crate::types::{
    AppendEntriesRequest, AppendEntriesResponse, ChangeConfigError, ClientReadError, ClientWriteError,
    Config, ConflictOpt, ConsensusState, Entry, EntryPayload, HardState, InitialState, InitializeError,
    InstallSnapshotRequest, InstallSnapshotResponse, MembershipConfig, NodeId, RaftError, RaftMetrics,
    SnapshotState, SnapshotUpdate, State, UpdateCurrentLeader, VoteRequest, VoteResponse,
};

pub use crate::node::RaftCore;
