use vstd::prelude::*;

verus! {

/// The identity of a node in the cluster.
pub type NodeId = u64;

/// Relies on anyhow::Error: an opaque error value handed up by storage.
#[verifier::external_type_specification]
#[verifier::external_body]
pub struct ExAnyhowError(anyhow::Error);

/// All possible states of a Raft node.
#[derive(Clone, Copy, Debug, PartialEq, Eq, Structural)]
pub enum State {
    /// The node is completely passive; replicating entries, but neither voting nor timing out.
    NonVoter,
    /// The node is replicating logs from the leader.
    Follower,
    /// The node is campaigning to become the cluster leader.
    Candidate,
    /// The node is the Raft cluster leader.
    Leader,
    /// The Raft node is shutting down.
    Shutdown,
}

impl State {
    /// Check if currently in non-voter state.
    pub fn is_non_voter(&self) -> (r: bool)
        ensures
            r == (*self == State::NonVoter),
    {
        matches!(self, State::NonVoter)
    }

    /// Check if currently in follower state.
    pub fn is_follower(&self) -> (r: bool)
        ensures
            r == (*self == State::Follower),
    {
        matches!(self, State::Follower)
    }

    /// Check if currently in candidate state.
    pub fn is_candidate(&self) -> (r: bool)
        ensures
            r == (*self == State::Candidate),
    {
        matches!(self, State::Candidate)
    }

    /// Check if currently in leader state.
    pub fn is_leader(&self) -> (r: bool)
        ensures
            r == (*self == State::Leader),
    {
        matches!(self, State::Leader)
    }
}

/// A cluster membership configuration.
///
/// When `members_after_consensus` is present the cluster is in joint consensus, and every
/// quorum must be reached in both sets.
#[derive(Debug)]
pub struct MembershipConfig {
    pub members: Vec<NodeId>,
    pub members_after_consensus: Option<Vec<NodeId>>,
}

impl MembershipConfig {
    /// The node is listed in the current set.
    pub open spec fn in_members(&self, id: NodeId) -> bool {
        self.members@.contains(id)
    }

    /// The node is listed in the set after consensus, if there is one.
    pub open spec fn in_after(&self, id: NodeId) -> bool {
        match self.members_after_consensus {
            Some(v) => v@.contains(id),
            None => false,
        }
    }

    /// The node belongs to either set.
    pub open spec fn has_node(&self, id: NodeId) -> bool {
        self.in_members(id) || self.in_after(id)
    }

    /// The two configurations list the same nodes in the same order.
    pub open spec fn same_as(&self, other: MembershipConfig) -> bool {
        &&& self.members@ == other.members@
        &&& match (self.members_after_consensus, other.members_after_consensus) {
            (Some(a), Some(b)) => a@ == b@,
            (None, None) => true,
            _ => false,
        }
    }

    /// Both sets name this node and no other.
    pub open spec fn only_node(&self, id: NodeId) -> bool {
        forall|x: NodeId| self.has_node(x) <==> x == id
    }

    /// Whether both sets name this node and no other.
    pub fn is_only_member(&self, id: NodeId) -> (r: bool)
        ensures
            r == self.only_node(id),
    {
        let all = self.all_nodes();
        let r = all.len() == 1 && all[0] == id;
        proof {
            if r {
                assert(all@ =~= seq![id]);
                assert forall|x: NodeId| self.has_node(x) <==> x == id by {
                    assert(all@.contains(x) <==> x == id) by {
                        if x == id {
                            assert(all@[0] == x);
                        }
                    }
                }
            } else if self.only_node(id) {
                assert(self.has_node(id) <==> id == id);
                assert(all@.contains(id));
                let k = choose|k: int| 0 <= k < all@.len() && all@[k] == id;
                assert(all@.contains(all@[0]));
                assert(self.has_node(all@[0]) <==> all@[0] == id);
                if all@.len() > 1 {
                    assert(all@.contains(all@[1]));
                    assert(self.has_node(all@[1]) <==> all@[1] == id);
                    assert(false);
                }
            }
        }
        r
    }

    /// A configuration with this node alone.
    pub fn new_initial(id: NodeId) -> (r: MembershipConfig)
        ensures
            r.members@ == seq![id],
            r.members_after_consensus.is_none(),
    {
        let mut members: Vec<NodeId> = Vec::new();
        members.push(id);
        MembershipConfig { members, members_after_consensus: None }
    }

    /// Whether the configuration is in joint consensus.
    pub fn is_in_joint_consensus(&self) -> (r: bool)
        ensures
            r == self.members_after_consensus.is_some(),
    {
        self.members_after_consensus.is_some()
    }

    /// Whether the node is a member of either set.
    pub fn contains(&self, id: &NodeId) -> (r: bool)
        ensures
            r == self.has_node(*id),
    {
        if vec_contains(&self.members, *id) {
            return true;
        }
        match &self.members_after_consensus {
            Some(v) => vec_contains(v, *id),
            None => false,
        }
    }

    /// Every node of both sets, each listed once.
    pub fn all_nodes(&self) -> (r: Vec<NodeId>)
        ensures
            r@.no_duplicates(),
            forall|x: NodeId| r@.contains(x) <==> self.has_node(x),
    {
        proof {
            assert(Seq::<NodeId>::empty().no_duplicates());
        }
        let mut r: Vec<NodeId> = Vec::new();
        add_unique(&mut r, &self.members);
        assert forall|x: NodeId| r@.contains(x) <==> self.in_members(x) by {
            assert(!Seq::<NodeId>::empty().contains(x));
        }
        let ghost first = r@;
        match &self.members_after_consensus {
            Some(v) => {
                add_unique(&mut r, v);
                assert forall|x: NodeId| r@.contains(x) <==> self.has_node(x) by {
                    assert(r@.contains(x) <==> (first.contains(x) || v@.contains(x)));
                }
            },
            None => {
                assert forall|x: NodeId| r@.contains(x) <==> self.has_node(x) by {
                    assert(!self.in_after(x));
                }
            },
        }
        r
    }

    /// A copy of this configuration.
    pub fn duplicate(&self) -> (r: MembershipConfig)
        ensures
            r.same_as(*self),
    {
        let members = copy_ids(&self.members);
        let after = match &self.members_after_consensus {
            Some(v) => Some(copy_ids(v)),
            None => None,
        };
        MembershipConfig { members, members_after_consensus: after }
    }
}

/// `v` names `id` and no other node.
pub open spec fn names_only(v: Seq<NodeId>, id: NodeId) -> bool {
    forall|x: NodeId| v.contains(x) <==> x == id
}

/// Whether `v` names `id` and no other node.
pub fn vec_names_only(v: &Vec<NodeId>, id: NodeId) -> (r: bool)
    ensures
        r == names_only(v@, id),
{
    if v.len() == 0 {
        proof {
            if names_only(v@, id) {
                assert(v@.contains(id));
            }
        }
        return false;
    }
    let mut i: usize = 0;
    while i < v.len()
        invariant
            i <= v@.len(),
            forall|k: int| 0 <= k < i ==> v@[k] == id,
        decreases v@.len() - i,
    {
        if v[i] != id {
            proof {
                assert(v@.contains(v@[i as int]));
            }
            return false;
        }
        i = i + 1;
    }
    proof {
        assert forall|x: NodeId| v@.contains(x) <==> x == id by {
            if x == id {
                assert(v@[0] == id);
            }
        }
    }
    true
}

/// Whether `x` occurs in `v`.
pub fn vec_contains(v: &Vec<NodeId>, x: NodeId) -> (r: bool)
    ensures
        r == v@.contains(x),
{
    let mut i: usize = 0;
    while i < v.len()
        invariant
            i <= v.len(),
            forall|j: int| 0 <= j < i ==> v@[j] != x,
        decreases v.len() - i,
    {
        if v[i] == x {
            return true;
        }
        i = i + 1;
    }
    false
}

/// Appends to `r` each element of `src` that it does not hold yet.
fn add_unique(r: &mut Vec<NodeId>, src: &Vec<NodeId>)
    requires
        old(r)@.no_duplicates(),
    ensures
        final(r)@.no_duplicates(),
        forall|x: NodeId| #[trigger] final(r)@.contains(x) <==> (old(r)@.contains(x) || src@.contains(x)),
{
    let mut i: usize = 0;
    while i < src.len()
        invariant
            i <= src.len(),
            r@.no_duplicates(),
            forall|x: NodeId| r@.contains(x) <==> (old(r)@.contains(x) || src@.subrange(0, i as int).contains(x)),
        decreases src.len() - i,
    {
        let x = src[i];
        let ghost before = r@;
        if !vec_contains(r, x) {
            r.push(x);
            assert(r@ == before.push(x));
            assert forall|y: NodeId| r@.contains(y) <==> (before.contains(y) || y == x) by {
                if r@.contains(y) && y != x {
                    let k = choose|k: int| 0 <= k < r@.len() && r@[k] == y;
                    assert(before[k] == y);
                }
                if y == x {
                    assert(r@[before.len() as int] == x);
                }
                if before.contains(y) {
                    let k = choose|k: int| 0 <= k < before.len() && before[k] == y;
                    assert(r@[k] == y);
                }
            }
        }
        assert(src@.subrange(0, i + 1) == src@.subrange(0, i as int).push(x));
        assert forall|y: NodeId| src@.subrange(0, i + 1).contains(y) <==> (src@.subrange(0, i as int).contains(y) || y == x) by {
            let a = src@.subrange(0, i as int);
            let b = src@.subrange(0, i + 1);
            if b.contains(y) && y != x {
                let k = choose|k: int| 0 <= k < b.len() && b[k] == y;
                assert(a[k] == y);
            }
            if y == x {
                assert(b[i as int] == x);
            }
            if a.contains(y) {
                let k = choose|k: int| 0 <= k < a.len() && a[k] == y;
                assert(b[k] == y);
            }
        }
        assert forall|y: NodeId| r@.contains(y) <==> (old(r)@.contains(y) || src@.subrange(0, i + 1).contains(y)) by {
            assert(before.contains(y) <==> (old(r)@.contains(y) || src@.subrange(0, i as int).contains(y)));
            assert(src@.subrange(0, i + 1).contains(y) <==> (src@.subrange(0, i as int).contains(y) || y == x));
        }
        i = i + 1;
    }
    assert(src@.subrange(0, src.len() as int) == src@);
}

/// A copy of a list of node ids.
pub fn copy_ids(v: &Vec<NodeId>) -> (r: Vec<NodeId>)
    ensures
        r@ == v@,
{
    let mut r: Vec<NodeId> = Vec::new();
    let mut i: usize = 0;
    while i < v.len()
        invariant
            i <= v.len(),
            r@ == v@.subrange(0, i as int),
        decreases v.len() - i,
    {
        r.push(v[i]);
        assert(v@.subrange(0, i + 1) == v@.subrange(0, i as int).push(v@[i as int]));
        i = i + 1;
    }
    assert(r@ == v@);
    r
}

/// A copy of a byte string.
pub fn copy_bytes(v: &Vec<u8>) -> (r: Vec<u8>)
    ensures
        r@ == v@,
{
    let mut r: Vec<u8> = Vec::new();
    let mut i: usize = 0;
    while i < v.len()
        invariant
            i <= v.len(),
            r@ == v@.subrange(0, i as int),
        decreases v.len() - i,
    {
        r.push(v[i]);
        assert(v@.subrange(0, i + 1) == v@.subrange(0, i as int).push(v@[i as int]));
        i = i + 1;
    }
    assert(r@ == v@);
    r
}

/// What a log entry carries.
#[derive(Debug)]
pub enum EntryPayload {
    /// An empty entry a new leader appends to commit its term.
    Blank,
    /// An application payload, as bytes.
    Normal(Vec<u8>),
    /// A new membership configuration.
    ConfigChange(MembershipConfig),
    /// The boundary of a compacted prefix of the log.
    SnapshotPointer,
}

/// An entry of the replicated log.
#[derive(Debug)]
pub struct Entry {
    pub index: u64,
    pub term: u64,
    pub payload: EntryPayload,
}

/// `a` carries the same payload as `b`.
pub open spec fn same_payload(a: EntryPayload, b: EntryPayload) -> bool {
    match (a, b) {
        (EntryPayload::Blank, EntryPayload::Blank) => true,
        (EntryPayload::Normal(x), EntryPayload::Normal(y)) => x@ == y@,
        (EntryPayload::ConfigChange(c), EntryPayload::ConfigChange(d)) => c.same_as(d),
        (EntryPayload::SnapshotPointer, EntryPayload::SnapshotPointer) => true,
        _ => false,
    }
}

/// `a` is a copy of `b`.
pub open spec fn same_entry(a: Entry, b: Entry) -> bool {
    a.index == b.index && a.term == b.term && same_payload(a.payload, b.payload)
}

/// A copy of an entry.
pub fn copy_entry(e: &Entry) -> (r: Entry)
    ensures
        same_entry(r, *e),
{
    let payload = match &e.payload {
        EntryPayload::Blank => EntryPayload::Blank,
        EntryPayload::Normal(d) => EntryPayload::Normal(copy_bytes(d)),
        EntryPayload::ConfigChange(c) => EntryPayload::ConfigChange(c.duplicate()),
        EntryPayload::SnapshotPointer => EntryPayload::SnapshotPointer,
    };
    Entry { index: e.index, term: e.term, payload }
}

/// The state that must be durable before a message depending on it is sent.
#[derive(Clone, Copy, Debug, PartialEq, Eq, Structural)]
pub struct HardState {
    pub current_term: u64,
    pub voted_for: Option<NodeId>,
}

/// What storage reports when the node starts.
#[derive(Debug)]
pub struct InitialState {
    pub hard_state: HardState,
    pub last_log_index: u64,
    pub last_log_term: u64,
    pub last_applied_log: u64,
    pub membership: MembershipConfig,
}

/// The node's runtime settings that the core reads.
#[derive(Clone, Copy, Debug, PartialEq, Eq, Structural)]
pub struct Config {
    /// Number of log entries since the last snapshot that triggers a new one.
    pub snapshot_threshold: u64,
}

/// A payload reported to the metrics subscriber.
#[derive(Debug)]
pub struct RaftMetrics {
    pub id: NodeId,
    pub state: State,
    pub current_term: u64,
    pub last_log_index: u64,
    pub last_applied: u64,
    pub current_leader: Option<NodeId>,
    pub membership_config: MembershipConfig,
}

/// How the current leader property is to be updated.
#[derive(Clone, Copy, Debug, PartialEq, Eq, Structural)]
pub enum UpdateCurrentLeader {
    Unknown,
    OtherNode(NodeId),
    ThisNode,
}

/// The current snapshot activity of the node: at most one at a time.
#[derive(Debug)]
pub enum SnapshotState {
    /// The node is compacting its log through the given index.
    Snapshotting { through: u64 },
    /// The node is streaming in a snapshot from the leader.
    Streaming { offset: u64, id: String },
}

/// An update on a snapshot creation process.
#[derive(Clone, Copy, Debug, PartialEq, Eq, Structural)]
pub enum SnapshotUpdate {
    /// Snapshot creation has finished successfully and covers the given index.
    SnapshotComplete(u64),
    /// Snapshot creation failed or was aborted.
    SnapshotFailed,
}

/// The state a leader uses to navigate the joint consensus protocol.
#[derive(Debug)]
pub enum ConsensusState {
    /// A change has been proposed; some of its new nodes are still catching up as non-voters.
    NonVoterSync {
        /// The non-voters still being synced.
        awaiting: Vec<NodeId>,
        /// The full membership proposed.
        members: Vec<NodeId>,
    },
    /// The cluster is in joint consensus.
    Joint {
        /// Whether the entry that began this joint consensus has been committed.
        is_committed: bool,
    },
    /// The cluster is not in joint consensus.
    Uniform,
}

impl ConsensusState {
    /// True exactly when this is joint consensus and its configuration entry is committed.
    pub fn is_joint_consensus_safe_to_finalize(&self) -> (r: bool)
        ensures
            r == (*self == ConsensusState::Joint { is_committed: true }),
    {
        match self {
            ConsensusState::Joint { is_committed } => *is_committed,
            _ => false,
        }
    }
}

/// An error that ends the node's operation.
#[derive(Debug)]
pub enum RaftError {
    /// Storage failed; the node shuts down.
    RaftStorage(anyhow::Error),
    /// Recovered or received state breaks an invariant of the log; the node shuts down.
    InconsistentState,
    /// A snapshot chunk arrived at an offset other than the one expected.
    SnapshotMismatch { expected: u64, received: u64 },
}

/// Errors of the `Initialize` request.
#[derive(Clone, Copy, Debug, PartialEq, Eq, Structural)]
pub enum InitializeError {
    /// The node is not a pristine non-voter.
    NotAllowed,
}

/// Errors of membership change requests.
#[derive(Clone, Copy, Debug, PartialEq, Eq, Structural)]
pub enum ChangeConfigError {
    /// The node is not the leader; the hint names the leader it knows of.
    NodeNotLeader(Option<NodeId>),
    /// A change is already in progress, or the request is not allowed now.
    NotAllowed,
    /// The proposed membership is empty.
    InoperableConfig,
    /// The proposed membership equals the current one.
    Noop,
}

/// Errors of client write requests; the request is handed back.
#[derive(Debug)]
pub enum ClientWriteError {
    ForwardToLeader(Vec<u8>, Option<NodeId>),
}

/// Errors of client read requests.
#[derive(Clone, Copy, Debug, PartialEq, Eq, Structural)]
pub enum ClientReadError {
    ForwardToLeader(Option<NodeId>),
    QuorumLost,
}

/// An AppendEntries request.
#[derive(Debug)]
pub struct AppendEntriesRequest {
    pub term: u64,
    pub leader_id: NodeId,
    pub prev_log_index: u64,
    pub prev_log_term: u64,
    pub entries: Vec<Entry>,
    pub leader_commit: u64,
}

/// A hint from a follower about where its log diverges.
#[derive(Clone, Copy, Debug, PartialEq, Eq, Structural)]
pub struct ConflictOpt {
    pub term: u64,
    pub index: u64,
}

/// An AppendEntries response.
#[derive(Clone, Copy, Debug, PartialEq, Eq, Structural)]
pub struct AppendEntriesResponse {
    pub term: u64,
    pub success: bool,
    pub conflict_opt: Option<ConflictOpt>,
}

/// A RequestVote request.
#[derive(Clone, Copy, Debug, PartialEq, Eq, Structural)]
pub struct VoteRequest {
    pub term: u64,
    pub candidate_id: NodeId,
    pub last_log_index: u64,
    pub last_log_term: u64,
}

/// A RequestVote response.
#[derive(Clone, Copy, Debug, PartialEq, Eq, Structural)]
pub struct VoteResponse {
    pub term: u64,
    pub vote_granted: bool,
}

/// One chunk of an InstallSnapshot stream.
#[derive(Debug)]
pub struct InstallSnapshotRequest {
    pub term: u64,
    pub leader_id: NodeId,
    pub snapshot_id: String,
    pub last_included_index: u64,
    pub last_included_term: u64,
    pub offset: u64,
    pub data: Vec<u8>,
    pub done: bool,
    pub membership: MembershipConfig,
}

/// An InstallSnapshot response.
#[derive(Clone, Copy, Debug, PartialEq, Eq, Structural)]
pub struct InstallSnapshotResponse {
    pub term: u64,
}

} // verus!
