//! Properties that relate several steps of the protocol, proved over the contracts' models.
use vstd::prelude::*;
use crate::apply::{after_apply, after_observe, fetch_range, fetched_ok, ReplicationEventListener};
use crate::quorum::{joint_quorum, lemma_quorums_intersect, quorum_in};
use crate::rpc::{divergence, lemma_divergence_bounds, grants_vote, log_up_to_date, merged, term_after_vote, voted_after_vote};
use crate::consensus::{has_node_record, kept_members};
use crate::leader::{drivers_cover, ReplicationState};
use crate::node::RaftCore;
use crate::types::{Entry, MembershipConfig, NodeId, VoteRequest};

verus! {

/// When the final configuration commits, dropping the records of nodes it no longer names
/// leaves exactly one record per other node of it, provided every other node it names had a
/// record and none was kept for the leader itself.
pub proof fn lemma_kept_records_cover(nodes: Seq<ReplicationState>, kept: Seq<ReplicationState>, core: RaftCore)
    requires
        kept_members(nodes, kept, core.membership),
        forall|x: NodeId| #[trigger] core.membership.has_node(x) && x != core.id ==> has_node_record(nodes, x),
        !has_node_record(nodes, core.id),
    ensures
        drivers_cover(kept, core),
{
    assert forall|x: NodeId| (exists|k: int| 0 <= k < kept.len() && (#[trigger] kept[k]).target == x)
        <==> (core.membership.has_node(x) && x != core.id) by {
        if exists|k: int| 0 <= k < kept.len() && (#[trigger] kept[k]).target == x {
            let k = choose|k: int| 0 <= k < kept.len() && (#[trigger] kept[k]).target == x;
            assert(core.membership.has_node(kept[k].target));
            let j = choose|j: int| 0 <= j < nodes.len() && nodes[j] == kept[k];
            assert(nodes[j].target == x);
        }
        if core.membership.has_node(x) && x != core.id {
            assert(has_node_record(nodes, x));
            let j = choose|j: int| 0 <= j < nodes.len() && (#[trigger] nodes[j]).target == x;
            assert(core.membership.has_node(nodes[j].target));
            let k = choose|k: int| 0 <= k < kept.len() && kept[k] == nodes[j];
            assert(kept[k].target == x);
        }
    }
}

proof fn lemma_all_present(log: Seq<Entry>, off: int, new: Seq<Entry>, from: int)
    requires
        0 <= from <= new.len(),
        forall|j: int| from <= j < new.len() ==> off + j < log.len() && log[off + j].term == (#[trigger] new[j]).term,
    ensures
        divergence(log, off, new, from) == new.len(),
    decreases new.len() - from,
{
    if from < new.len() {
        assert(off + from < log.len() && log[off + from].term == new[from].term);
        lemma_all_present(log, off, new, from + 1);
    }
}

/// AppendEntries is idempotent: taking in the same entries at the same place a second time
/// leaves the log as the first time did.
pub proof fn lemma_append_entries_idempotent(log: Seq<Entry>, off: int, new: Seq<Entry>)
    requires
        0 <= off <= log.len(),
    ensures
        merged(merged(log, off, new), off, new) == merged(log, off, new),
{
    lemma_divergence_bounds(log, off, new, 0);
    let d = divergence(log, off, new, 0);
    let m = merged(log, off, new);
    if d == new.len() {
        assert(m == log);
    } else {
        if d > 0 {
            assert(off + (d - 1) < log.len() && log[off + (d - 1)].term == new[d - 1].term);
        }
        let t = log.take(off + d);
        let sk = new.skip(d);
        assert(m == t + sk);
        assert forall|j: int| 0 <= j < new.len() implies off + j < m.len() && m[off + j].term == (#[trigger] new[j]).term by {
            if j < d {
                assert(off + j < log.len() && log[off + j].term == new[j].term);
                assert(m[off + j] == t[off + j]);
            } else {
                assert(m[off + j] == sk[j - d]);
            }
        }
        lemma_all_present(m, off, new, 0);
    }
}

/// The commit index a follower takes from a leader's `leader_commit`, with its log ending at
/// `last`.
pub open spec fn followed_commit(commit: u64, leader_commit: u64, last: u64) -> u64 {
    if leader_commit > commit {
        if leader_commit <= last { leader_commit } else { last }
    } else {
        commit
    }
}

/// Following the same leader commit index twice, over the same log, changes nothing more.
pub proof fn lemma_followed_commit_idempotent(commit: u64, leader_commit: u64, last: u64)
    requires
        commit <= last,
    ensures
        followed_commit(followed_commit(commit, leader_commit, last), leader_commit, last)
            == followed_commit(commit, leader_commit, last),
{
}

/// Taking in entries never changes an entry at or below the commit index unless it cuts
/// there, which the handler refuses as fatal: committed entries stay as they are.
pub proof fn lemma_committed_entries_kept(log: Seq<Entry>, start: u64, commit: u64, prev: u64, new: Seq<Entry>)
    requires
        start <= prev <= start + log.len(),
        commit <= start + log.len(),
        ({
            let off = prev - start;
            let d = divergence(log, off, new, 0);
            !(d < new.len() && off + d < log.len() && prev + 1 + d <= commit)
        }),
    ensures
        forall|p: int| 0 <= p < commit - start ==> #[trigger] merged(log, prev - start, new)[p] == log[p],
{
    let off = prev - start;
    lemma_divergence_bounds(log, off, new, 0);
    let d = divergence(log, off, new, 0);
    if d < new.len() {
        if d > 0 {
            assert(off + (d - 1) < log.len() && log[off + (d - 1)].term == new[d - 1].term);
        }
        let t = log.take(off + d);
        assert forall|p: int| 0 <= p < commit - start implies #[trigger] merged(log, prev - start, new)[p] == log[p] by {
            assert(p < off + d);
            assert(merged(log, off, new)[p] == t[p]);
        }
    }
}

/// A node grants at most one vote per term: once it granted `r1`, a request of the same term
/// is granted only to the same candidate, whatever its log has become meanwhile.
pub proof fn lemma_one_vote_per_term(
    term: u64,
    voted: Option<NodeId>,
    last_term: u64,
    last_index: u64,
    r1: VoteRequest,
    last_term2: u64,
    last_index2: u64,
    r2: VoteRequest,
)
    requires
        grants_vote(term, voted, last_term, last_index, r1),
        grants_vote(
            term_after_vote(term, r1),
            voted_after_vote(term, voted, last_term, last_index, r1),
            last_term2,
            last_index2,
            r2,
        ),
        r2.term == r1.term,
    ensures
        r2.candidate_id == r1.candidate_id,
{
}

/// At most one leader per term: when every voter casts a single ballot in a term (`ballot`
/// maps each voter to its candidate), two candidates that each gathered a quorum of the same
/// membership are the same node.
pub proof fn lemma_one_leader_per_term(
    m: MembershipConfig,
    ballot: Map<NodeId, NodeId>,
    votes_a: Set<NodeId>,
    cand_a: NodeId,
    votes_b: Set<NodeId>,
    cand_b: NodeId,
)
    requires
        joint_quorum(m, votes_a),
        joint_quorum(m, votes_b),
        forall|v: NodeId| #[trigger] votes_a.contains(v) ==> ballot.contains_key(v) && ballot[v] == cand_a,
        forall|v: NodeId| #[trigger] votes_b.contains(v) ==> ballot.contains_key(v) && ballot[v] == cand_b,
    ensures
        cand_a == cand_b,
{
    lemma_quorums_intersect(m.members@, votes_a, votes_b);
    let x = choose|x: NodeId| m.members@.contains(x) && votes_a.contains(x) && votes_b.contains(x);
    assert(ballot[x] == cand_a);
}

/// A candidate that won a quorum of votes, each granted only to a log at least as up to
/// date as the voter's, has a log at least as up to date as some node of any other quorum of
/// the same membership: in particular as one of the nodes holding any committed entry.
pub proof fn lemma_winner_up_to_date_with_some_holder(
    m: MembershipConfig,
    voters: Set<NodeId>,
    holders: Set<NodeId>,
    last: Map<NodeId, (u64, u64)>,
    req: VoteRequest,
)
    requires
        joint_quorum(m, voters),
        joint_quorum(m, holders),
        forall|v: NodeId| #[trigger] voters.contains(v) ==> last.contains_key(v) && log_up_to_date(req, last[v].0, last[v].1),
    ensures
        exists|x: NodeId| holders.contains(x) && last.contains_key(x) && log_up_to_date(req, last[x].0, last[x].1),
{
    lemma_quorums_intersect(m.members@, voters, holders);
    let x = choose|x: NodeId| m.members@.contains(x) && voters.contains(x) && holders.contains(x);
    assert(holders.contains(x) && last.contains_key(x) && log_up_to_date(req, last[x].0, last[x].1));
}

/// In joint consensus a commit or an election needs a majority of the old set and a
/// majority of the new set.
pub proof fn lemma_joint_needs_both(m: MembershipConfig, acked: Set<NodeId>)
    requires
        m.members_after_consensus is Some,
        joint_quorum(m, acked),
    ensures
        quorum_in(m.members@, acked),
        quorum_in(m.members_after_consensus->0@, acked),
{
}

/// Applying never passes the commit index: from a listener with nothing applied beyond
/// it, applying a due run of entries keeps `last_applied <= commit_index`.
pub proof fn lemma_apply_within_commit(l: ReplicationEventListener, fetched: Seq<Entry>)
    requires
        l.last_applied <= l.commit_index,
        fetched_ok(l, fetched),
    ensures
        after_apply(l, fetched).last_applied <= after_apply(l, fetched).commit_index,
        after_apply(l, fetched).last_applied <= l.last_applied + fetched.len(),
{
    if fetched.len() > 0 {
        assert(fetched[fetched.len() - 1].index == l.last_applied + 1 + (fetched.len() - 1));
    }
}

/// A committed entry is applied once: after one run is applied, and whatever the listener
/// learns next, every index of the next run lies beyond every index of the first, and the
/// next run starts right after the last index applied.
pub proof fn lemma_applied_once(
    l: ReplicationEventListener,
    first: Seq<Entry>,
    commit_index: u64,
    last_log_index: u64,
    last_applied: u64,
    second: Seq<Entry>,
)
    requires
        fetched_ok(l, first),
        fetched_ok(after_observe(after_apply(l, first), commit_index, last_log_index, last_applied), second),
    ensures
        forall|i: int, j: int| 0 <= i < first.len() && 0 <= j < second.len() ==> #[trigger] first[i].index < #[trigger] second[j].index,
        second.len() > 0 ==> second[0].index == after_observe(after_apply(l, first), commit_index, last_log_index, last_applied).last_applied + 1,
{
    let l2 = after_observe(after_apply(l, first), commit_index, last_log_index, last_applied);
    assert forall|i: int, j: int| 0 <= i < first.len() && 0 <= j < second.len() implies #[trigger] first[i].index < #[trigger] second[j].index by {
        assert(first[first.len() - 1].index == l.last_applied + 1 + (first.len() - 1));
        assert(first[i].index == l.last_applied + 1 + i);
        assert(second[j].index == l2.last_applied + 1 + j);
    }
    if second.len() > 0 {
        assert(second[0].index == l2.last_applied + 1 + 0);
    }
}

/// Applying the due run of a log committed and ending at `i` leaves the apply pipeline at
/// `i` applied, committed and last, with nothing more to fetch.
pub proof fn lemma_replay_reaches_snapshot_view(l: ReplicationEventListener, prefix: Seq<Entry>, i: u64)
    requires
        l.last_applied < i,
        l.commit_index == i,
        l.last_log_index == i,
        fetched_ok(l, prefix),
        prefix.len() > 0,
        prefix.last().index == i,
    ensures
        after_apply(l, prefix) == (ReplicationEventListener { last_applied: i, last_log_index: i, commit_index: i }),
        fetch_range(after_apply(l, prefix)) is None,
        fetch_range(ReplicationEventListener { last_applied: i, last_log_index: i, commit_index: i }) is None,
{
}

} // verus!
