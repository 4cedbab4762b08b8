//! Majorities, and the rule that joint consensus needs one in each membership set.
use vstd::prelude::*;
use crate::types::{MembershipConfig, NodeId};

verus! {

/// The last node of `s` does not occur earlier in `s`.
pub open spec fn fresh_last(s: Seq<NodeId>) -> bool {
    !s.drop_last().contains(s.last())
}

/// How many distinct nodes of `s` belong to `acked`.
pub open spec fn count_in(s: Seq<NodeId>, acked: Set<NodeId>) -> nat
    decreases s.len(),
{
    if s.len() == 0 {
        0
    } else {
        count_in(s.drop_last(), acked) + if fresh_last(s) && acked.contains(s.last()) { 1nat } else { 0nat }
    }
}

/// How many distinct nodes `s` lists.
pub open spec fn distinct_len(s: Seq<NodeId>) -> nat
    decreases s.len(),
{
    if s.len() == 0 {
        0
    } else {
        distinct_len(s.drop_last()) + if fresh_last(s) { 1nat } else { 0nat }
    }
}

/// The smallest majority of `n` voters.
pub open spec fn majority(n: nat) -> nat {
    n / 2 + 1
}

/// `acked` holds a majority of the distinct nodes of `s`.
pub open spec fn quorum_in(s: Seq<NodeId>, acked: Set<NodeId>) -> bool {
    count_in(s, acked) >= majority(distinct_len(s))
}

/// `acked` holds a majority of the current set and, in joint consensus, of the new set too.
pub open spec fn joint_quorum(m: MembershipConfig, acked: Set<NodeId>) -> bool {
    &&& quorum_in(m.members@, acked)
    &&& match m.members_after_consensus {
        Some(v) => quorum_in(v@, acked),
        None => true,
    }
}

/// The nodes whose reported match index reaches `index`.
pub open spec fn acked_through(matches: Seq<(NodeId, u64)>, index: u64) -> Set<NodeId> {
    Set::new(|n: NodeId| exists|k: int| 0 <= k < matches.len() && matches[k].0 == n && matches[k].1 >= index)
}

proof fn lemma_count_overlap(s: Seq<NodeId>, a: Set<NodeId>, b: Set<NodeId>)
    ensures
        count_in(s, a) + count_in(s, b) <= distinct_len(s) + count_in(s, a.intersect(b)),
    decreases s.len(),
{
    if s.len() > 0 {
        lemma_count_overlap(s.drop_last(), a, b);
    }
}

proof fn lemma_count_witness(s: Seq<NodeId>, a: Set<NodeId>)
    requires
        count_in(s, a) > 0,
    ensures
        exists|x: NodeId| s.contains(x) && a.contains(x),
    decreases s.len(),
{
    let l = s.last();
    if fresh_last(s) && a.contains(l) {
        assert(s[s.len() - 1] == l);
    } else {
        lemma_count_witness(s.drop_last(), a);
        let x = choose|x: NodeId| s.drop_last().contains(x) && a.contains(x);
        let k = choose|k: int| 0 <= k < s.drop_last().len() && s.drop_last()[k] == x;
        assert(s[k] == x);
    }
}

/// Any two majorities of one membership set share a node.
pub proof fn lemma_quorums_intersect(s: Seq<NodeId>, a: Set<NodeId>, b: Set<NodeId>)
    requires
        quorum_in(s, a),
        quorum_in(s, b),
    ensures
        exists|x: NodeId| s.contains(x) && a.contains(x) && b.contains(x),
{
    lemma_count_overlap(s, a, b);
    lemma_count_witness(s, a.intersect(b));
    let x = choose|x: NodeId| s.contains(x) && a.intersect(b).contains(x);
    assert(s.contains(x) && a.contains(x) && b.contains(x));
}

/// The smallest majority of a set of `n` voters.
pub fn majority_of(n: u64) -> (r: u64)
    ensures
        r == majority(n as nat),
{
    n / 2 + 1
}

/// Whether `x` occurs among the first `i` nodes of `v`.
fn contains_before(v: &Vec<NodeId>, i: usize, x: NodeId) -> (r: bool)
    requires
        i <= v@.len(),
    ensures
        r == v@.subrange(0, i as int).contains(x),
{
    let mut j: usize = 0;
    while j < i
        invariant
            j <= i <= v@.len(),
            forall|k: int| 0 <= k < j ==> v@[k] != x,
        decreases i - j,
    {
        if v[j] == x {
            assert(v@.subrange(0, i as int)[j as int] == x);
            return true;
        }
        j = j + 1;
    }
    proof {
        if v@.subrange(0, i as int).contains(x) {
            let k = choose|k: int| 0 <= k < i && v@.subrange(0, i as int)[k] == x;
            assert(v@[k] == x);
        }
    }
    false
}

/// How many distinct nodes of `members` are listed in `acked`, and how many distinct nodes
/// `members` lists.
pub fn count_acked_and_distinct(members: &Vec<NodeId>, acked: &Vec<NodeId>) -> (r: (u64, u64))
    ensures
        r.0 == count_in(members@, acked@.to_set()),
        r.1 == distinct_len(members@),
{
    let mut c: u64 = 0;
    let mut d: u64 = 0;
    let mut i: usize = 0;
    while i < members.len()
        invariant
            i <= members.len(),
            c <= i,
            d <= i,
            c == count_in(members@.subrange(0, i as int), acked@.to_set()),
            d == distinct_len(members@.subrange(0, i as int)),
        decreases members.len() - i,
    {
        let x = members[i];
        let seen = contains_before(members, i, x);
        let hit = crate::types::vec_contains(acked, x);
        assert(members@.subrange(0, i + 1).drop_last() == members@.subrange(0, i as int));
        assert(members@.subrange(0, i + 1).last() == x);
        if !seen {
            d = d + 1;
            if hit {
                c = c + 1;
            }
        }
        i = i + 1;
    }
    assert(members@.subrange(0, members.len() as int) == members@);
    (c, d)
}

/// How many distinct nodes of `members` are listed in `acked`.
pub fn count_acked(members: &Vec<NodeId>, acked: &Vec<NodeId>) -> (r: u64)
    ensures
        r == count_in(members@, acked@.to_set()),
{
    count_acked_and_distinct(members, acked).0
}

/// Whether `acked` reaches a majority in every active membership set.
pub fn has_quorum(m: &MembershipConfig, acked: &Vec<NodeId>) -> (r: bool)
    ensures
        r == joint_quorum(*m, acked@.to_set()),
{
    let (c, d) = count_acked_and_distinct(&m.members, acked);
    let old_ok = c >= majority_of(d);
    match &m.members_after_consensus {
        Some(v) => {
            let (c2, d2) = count_acked_and_distinct(v, acked);
            old_ok && c2 >= majority_of(d2)
        },
        None => old_ok,
    }
}

/// The nodes whose match index reaches `index`.
pub fn nodes_matching(matches: &Vec<(NodeId, u64)>, index: u64) -> (r: Vec<NodeId>)
    ensures
        r@.to_set() == acked_through(matches@, index),
{
    let mut r: Vec<NodeId> = Vec::new();
    let mut j: usize = 0;
    while j < matches.len()
        invariant
            j <= matches.len(),
            forall|n: NodeId| #[trigger] r@.contains(n) <==> exists|k: int|
                0 <= k < j && matches@[k].0 == n && matches@[k].1 >= index,
        decreases matches.len() - j,
    {
        let (n, m) = matches[j];
        let ghost before = r@;
        if m >= index {
            r.push(n);
            assert forall|y: NodeId| #[trigger] r@.contains(y) <==> (before.contains(y) || y == n) by {
                if r@.contains(y) && y != n {
                    let k = choose|k: int| 0 <= k < r@.len() && r@[k] == y;
                    assert(before[k] == y);
                }
                if y == n {
                    assert(r@[before.len() as int] == n);
                }
                if before.contains(y) {
                    let k = choose|k: int| 0 <= k < before.len() && before[k] == y;
                    assert(r@[k] == y);
                }
            }
        }
        assert forall|y: NodeId| #[trigger] r@.contains(y) <==> exists|k: int|
            0 <= k < j + 1 && matches@[k].0 == y && matches@[k].1 >= index by {
            if r@.contains(y) && !before.contains(y) {
                assert(matches@[j as int].0 == y && matches@[j as int].1 >= index);
            }
            if exists|k: int| 0 <= k < j + 1 && matches@[k].0 == y && matches@[k].1 >= index {
                let k = choose|k: int| 0 <= k < j + 1 && matches@[k].0 == y && matches@[k].1 >= index;
                if k < j {
                    assert(before.contains(y));
                }
            }
        }
        j = j + 1;
    }
    assert(r@.to_set() =~= acked_through(matches@, index));
    r
}

/// Whether the nodes whose match index reaches `index` form a quorum in every active set.
pub fn is_replicated_by_quorum(m: &MembershipConfig, matches: &Vec<(NodeId, u64)>, index: u64) -> (r: bool)
    ensures
        r == joint_quorum(*m, acked_through(matches@, index)),
{
    let acked = nodes_matching(matches, index);
    has_quorum(m, &acked)
}

} // verus!
