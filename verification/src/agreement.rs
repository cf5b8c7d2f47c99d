//! What the check of all nodes' snapshots decides: it reports a violation exactly
//! when there is one, and each only once.

use vstd::prelude::*;

use crate::cluster::FullNodeSnapshot;
use crate::invariants::ViolationView;
use crate::invariants;
use crate::listing;
use crate::ordered;
use crate::strmap;
use crate::typ::NodeId;
use crate::typ::ServerState;

verus! {

/// Whether a node leads in a term.
pub open spec fn leads(s: FullNodeSnapshot, term: u64) -> bool {
    s.raft.server_state == ServerState::Leader && s.raft.vote.term == term
}

/// Whether two nodes lead in one term.
pub open spec fn rivals(snapshots: Seq<(NodeId, FullNodeSnapshot)>, i: int, j: int, term: u64) -> bool {
    0 <= i < j < snapshots.len() && leads(snapshots[i].1, term) && leads(snapshots[j].1, term)
}

/// The violation of a term by all its leaders.
pub open spec fn rivalry(snapshots: Seq<(NodeId, FullNodeSnapshot)>, term: u64) -> ViolationView {
    ViolationView::MultipleLeadersInTerm { term, leaders: invariants::leaders_of_term(snapshots, term) }
}

/// Whether the `j`-th node leads and lacks something that the `i`-th node has committed
/// in an earlier term: its log ends before it, or holds other entries.
pub open spec fn lags(snapshots: Seq<(NodeId, FullNodeSnapshot)>, j: int, i: int) -> bool {
    &&& 0 <= i < snapshots.len()
    &&& 0 <= j < snapshots.len()
    &&& invariants::lacks(snapshots[j].1, snapshots[i].1)
}

/// The violation of a leader by the first index at which it lacks what was committed.
pub open spec fn shortfall(snapshots: Seq<(NodeId, FullNodeSnapshot)>, j: int) -> ViolationView {
    ViolationView::LeaderMissingCommitted {
        term: snapshots[j].1.raft.vote.term,
        leader: snapshots[j].0,
        missing_index: invariants::first_lost(snapshots, snapshots[j].1),
    }
}

/// Whether both nodes hold the index and have it committed.
pub open spec fn both_committed(a: FullNodeSnapshot, b: FullNodeSnapshot, index: u64) -> bool {
    &&& invariants::common_first(a, b) <= index
    &&& a.raft.committed is Some && index <= a.raft.committed->0.index
    &&& b.raft.committed is Some && index <= b.raft.committed->0.index
}

/// Whether two nodes have different terms at an index that both have committed.
pub open spec fn logs_conflict(snapshots: Seq<(NodeId, FullNodeSnapshot)>, i: int, j: int, index: u64) -> bool {
    &&& 0 <= i < j < snapshots.len()
    &&& both_committed(snapshots[i].1, snapshots[j].1, index)
    &&& invariants::terms_differ(snapshots[i].1, snapshots[j].1, index)
}

/// The mismatch of two logs at an index.
pub open spec fn mismatch(a: (NodeId, FullNodeSnapshot), b: (NodeId, FullNodeSnapshot), index: u64) -> ViolationView {
    ViolationView::LogMismatch {
        index,
        node_a: a.0,
        node_b: b.0,
        term_a: a.1.raft.log_ids.spec_get(index)->0.term,
        term_b: b.1.raft.log_ids.spec_get(index)->0.term,
    }
}

/// Whether two nodes have applied up to the same index, with different outcomes.
pub open spec fn machines_conflict(snapshots: Seq<(NodeId, FullNodeSnapshot)>, i: int, j: int) -> bool {
    0 <= i < j < snapshots.len() && invariants::machines_diverge(snapshots[i].1, snapshots[j].1)
}

/// The divergence of two nodes.
pub open spec fn split(a: (NodeId, FullNodeSnapshot), b: (NodeId, FullNodeSnapshot)) -> ViolationView {
    ViolationView::StateMachineDivergence { index: a.1.sm.last_applied->0.index, nodes: seq![a.0, b.0] }
}

proof fn lemma_leaders_of_term(snapshots: Seq<(NodeId, FullNodeSnapshot)>, term: u64)
    ensures
        invariants::leaders_of_term(snapshots, term).len() > 0 <==> exists|i: int|
            0 <= i < snapshots.len() && leads((#[trigger] snapshots[i]).1, term),
        invariants::leaders_of_term(snapshots, term).len() > 1 <==> exists|i: int, j: int| #[trigger]
            rivals(snapshots, i, j, term),
        invariants::leading_terms(snapshots).contains(term) <==> invariants::leaders_of_term(snapshots, term).len() > 0,
        invariants::leading_terms(snapshots).finite(),
    decreases snapshots.len(),
{
    if snapshots.len() > 0 {
        let rest = snapshots.drop_last();
        let last = snapshots.len() - 1;
        lemma_leaders_of_term(rest, term);
        assert forall|i: int| 0 <= i < rest.len() implies #[trigger] rest[i] == snapshots[i] by {}
        if invariants::leaders_of_term(rest, term).len() > 0 {
            let i = choose|i: int| 0 <= i < rest.len() && leads((#[trigger] rest[i]).1, term);
            assert(leads(snapshots[i].1, term));
            if leads(snapshots[last].1, term) {
                assert(rivals(snapshots, i, last, term));
            }
        }
        if invariants::leaders_of_term(rest, term).len() > 1 {
            let (i, j) = choose|i: int, j: int| #[trigger] rivals(rest, i, j, term);
            assert(rivals(snapshots, i, j, term));
        }
        if leads(snapshots[last].1, term) {
            assert(leads(snapshots[last].1, term));
        }
        if exists|i: int| 0 <= i < snapshots.len() && leads((#[trigger] snapshots[i]).1, term) {
            let i = choose|i: int| 0 <= i < snapshots.len() && leads((#[trigger] snapshots[i]).1, term);
            if i < last {
                assert(leads(rest[i].1, term));
            }
        }
        if exists|i: int, j: int| #[trigger] rivals(snapshots, i, j, term) {
            let (i, j) = choose|i: int, j: int| #[trigger] rivals(snapshots, i, j, term);
            if j < last {
                assert(rivals(rest, i, j, term));
            } else {
                assert(leads(rest[i].1, term));
            }
        }
    }
}

proof fn lemma_rival_leaders(snapshots: Seq<(NodeId, FullNodeSnapshot)>, v: ViolationView)
    ensures
        invariants::rival_leaders(snapshots).contains(v) <==> exists|i: int, j: int, term: u64| #[trigger]
            rivals(snapshots, i, j, term) && v == rivalry(snapshots, term),
        invariants::rival_leaders(snapshots).no_duplicates(),
{
    let terms = invariants::leading_terms(snapshots);
    let f = invariants::rivalry_by_term(snapshots);
    lemma_leaders_of_term(snapshots, 0);
    listing::lemma_members_contain(terms, f, v);
    assert forall|term: u64, w: ViolationView| #[trigger] f(term).contains(w) <==> invariants::leaders_of_term(
        snapshots,
        term,
    ).len() > 1 && w == rivalry(snapshots, term) by {
        listing::lemma_at_most_one(
            invariants::leaders_of_term(snapshots, term).len() > 1,
            rivalry(snapshots, term),
            w,
        );
    }
    if invariants::rival_leaders(snapshots).contains(v) {
        let term = choose|term: u64| #[trigger] terms.contains(term) && f(term).contains(v);
        lemma_leaders_of_term(snapshots, term);
    }
    if exists|i: int, j: int, term: u64| #[trigger] rivals(snapshots, i, j, term) && v == rivalry(snapshots, term) {
        let (i, j, term) = choose|i: int, j: int, term: u64| #[trigger]
            rivals(snapshots, i, j, term) && v == rivalry(snapshots, term);
        lemma_leaders_of_term(snapshots, term);
        assert(terms.contains(term) && f(term).contains(v));
    }
    listing::lemma_members_once(terms, f);
}

/// Whether no node has two snapshots.
pub open spec fn distinct_nodes(snapshots: Seq<(NodeId, FullNodeSnapshot)>) -> bool {
    forall|i: int, j: int| 0 <= i < j < snapshots.len() ==> #[trigger] snapshots[i].0 != #[trigger] snapshots[j].0
}

proof fn lemma_shortfall(snapshots: Seq<(NodeId, FullNodeSnapshot)>, j: int, v: ViolationView)
    requires
        0 <= j < snapshots.len(),
    ensures
        invariants::shortfall(snapshots, snapshots[j]).contains(v) <==> (exists|i: int| #[trigger] lags(snapshots, j, i))
            && v == shortfall(snapshots, j),
{
    let lacks = invariants::lacks_committed(snapshots, snapshots[j].1);
    listing::lemma_at_most_one(lacks, shortfall(snapshots, j), v);
    if lacks {
        let i = choose|i: int|
            0 <= i < snapshots.len() && invariants::lacks(snapshots[j].1, #[trigger] snapshots[i].1);
        assert(lags(snapshots, j, i));
    }
    if exists|i: int| #[trigger] lags(snapshots, j, i) {
        let i = choose|i: int| #[trigger] lags(snapshots, j, i);
        assert(invariants::lacks(snapshots[j].1, snapshots[i].1));
    }
}

proof fn lemma_shortfalls(snapshots: Seq<(NodeId, FullNodeSnapshot)>, v: ViolationView)
    ensures
        invariants::shortfalls(snapshots).contains(v) <==> exists|j: int, i: int| #[trigger]
            lags(snapshots, j, i) && v == shortfall(snapshots, j),
        distinct_nodes(snapshots) ==> invariants::shortfalls(snapshots).no_duplicates(),
{
    let f = invariants::shortfall_by_node(snapshots);
    listing::lemma_each_contains(snapshots, f, v);
    if invariants::shortfalls(snapshots).contains(v) {
        let j = choose|j: int| 0 <= j < snapshots.len() && f(#[trigger] snapshots[j]).contains(v);
        lemma_shortfall(snapshots, j, v);
        let i = choose|i: int| #[trigger] lags(snapshots, j, i);
        assert(lags(snapshots, j, i));
    }
    if exists|j: int, i: int| #[trigger] lags(snapshots, j, i) && v == shortfall(snapshots, j) {
        let (j, i) = choose|j: int, i: int| #[trigger] lags(snapshots, j, i) && v == shortfall(snapshots, j);
        lemma_shortfall(snapshots, j, v);
        assert(f(snapshots[j]).contains(v));
    }
    if distinct_nodes(snapshots) {
        assert forall|i: int, j: int| 0 <= i < j < snapshots.len() implies listing::disjoint(
            f(#[trigger] snapshots[i]),
            f(#[trigger] snapshots[j]),
        ) by {
            assert forall|w: ViolationView| !(#[trigger] f(snapshots[i]).contains(w) && f(snapshots[j]).contains(w)) by {
                lemma_shortfall(snapshots, i, w);
                lemma_shortfall(snapshots, j, w);
                assert(snapshots[i].0 != snapshots[j].0);
            }
        }
        listing::lemma_each_once(snapshots, f);
    }
}

proof fn lemma_committed_mismatches(a: (NodeId, FullNodeSnapshot), b: (NodeId, FullNodeSnapshot), v: ViolationView)
    ensures
        invariants::committed_mismatches(a, b).contains(v) <==> exists|index: u64|
            both_committed(a.1, b.1, index) && #[trigger] invariants::terms_differ(a.1, b.1, index) && v == mismatch(
                a,
                b,
                index,
            ),
        invariants::committed_mismatches(a, b).no_duplicates(),
{
    if let Some(last) = invariants::common_committed(a.1, b.1) {
        let first = invariants::common_first(a.1, b.1) as int;
        let indexes = listing::range(first, last + 1);
        let f = invariants::mismatch_at_each(a, b);
        listing::lemma_each_contains(indexes, f, v);
        assert forall|index: int, w: ViolationView| #[trigger] f(index).contains(w) <==> invariants::terms_differ(
            a.1,
            b.1,
            index as u64,
        ) && w == mismatch(a, b, index as u64) by {
            listing::lemma_at_most_one(
                invariants::terms_differ(a.1, b.1, index as u64),
                mismatch(a, b, index as u64),
                w,
            );
        }
        if invariants::committed_mismatches(a, b).contains(v) {
            let k = choose|k: int| 0 <= k < indexes.len() && f(#[trigger] indexes[k]).contains(v);
            let index = indexes[k] as u64;
            assert(both_committed(a.1, b.1, index) && invariants::terms_differ(a.1, b.1, index));
        }
        if exists|index: u64|
            both_committed(a.1, b.1, index) && #[trigger] invariants::terms_differ(a.1, b.1, index) && v == mismatch(
                a,
                b,
                index,
            ) {
            let index = choose|index: u64|
                both_committed(a.1, b.1, index) && #[trigger] invariants::terms_differ(a.1, b.1, index) && v == mismatch(
                    a,
                    b,
                    index,
                );
            assert(indexes[index - first] == index);
            assert(f(index as int).contains(v));
        }
        assert forall|i: int, j: int| 0 <= i < j < indexes.len() implies listing::disjoint(
            f(#[trigger] indexes[i]),
            f(#[trigger] indexes[j]),
        ) by {
            assert(indexes[i] as u64 != indexes[j] as u64);
        }
        listing::lemma_each_once(indexes, f);
    }
}

/// Whether a violation lies between two nodes.
pub open spec fn wrong_between(snapshots: Seq<(NodeId, FullNodeSnapshot)>, i: int, j: int, v: ViolationView) -> bool {
    ||| exists|index: u64| #[trigger]
        logs_conflict(snapshots, i, j, index) && v == mismatch(snapshots[i], snapshots[j], index)
    ||| machines_conflict(snapshots, i, j) && v == split(snapshots[i], snapshots[j])
}

proof fn lemma_pair_violations(snapshots: Seq<(NodeId, FullNodeSnapshot)>, i: int, j: int, v: ViolationView)
    requires
        0 <= i < j < snapshots.len(),
    ensures
        invariants::pair_violations(snapshots[i], snapshots[j]).contains(v) <==> wrong_between(snapshots, i, j, v),
        invariants::pair_violations(snapshots[i], snapshots[j]).no_duplicates(),
{
    let a = snapshots[i];
    let b = snapshots[j];
    let mismatches = invariants::committed_mismatches(a, b);
    let divergence = invariants::divergence(a, b);
    listing::lemma_concat_contains(mismatches, divergence, v);
    lemma_committed_mismatches(a, b, v);
    listing::lemma_at_most_one(invariants::machines_diverge(a.1, b.1), split(a, b), v);
    if mismatches.contains(v) {
        let index = choose|index: u64|
            both_committed(a.1, b.1, index) && #[trigger] invariants::terms_differ(a.1, b.1, index) && v == mismatch(
                a,
                b,
                index,
            );
        assert(logs_conflict(snapshots, i, j, index));
    }
    if exists|index: u64| #[trigger]
        logs_conflict(snapshots, i, j, index) && v == mismatch(snapshots[i], snapshots[j], index) {
        let index = choose|index: u64| #[trigger]
            logs_conflict(snapshots, i, j, index) && v == mismatch(snapshots[i], snapshots[j], index);
        assert(invariants::terms_differ(a.1, b.1, index));
    }
    assert forall|w: ViolationView| !(#[trigger] mismatches.contains(w) && divergence.contains(w)) by {
        lemma_committed_mismatches(a, b, w);
        listing::lemma_at_most_one(invariants::machines_diverge(a.1, b.1), split(a, b), w);
    }
    listing::lemma_concat_once(mismatches, divergence);
}

/// The nodes between which a violation lies.
proof fn lemma_wrong_between_names(snapshots: Seq<(NodeId, FullNodeSnapshot)>, i: int, j: int, v: ViolationView)
    requires
        wrong_between(snapshots, i, j, v),
    ensures
        match v {
            ViolationView::LogMismatch { node_a, node_b, .. } => node_a == snapshots[i].0 && node_b == snapshots[j].0,
            ViolationView::StateMachineDivergence { nodes, .. } => nodes.len() == 2 && nodes[0] == snapshots[i].0
                && nodes[1] == snapshots[j].0,
            _ => false,
        },
{
}

proof fn lemma_violations_of_pairs(snapshots: Seq<(NodeId, FullNodeSnapshot)>, v: ViolationView)
    ensures
        listing::each_pair(invariants::violations_by_place(snapshots), snapshots.len() as int).contains(v)
            <==> exists|i: int, j: int| #[trigger] wrong_between(snapshots, i, j, v),
        distinct_nodes(snapshots) ==> listing::each_pair(
            invariants::violations_by_place(snapshots),
            snapshots.len() as int,
        ).no_duplicates(),
{
    let n = snapshots.len() as int;
    let f = invariants::violations_by_place(snapshots);
    listing::lemma_each_pair_contains(f, n, v);
    if listing::each_pair(f, n).contains(v) {
        let (i, j) = choose|i: int, j: int| 0 <= i < j < n && #[trigger] listing::pair_has(f, i, j, v);
        lemma_pair_violations(snapshots, i, j, v);
        assert(wrong_between(snapshots, i, j, v));
    }
    if exists|i: int, j: int| #[trigger] wrong_between(snapshots, i, j, v) {
        let (i, j) = choose|i: int, j: int| #[trigger] wrong_between(snapshots, i, j, v);
        assert(0 <= i < j < n);
        lemma_pair_violations(snapshots, i, j, v);
        assert(listing::pair_has(f, i, j, v));
    }
    if distinct_nodes(snapshots) {
        assert forall|i: int, j: int| 0 <= i < j < n implies (#[trigger] f(i, j)).no_duplicates() by {
            lemma_pair_violations(snapshots, i, j, v);
        }
        assert forall|i: int, j: int, k: int, l: int, w: ViolationView|
            0 <= i < j < n && 0 <= k < l < n && #[trigger] listing::pair_has(f, i, j, w) && #[trigger] listing::pair_has(
                f,
                k,
                l,
                w,
            ) implies i == k && j == l by {
            lemma_pair_violations(snapshots, i, j, w);
            lemma_pair_violations(snapshots, k, l, w);
            lemma_wrong_between_names(snapshots, i, j, w);
            lemma_wrong_between_names(snapshots, k, l, w);
            assert(snapshots[i].0 == snapshots[k].0 && snapshots[j].0 == snapshots[l].0);
        }
        listing::lemma_each_pair_once(f, n);
    }
}

/// The check of all snapshots reports exactly the terms with rival leaders, the
/// leaders that lack something that was committed in an earlier term, the indexes
/// that two nodes have committed with different terms, and the pairs of state
/// machines that differ after the same index. What only one of two nodes has
/// committed is no mismatch.
pub proof fn state_check_reports(snapshots: Seq<(NodeId, FullNodeSnapshot)>, v: ViolationView)
    ensures
        invariants::state_violations(snapshots).contains(v) <==> {
            ||| exists|i: int, j: int, term: u64| #[trigger]
                rivals(snapshots, i, j, term) && v == rivalry(snapshots, term)
            ||| exists|j: int, i: int| #[trigger] lags(snapshots, j, i) && v == shortfall(snapshots, j)
            ||| exists|i: int, j: int, index: u64| #[trigger]
                logs_conflict(snapshots, i, j, index) && v == mismatch(snapshots[i], snapshots[j], index)
            ||| exists|i: int, j: int| #[trigger]
                machines_conflict(snapshots, i, j) && v == split(snapshots[i], snapshots[j])
        },
{
    let rivalries = invariants::rival_leaders(snapshots);
    let short = invariants::shortfalls(snapshots);
    let pairs = listing::each_pair(invariants::violations_by_place(snapshots), snapshots.len() as int);
    lemma_rival_leaders(snapshots, v);
    lemma_shortfalls(snapshots, v);
    lemma_violations_of_pairs(snapshots, v);
    listing::lemma_concat_contains(rivalries, short, v);
    listing::lemma_concat_contains(rivalries + short, pairs, v);
    if pairs.contains(v) {
        let (i, j) = choose|i: int, j: int| #[trigger] wrong_between(snapshots, i, j, v);
        if exists|index: u64| #[trigger]
            logs_conflict(snapshots, i, j, index) && v == mismatch(snapshots[i], snapshots[j], index) {
            let index = choose|index: u64| #[trigger]
                logs_conflict(snapshots, i, j, index) && v == mismatch(snapshots[i], snapshots[j], index);
            assert(logs_conflict(snapshots, i, j, index));
        } else {
            assert(machines_conflict(snapshots, i, j));
        }
    }
    if exists|i: int, j: int, index: u64| #[trigger]
        logs_conflict(snapshots, i, j, index) && v == mismatch(snapshots[i], snapshots[j], index) {
        let (i, j, index) = choose|i: int, j: int, index: u64| #[trigger]
            logs_conflict(snapshots, i, j, index) && v == mismatch(snapshots[i], snapshots[j], index);
        assert(wrong_between(snapshots, i, j, v));
    }
    if exists|i: int, j: int| #[trigger] machines_conflict(snapshots, i, j) && v == split(snapshots[i], snapshots[j]) {
        let (i, j) = choose|i: int, j: int| #[trigger]
            machines_conflict(snapshots, i, j) && v == split(snapshots[i], snapshots[j]);
        assert(wrong_between(snapshots, i, j, v));
    }
}

/// The check of all snapshots reports nothing twice.
pub proof fn state_check_reports_once(snapshots: Seq<(NodeId, FullNodeSnapshot)>)
    requires
        distinct_nodes(snapshots),
    ensures
        invariants::state_violations(snapshots).no_duplicates(),
{
    let rivalries = invariants::rival_leaders(snapshots);
    let short = invariants::shortfalls(snapshots);
    let pairs = listing::each_pair(invariants::violations_by_place(snapshots), snapshots.len() as int);
    let any = rivalry(snapshots, 0);
    lemma_rival_leaders(snapshots, any);
    lemma_shortfalls(snapshots, any);
    lemma_violations_of_pairs(snapshots, any);
    assert forall|w: ViolationView| !(#[trigger] rivalries.contains(w) && short.contains(w)) by {
        lemma_rival_leaders(snapshots, w);
        lemma_shortfalls(snapshots, w);
    }
    listing::lemma_concat_once(rivalries, short);
    assert forall|w: ViolationView| !(#[trigger] (rivalries + short).contains(w) && pairs.contains(w)) by {
        lemma_rival_leaders(snapshots, w);
        lemma_shortfalls(snapshots, w);
        lemma_violations_of_pairs(snapshots, w);
        listing::lemma_concat_contains(rivalries, short, w);
        if pairs.contains(w) {
            let (i, j) = choose|i: int, j: int| #[trigger] wrong_between(snapshots, i, j, w);
            lemma_wrong_between_names(snapshots, i, j, w);
        }
    }
    listing::lemma_concat_once(rivalries + short, pairs);
}

/// Whether the nodes agree: no two lead in one term, none leads and lacks something
/// that was committed in an earlier term, no two have different terms at an index that
/// both have committed, and no two state machines differ after the same index.
pub open spec fn nodes_agree(snapshots: Seq<(NodeId, FullNodeSnapshot)>) -> bool {
    &&& forall|i: int, j: int, term: u64| !(#[trigger] rivals(snapshots, i, j, term))
    &&& forall|j: int, i: int| !(#[trigger] lags(snapshots, j, i))
    &&& forall|i: int, j: int, index: u64| !(#[trigger] logs_conflict(snapshots, i, j, index))
    &&& forall|i: int, j: int| !(#[trigger] machines_conflict(snapshots, i, j))
}

/// The check of all snapshots passes exactly when the nodes agree.
pub proof fn state_check_decides(snapshots: Seq<(NodeId, FullNodeSnapshot)>)
    ensures
        invariants::state_violations(snapshots).len() == 0 <==> nodes_agree(snapshots),
{
    let found = invariants::state_violations(snapshots);
    if found.len() > 0 {
        assert(found.contains(found[0]));
        state_check_reports(snapshots, found[0]);
    }
    if exists|i: int, j: int, term: u64| #[trigger] rivals(snapshots, i, j, term) {
        let (i, j, term) = choose|i: int, j: int, term: u64| #[trigger] rivals(snapshots, i, j, term);
        state_check_reports(snapshots, rivalry(snapshots, term));
    }
    if exists|j: int, i: int| #[trigger] lags(snapshots, j, i) {
        let (j, i) = choose|j: int, i: int| #[trigger] lags(snapshots, j, i);
        state_check_reports(snapshots, shortfall(snapshots, j));
    }
    if exists|i: int, j: int, index: u64| #[trigger] logs_conflict(snapshots, i, j, index) {
        let (i, j, index) = choose|i: int, j: int, index: u64| #[trigger] logs_conflict(snapshots, i, j, index);
        state_check_reports(snapshots, mismatch(snapshots[i], snapshots[j], index));
    }
    if exists|i: int, j: int| #[trigger] machines_conflict(snapshots, i, j) {
        let (i, j) = choose|i: int, j: int| #[trigger] machines_conflict(snapshots, i, j);
        state_check_reports(snapshots, split(snapshots[i], snapshots[j]));
    }
}

/// Whether the entry that a node has committed at an index is not in a leader's log: the
/// leader holds nothing there, or an entry of another term.
pub open spec fn is_missing(leader: FullNodeSnapshot, other: FullNodeSnapshot, index: u64) -> bool {
    &&& other.raft.committed is Some
    &&& index <= other.raft.committed->0.index
    &&& leader.raft.log_ids.spec_get(index) is None || invariants::replaced_at(leader, other, index)
}

proof fn lemma_first_lost(snapshots: Seq<(NodeId, FullNodeSnapshot)>, s: FullNodeSnapshot, index: u64)
    requires
        invariants::lost(snapshots, s, index),
    ensures
        invariants::is_first_lost(snapshots, s, invariants::first_lost(snapshots, s)),
    decreases index,
{
    if exists|other: u64| other < index && #[trigger] invariants::lost(snapshots, s, other) {
        let other = choose|other: u64| other < index && #[trigger] invariants::lost(snapshots, s, other);
        lemma_first_lost(snapshots, s, other);
    } else {
        assert(invariants::is_first_lost(snapshots, s, index));
    }
}

/// The index that a leader is reported to miss is one at which some node has committed
/// an entry that is not in the leader's log, and no later than any index at which a node
/// shows that an entry is lost.
pub proof fn missing_index_is_missing(snapshots: Seq<(NodeId, FullNodeSnapshot)>, j: int, i: int)
    requires
        lags(snapshots, j, i),
        snapshots[j].1.raft.log_ids.by_index@.dom().finite(),
    ensures
        invariants::first_lost(snapshots, snapshots[j].1) <= snapshots[i].1.raft.committed->0.index,
        exists|k: int| #[trigger]
            lags(snapshots, j, k) && is_missing(
                snapshots[j].1,
                snapshots[k].1,
                invariants::first_lost(snapshots, snapshots[j].1),
            ),
        forall|k: int, index: u64|
            0 <= k < snapshots.len() && #[trigger] invariants::lost_at(snapshots[j].1, snapshots[k].1, index)
                ==> invariants::first_lost(snapshots, snapshots[j].1) <= index,
{
    let leader = snapshots[j].1;
    let first = invariants::first_lost(snapshots, leader);
    let some = if invariants::falls_short(leader, snapshots[i].1) {
        invariants::first_missing(leader)
    } else {
        choose|index: u64| #[trigger] invariants::replaced_at(leader, snapshots[i].1, index)
    };
    assert(invariants::lost_at(leader, snapshots[i].1, some));
    assert(invariants::lost(snapshots, leader, some));
    lemma_first_lost(snapshots, leader, some);
    assert forall|k: int, index: u64|
        0 <= k < snapshots.len() && #[trigger] invariants::lost_at(leader, snapshots[k].1, index) implies first
        <= index by {
        assert(invariants::lost(snapshots, leader, index));
    }
    let k = choose|k: int| 0 <= k < snapshots.len() && invariants::lost_at(leader, #[trigger] snapshots[k].1, first);
    assert(lags(snapshots, j, k));
    let held = leader.raft.log_ids.by_index@.dom();
    ordered::lemma_ascending(held);
    let listed = ordered::ascending(held);
    if held.contains(invariants::first_missing(leader)) && invariants::falls_short(leader, snapshots[k].1) {
        assert(listed.contains(invariants::first_missing(leader)));
        let at = choose|at: int| 0 <= at < listed.len() && listed[at] == invariants::first_missing(leader);
        assert(listed[at] <= listed.last());
    }
    assert(is_missing(leader, snapshots[k].1, first));
}

/// Leader completeness: where nothing is reported, the log of a leader reaches to what
/// any node has committed in an earlier term. Where that node knows of no later term, the
/// leader holds no entry of another term at an index that the node has committed.
pub proof fn unreported_leaders_are_complete(
    snapshots: Seq<(NodeId, FullNodeSnapshot)>,
    j: int,
    i: int,
    index: u64,
)
    requires
        invariants::state_violations(snapshots).len() == 0,
        0 <= i < snapshots.len(),
        0 <= j < snapshots.len(),
        invariants::leads_later(snapshots[j].1, snapshots[i].1),
        index <= snapshots[i].1.raft.committed->0.index,
    ensures
        snapshots[j].1.raft.log_ids.spec_last() is Some,
        snapshots[j].1.raft.log_ids.spec_last()->0 >= snapshots[i].1.raft.committed->0.index,
        snapshots[i].1.raft.vote.term <= snapshots[j].1.raft.vote.term ==> {
            let held = snapshots[j].1.raft.log_ids.spec_get(index);
            let theirs = snapshots[i].1.raft.log_ids.spec_get(index);
            let committed = snapshots[i].1.raft.committed->0;
            &&& held is Some && theirs is Some ==> held->0.term == theirs->0.term
            &&& held is Some && index == committed.index ==> held->0.term == committed.term
        },
{
    state_check_decides(snapshots);
    assert(!lags(snapshots, j, i));
    assert(invariants::replaced_at(snapshots[j].1, snapshots[i].1, index) ==> exists|k: u64| #[trigger]
        invariants::replaced_at(snapshots[j].1, snapshots[i].1, k));
}

// ---------------------------------------------------------------------------
// What the check decides, in terms of what the nodes report
// ---------------------------------------------------------------------------

/// Where nothing is reported, any two nodes have the same term at any index that both
/// have committed and neither has dropped, if both logs hold an entry there.
pub proof fn unreported_logs_agree(snapshots: Seq<(NodeId, FullNodeSnapshot)>, i: int, j: int, index: u64)
    requires
        invariants::state_violations(snapshots).len() == 0,
        0 <= i < snapshots.len(),
        0 <= j < snapshots.len(),
        snapshots[i].1.raft.committed matches Some(c) && index <= c.index,
        snapshots[j].1.raft.committed matches Some(c) && index <= c.index,
        snapshots[i].1.raft.log_ids.purged matches Some(p) ==> p.index <= index,
        snapshots[j].1.raft.log_ids.purged matches Some(p) ==> p.index <= index,
        snapshots[i].1.raft.log_ids.by_index@.contains_key(index),
        snapshots[j].1.raft.log_ids.by_index@.contains_key(index),
    ensures
        snapshots[i].1.raft.log_ids.by_index@[index].term == snapshots[j].1.raft.log_ids.by_index@[index].term,
{
    let a = snapshots[i].1.raft.log_ids.by_index@[index].term;
    let b = snapshots[j].1.raft.log_ids.by_index@[index].term;
    if a != b {
        if i < j {
            log_conflict_is_reported(snapshots, i, j, index);
        } else {
            log_conflict_is_reported(snapshots, j, i, index);
        }
    }
}

/// Different terms of two nodes at an index that both have committed and neither has
/// dropped are reported, with both nodes and both terms, the earlier snapshot first.
pub proof fn log_conflict_is_reported(snapshots: Seq<(NodeId, FullNodeSnapshot)>, i: int, j: int, index: u64)
    requires
        0 <= i < j < snapshots.len(),
        snapshots[i].1.raft.committed matches Some(c) && index <= c.index,
        snapshots[j].1.raft.committed matches Some(c) && index <= c.index,
        snapshots[i].1.raft.log_ids.purged matches Some(p) ==> p.index <= index,
        snapshots[j].1.raft.log_ids.purged matches Some(p) ==> p.index <= index,
        snapshots[i].1.raft.log_ids.by_index@.contains_key(index),
        snapshots[j].1.raft.log_ids.by_index@.contains_key(index),
        snapshots[i].1.raft.log_ids.by_index@[index].term != snapshots[j].1.raft.log_ids.by_index@[index].term,
    ensures
        invariants::state_violations(snapshots).contains(
            ViolationView::LogMismatch {
                index,
                node_a: snapshots[i].0,
                node_b: snapshots[j].0,
                term_a: snapshots[i].1.raft.log_ids.by_index@[index].term,
                term_b: snapshots[j].1.raft.log_ids.by_index@[index].term,
            },
        ),
{
    assert(logs_conflict(snapshots, i, j, index));
    state_check_reports(snapshots, mismatch(snapshots[i], snapshots[j], index));
}

/// A log mismatch is reported only of two nodes that have both committed the index,
/// have not dropped it, and hold entries of these different terms there.
pub proof fn reported_log_conflict_is_one(
    snapshots: Seq<(NodeId, FullNodeSnapshot)>,
    index: u64,
    node_a: NodeId,
    node_b: NodeId,
    term_a: u64,
    term_b: u64,
)
    requires
        invariants::state_violations(snapshots).contains(
            ViolationView::LogMismatch { index, node_a, node_b, term_a, term_b },
        ),
    ensures
        term_a != term_b,
        exists|i: int, j: int|
            #![trigger snapshots[i], snapshots[j]]
            {
                &&& 0 <= i < j < snapshots.len()
                &&& snapshots[i].0 == node_a
                &&& snapshots[j].0 == node_b
                &&& snapshots[i].1.raft.committed matches Some(c) && index <= c.index
                &&& snapshots[j].1.raft.committed matches Some(c) && index <= c.index
                &&& snapshots[i].1.raft.log_ids.purged matches Some(p) ==> p.index <= index
                &&& snapshots[j].1.raft.log_ids.purged matches Some(p) ==> p.index <= index
                &&& snapshots[i].1.raft.log_ids.by_index@.contains_key(index)
                &&& snapshots[j].1.raft.log_ids.by_index@.contains_key(index)
                &&& snapshots[i].1.raft.log_ids.by_index@[index].term == term_a
                &&& snapshots[j].1.raft.log_ids.by_index@[index].term == term_b
            },
{
    let v = ViolationView::LogMismatch { index, node_a, node_b, term_a, term_b };
    state_check_reports(snapshots, v);
    let (i, j, at) = choose|i: int, j: int, at: u64| #[trigger]
        logs_conflict(snapshots, i, j, at) && v == mismatch(snapshots[i], snapshots[j], at);
    assert(at == index);
    assert(snapshots[i].0 == node_a && snapshots[j].0 == node_b);
}

/// Where nothing is reported, any two nodes that have applied up to the same index
/// hold the same keys with the same values, whatever their roles are.
pub proof fn unreported_machines_agree(snapshots: Seq<(NodeId, FullNodeSnapshot)>, i: int, j: int, key: Seq<char>)
    requires
        invariants::state_violations(snapshots).len() == 0,
        0 <= i < snapshots.len(),
        0 <= j < snapshots.len(),
        snapshots[i].1.sm.last_applied is Some,
        snapshots[j].1.sm.last_applied is Some,
        snapshots[i].1.sm.last_applied->0.index == snapshots[j].1.sm.last_applied->0.index,
    ensures
        snapshots[i].1.sm.data@.contains_key(key) == snapshots[j].1.sm.data@.contains_key(key),
        snapshots[i].1.sm.data@.contains_key(key) ==> snapshots[i].1.sm.data@[key]@ == snapshots[j].1.sm.data@[key]@,
{
    let a = snapshots[i].1.sm.data@;
    let b = snapshots[j].1.sm.data@;
    if a.contains_key(key) != b.contains_key(key) || (a.contains_key(key) && a[key]@ != b[key]@) {
        if i < j {
            divergence_is_reported(snapshots, i, j, key);
        } else {
            divergence_is_reported(snapshots, j, i, key);
        }
    }
}

/// Two nodes that have applied up to the same index and differ in a key or its value
/// are reported, the earlier snapshot first.
pub proof fn divergence_is_reported(snapshots: Seq<(NodeId, FullNodeSnapshot)>, i: int, j: int, key: Seq<char>)
    requires
        0 <= i < j < snapshots.len(),
        snapshots[i].1.sm.last_applied is Some,
        snapshots[j].1.sm.last_applied is Some,
        snapshots[i].1.sm.last_applied->0.index == snapshots[j].1.sm.last_applied->0.index,
        snapshots[i].1.sm.data@.contains_key(key) != snapshots[j].1.sm.data@.contains_key(key) || (
        snapshots[i].1.sm.data@.contains_key(key) && snapshots[i].1.sm.data@[key]@ != snapshots[j].1.sm.data@[key]@),
    ensures
        invariants::state_violations(snapshots).contains(
            ViolationView::StateMachineDivergence {
                index: snapshots[i].1.sm.last_applied->0.index,
                nodes: seq![snapshots[i].0, snapshots[j].0],
            },
        ),
{
    if strmap::texts(snapshots[i].1.sm.data@) == strmap::texts(snapshots[j].1.sm.data@) {
        strmap::equal_texts_are_equal_values(snapshots[i].1.sm.data@, snapshots[j].1.sm.data@, key);
    }
    assert(machines_conflict(snapshots, i, j));
    state_check_reports(snapshots, split(snapshots[i], snapshots[j]));
}

/// A divergence is reported only of two nodes that have applied up to this index and
/// differ in a key or its value.
pub proof fn reported_divergence_is_one(snapshots: Seq<(NodeId, FullNodeSnapshot)>, index: u64, nodes: Seq<NodeId>)
    requires
        invariants::state_violations(snapshots).contains(ViolationView::StateMachineDivergence { index, nodes }),
    ensures
        exists|i: int, j: int, key: Seq<char>|
            #![trigger snapshots[i], snapshots[j], snapshots[i].1.sm.data@.contains_key(key)]
            {
                &&& 0 <= i < j < snapshots.len()
                &&& nodes == seq![snapshots[i].0, snapshots[j].0]
                &&& snapshots[i].1.sm.last_applied matches Some(id) && id.index == index
                &&& snapshots[j].1.sm.last_applied matches Some(id) && id.index == index
                &&& snapshots[i].1.sm.data@.contains_key(key) != snapshots[j].1.sm.data@.contains_key(key) || (
                snapshots[i].1.sm.data@.contains_key(key) && snapshots[i].1.sm.data@[key]@
                    != snapshots[j].1.sm.data@[key]@)
            },
{
    let v = ViolationView::StateMachineDivergence { index, nodes };
    state_check_reports(snapshots, v);
    let (i, j) = choose|i: int, j: int| #[trigger]
        machines_conflict(snapshots, i, j) && v == split(snapshots[i], snapshots[j]);
    let key = strmap::different_texts_differ_somewhere(snapshots[i].1.sm.data@, snapshots[j].1.sm.data@);
    assert(snapshots[i].0 == snapshots[i].0 && snapshots[j].0 == snapshots[j].0);
    assert(snapshots[i].1.sm.data@.contains_key(key) || snapshots[j].1.sm.data@.contains_key(key));
}

proof fn lemma_leaders_are_filtered(snapshots: Seq<(NodeId, FullNodeSnapshot)>, term: u64)
    ensures
        invariants::leaders_of_term(snapshots, term) == snapshots.filter(
            |s: (NodeId, FullNodeSnapshot)| s.1.raft.server_state == ServerState::Leader && s.1.raft.vote.term == term,
        ).map_values(|s: (NodeId, FullNodeSnapshot)| s.0),
    decreases snapshots.len(),
{
    let f = |s: (NodeId, FullNodeSnapshot)| s.1.raft.server_state == ServerState::Leader && s.1.raft.vote.term == term;
    let g = |s: (NodeId, FullNodeSnapshot)| s.0;
    reveal(Seq::filter);
    if snapshots.len() > 0 {
        let rest = snapshots.drop_last();
        lemma_leaders_are_filtered(rest, term);
        assert(rest.filter(f).push(snapshots.last()).map_values(g) =~= rest.filter(f).map_values(g).push(
            snapshots.last().0,
        ));
    }
    assert(invariants::leaders_of_term(snapshots, term) =~= snapshots.filter(f).map_values(g));
}

/// Two nodes that lead in one term are reported, with all nodes that lead in it, in the
/// order of the snapshots.
pub proof fn rival_is_reported(snapshots: Seq<(NodeId, FullNodeSnapshot)>, i: int, j: int)
    requires
        0 <= i < j < snapshots.len(),
        snapshots[i].1.raft.server_state == ServerState::Leader,
        snapshots[j].1.raft.server_state == ServerState::Leader,
        snapshots[i].1.raft.vote.term == snapshots[j].1.raft.vote.term,
    ensures
        invariants::state_violations(snapshots).contains(
            ViolationView::MultipleLeadersInTerm {
                term: snapshots[i].1.raft.vote.term,
                leaders: snapshots.filter(
                    |s: (NodeId, FullNodeSnapshot)|
                        s.1.raft.server_state == ServerState::Leader && s.1.raft.vote.term
                            == snapshots[i].1.raft.vote.term,
                ).map_values(|s: (NodeId, FullNodeSnapshot)| s.0),
            },
        ),
{
    let term = snapshots[i].1.raft.vote.term;
    assert(rivals(snapshots, i, j, term));
    state_check_reports(snapshots, rivalry(snapshots, term));
    lemma_leaders_are_filtered(snapshots, term);
}

/// Rival leaders are reported only of a term in which two nodes lead, and then all nodes
/// that lead in it are named, in the order of the snapshots.
pub proof fn reported_rivals_are_all_leaders(
    snapshots: Seq<(NodeId, FullNodeSnapshot)>,
    term: u64,
    leaders: Seq<NodeId>,
)
    requires
        invariants::state_violations(snapshots).contains(ViolationView::MultipleLeadersInTerm { term, leaders }),
    ensures
        leaders == snapshots.filter(
            |s: (NodeId, FullNodeSnapshot)| s.1.raft.server_state == ServerState::Leader && s.1.raft.vote.term == term,
        ).map_values(|s: (NodeId, FullNodeSnapshot)| s.0),
        leaders.len() >= 2,
        exists|i: int, j: int|
            #![trigger snapshots[i], snapshots[j]]
            0 <= i < j < snapshots.len() && snapshots[i].1.raft.server_state == ServerState::Leader
                && snapshots[j].1.raft.server_state == ServerState::Leader && snapshots[i].1.raft.vote.term == term
                && snapshots[j].1.raft.vote.term == term,
{
    let v = ViolationView::MultipleLeadersInTerm { term, leaders };
    state_check_reports(snapshots, v);
    let (i, j, at) = choose|i: int, j: int, at: u64| #[trigger]
        rivals(snapshots, i, j, at) && v == rivalry(snapshots, at);
    lemma_leaders_are_filtered(snapshots, term);
    lemma_leaders_of_term(snapshots, term);
    assert(snapshots[i].1.raft.vote.term == term && snapshots[j].1.raft.vote.term == term);
}

/// The end of a log that lies before an index.
proof fn lemma_ends_before(s: FullNodeSnapshot, index: u64)
    ensures
        (match s.raft.log_ids.spec_last() {
            Some(last) => last < index,
            None => true,
        }) <==> (forall|k: u64| #[trigger] s.raft.log_ids.by_index@.contains_key(k) ==> k < index) && (
        s.raft.log_ids.purged matches Some(p) ==> p.index < index),
{
    let held = s.raft.log_ids.by_index@.dom();
    ordered::lemma_ascending(held);
    let listed = ordered::ascending(held);
    if listed.len() > 0 {
        assert(listed.contains(listed.last()));
        assert(s.raft.log_ids.by_index@.contains_key(listed.last()));
    }
    assert forall|k: u64| #[trigger] s.raft.log_ids.by_index@.contains_key(k) implies listed.len() > 0 && k
        <= listed.last() by {
        assert(held.contains(k));
        assert(listed.contains(k));
        let at = choose|at: int| 0 <= at < listed.len() && listed[at] == k;
        assert(listed[at] <= listed.last());
    }
}

/// A leader whose log ends before what a node has committed in an earlier term is
/// reported, with an index that is no later than what that node has committed, nor than
/// the first index behind the leader's log.
pub proof fn short_leader_is_reported(
    snapshots: Seq<(NodeId, FullNodeSnapshot)>,
    j: int,
    i: int,
    behind: u64,
)
    requires
        0 <= j < snapshots.len(),
        0 <= i < snapshots.len(),
        snapshots[j].1.raft.server_state == ServerState::Leader,
        snapshots[i].1.raft.committed matches Some(c) && c.term < snapshots[j].1.raft.vote.term && behind <= c.index,
        forall|k: u64| #[trigger] snapshots[j].1.raft.log_ids.by_index@.contains_key(k) ==> k < behind,
        snapshots[j].1.raft.log_ids.purged matches Some(p) ==> p.index < behind,
    ensures
        exists|missing_index: u64|
            missing_index <= behind && #[trigger] invariants::state_violations(snapshots).contains(
                ViolationView::LeaderMissingCommitted {
                    term: snapshots[j].1.raft.vote.term,
                    leader: snapshots[j].0,
                    missing_index,
                },
            ),
{
    let leader = snapshots[j].1;
    lemma_ends_before(leader, behind);
    assert(invariants::falls_short(leader, snapshots[i].1));
    assert(lags(snapshots, j, i));
    state_check_reports(snapshots, shortfall(snapshots, j));
    missing_index_is_missing(snapshots, j, i);
    assert(invariants::lost_at(leader, snapshots[i].1, invariants::first_missing(leader)));
    assert(invariants::first_missing(leader) <= behind);
    assert(invariants::state_violations(snapshots).contains(
        ViolationView::LeaderMissingCommitted {
            term: leader.raft.vote.term,
            leader: snapshots[j].0,
            missing_index: invariants::first_lost(snapshots, leader),
        },
    ));
}

/// A leader that holds another entry than a node has committed in an earlier term is
/// reported, unless that node knows of a later term than the leader's. The index that is
/// reported is no later than that of the entry.
pub proof fn overwriting_leader_is_reported(
    snapshots: Seq<(NodeId, FullNodeSnapshot)>,
    j: int,
    i: int,
    index: u64,
)
    requires
        0 <= j < snapshots.len(),
        0 <= i < snapshots.len(),
        snapshots[j].1.raft.server_state == ServerState::Leader,
        snapshots[i].1.raft.vote.term <= snapshots[j].1.raft.vote.term,
        snapshots[i].1.raft.committed matches Some(c) && c.term < snapshots[j].1.raft.vote.term && index <= c.index,
        snapshots[j].1.raft.log_ids.by_index@.contains_key(index),
        ({
            let held = snapshots[j].1.raft.log_ids.by_index@[index].term;
            let theirs = snapshots[i].1.raft.log_ids.by_index@;
            let committed = snapshots[i].1.raft.committed->0;
            ||| index == committed.index && held != committed.term
            ||| theirs.contains_key(index) && held != theirs[index].term
        }),
    ensures
        exists|missing_index: u64|
            missing_index <= index && #[trigger] invariants::state_violations(snapshots).contains(
                ViolationView::LeaderMissingCommitted {
                    term: snapshots[j].1.raft.vote.term,
                    leader: snapshots[j].0,
                    missing_index,
                },
            ),
{
    let leader = snapshots[j].1;
    assert(invariants::replaced_at(leader, snapshots[i].1, index));
    assert(lags(snapshots, j, i));
    state_check_reports(snapshots, shortfall(snapshots, j));
    missing_index_is_missing(snapshots, j, i);
    assert(invariants::lost_at(leader, snapshots[i].1, index));
    assert(invariants::state_violations(snapshots).contains(
        ViolationView::LeaderMissingCommitted {
            term: leader.raft.vote.term,
            leader: snapshots[j].0,
            missing_index: invariants::first_lost(snapshots, leader),
        },
    ));
}

/// A leader is reported to lack an index only if some node has committed it in an earlier
/// term, and the leader holds nothing there and nothing behind it, or an entry of another
/// term than that node. A leader of whose later terms that node knows is reported only if
/// its log ends before what the node has committed.
pub proof fn reported_leader_lacks_the_index(
    snapshots: Seq<(NodeId, FullNodeSnapshot)>,
    term: u64,
    leader: NodeId,
    missing_index: u64,
)
    requires
        invariants::state_violations(snapshots).contains(
            ViolationView::LeaderMissingCommitted { term, leader, missing_index },
        ),
    ensures
        exists|j: int, i: int|
            #![trigger snapshots[j], snapshots[i]]
            {
                let held = snapshots[j].1.raft.log_ids;
                let other = snapshots[i].1.raft;
                &&& 0 <= j < snapshots.len()
                &&& 0 <= i < snapshots.len()
                &&& snapshots[j].0 == leader
                &&& snapshots[j].1.raft.server_state == ServerState::Leader
                &&& snapshots[j].1.raft.vote.term == term
                &&& other.committed is Some
                &&& other.committed->0.term < term
                &&& missing_index <= other.committed->0.index
                &&& {
                    ||| other.vote.term <= term
                    ||| (forall|k: u64| #[trigger] held.by_index@.contains_key(k) ==> k < other.committed->0.index) && (
                    held.purged matches Some(p) ==> p.index < other.committed->0.index)
                }
                &&& {
                    ||| (forall|k: u64| #[trigger] held.by_index@.contains_key(k) ==> k < missing_index) && (
                    held.purged matches Some(p) ==> p.index < missing_index)
                    ||| held.by_index@.contains_key(missing_index) && {
                        ||| missing_index == other.committed->0.index && held.by_index@[missing_index].term
                            != other.committed->0.term
                        ||| other.log_ids.by_index@.contains_key(missing_index) && held.by_index@[missing_index].term
                            != other.log_ids.by_index@[missing_index].term
                    }
                }
            },
{
    let v = ViolationView::LeaderMissingCommitted { term, leader, missing_index };
    state_check_reports(snapshots, v);
    let (j, at) = choose|j: int, at: int| #[trigger] lags(snapshots, j, at) && v == shortfall(snapshots, j);
    missing_index_is_missing(snapshots, j, at);
    let s = snapshots[j].1;
    let some = if invariants::falls_short(s, snapshots[at].1) {
        invariants::first_missing(s)
    } else {
        choose|index: u64| #[trigger] invariants::replaced_at(s, snapshots[at].1, index)
    };
    assert(invariants::lost_at(s, snapshots[at].1, some));
    assert(invariants::lost(snapshots, s, some));
    lemma_first_lost(snapshots, s, some);
    let i = choose|i: int| 0 <= i < snapshots.len() && invariants::lost_at(s, #[trigger] snapshots[i].1, missing_index);
    let committed = snapshots[i].1.raft.committed->0;
    lemma_ends_before(s, committed.index);
    lemma_ends_before(s, missing_index);
    assert(snapshots[j].0 == leader);
    assert(snapshots[i].1.raft.committed is Some);
}

/// Votes are no subject of the check of snapshots.
pub proof fn no_votes_are_reported(
    snapshots: Seq<(NodeId, FullNodeSnapshot)>,
    voter: NodeId,
    term: u64,
    candidates: Seq<NodeId>,
)
    ensures
        !invariants::state_violations(snapshots).contains(
            ViolationView::MultipleVotesInTerm { voter, term, candidates },
        ),
{
    state_check_reports(snapshots, ViolationView::MultipleVotesInTerm { voter, term, candidates });
}

/// Whether a violation is reported before another: rival leaders come first, by term, then
/// leaders that lack committed entries, by node, and then what is wrong between two nodes, by
/// these, mismatches by their index and before a divergence.
pub open spec fn is_reported_before(v: ViolationView, w: ViolationView) -> bool {
    match v {
        ViolationView::MultipleLeadersInTerm { term, .. } => match w {
            ViolationView::MultipleLeadersInTerm { term: other, .. } => term < other,
            _ => true,
        },
        ViolationView::LeaderMissingCommitted { leader, .. } => match w {
            ViolationView::MultipleLeadersInTerm { .. } => false,
            ViolationView::LeaderMissingCommitted { leader: other, .. } => leader < other,
            _ => true,
        },
        ViolationView::LogMismatch { index, node_a, node_b, .. } => match w {
            ViolationView::LogMismatch { index: k, node_a: a, node_b: b, .. } => node_a < a || (node_a == a && (node_b
                < b || (node_b == b && index < k))),
            ViolationView::StateMachineDivergence { nodes, .. } => node_a < nodes[0] || (node_a == nodes[0] && node_b
                <= nodes[1]),
            _ => false,
        },
        ViolationView::StateMachineDivergence { nodes, .. } => match w {
            ViolationView::LogMismatch { node_a: a, node_b: b, .. } => nodes[0] < a || (nodes[0] == a && nodes[1] < b),
            ViolationView::StateMachineDivergence { nodes: others, .. } => nodes[0] < others[0] || (nodes[0]
                == others[0] && nodes[1] < others[1]),
            _ => false,
        },
        ViolationView::MultipleVotesInTerm { .. } => false,
    }
}

proof fn lemma_pair_in_order(snapshots: Seq<(NodeId, FullNodeSnapshot)>, i: int, j: int)
    requires
        0 <= i < j < snapshots.len(),
    ensures
        listing::in_order(
            invariants::pair_violations(snapshots[i], snapshots[j]),
            |v: ViolationView, w: ViolationView| is_reported_before(v, w),
        ),
{
    let before = |v: ViolationView, w: ViolationView| is_reported_before(v, w);
    let a = snapshots[i];
    let b = snapshots[j];
    let mismatches = invariants::committed_mismatches(a, b);
    let divergence = invariants::divergence(a, b);
    if let Some(last) = invariants::common_committed(a.1, b.1) {
        let first = invariants::common_first(a.1, b.1) as int;
        let indexes = listing::range(first, last + 1);
        let f = invariants::mismatch_at_each(a, b);
        assert forall|p: int, q: int| 0 <= p < q < indexes.len() implies listing::all_before(
            f(#[trigger] indexes[p]),
            f(#[trigger] indexes[q]),
            before,
        ) by {
            let x = indexes[p] as u64;
            let y = indexes[q] as u64;
            assert(x < y);
            assert forall|v: ViolationView, w: ViolationView| #[trigger] f(indexes[p]).contains(v)
                && #[trigger] f(indexes[q]).contains(w) implies before(v, w) by {
                listing::lemma_at_most_one(invariants::terms_differ(a.1, b.1, x), mismatch(a, b, x), v);
                listing::lemma_at_most_one(invariants::terms_differ(a.1, b.1, y), mismatch(a, b, y), w);
            }
        }
        listing::lemma_each_in_order(indexes, f, before);
    }
    assert forall|v: ViolationView, w: ViolationView| #[trigger] mismatches.contains(v) && #[trigger] divergence.contains(
        w,
    ) implies before(v, w) by {
        lemma_committed_mismatches(a, b, v);
        listing::lemma_at_most_one(invariants::machines_diverge(a.1, b.1), split(a, b), w);
    }
    listing::lemma_concat_in_order(mismatches, divergence, before);
}

/// What is wrong in snapshots that come in the order of their nodes is reported in a fixed
/// order.
pub proof fn violations_are_in_order(snapshots: Seq<(NodeId, FullNodeSnapshot)>, p: int, q: int)
    requires
        forall|i: int, j: int| 0 <= i < j < snapshots.len() ==> #[trigger] snapshots[i].0 < #[trigger] snapshots[j].0,
        0 <= p < q < invariants::state_violations(snapshots).len(),
    ensures
        is_reported_before(
            invariants::state_violations(snapshots)[p],
            invariants::state_violations(snapshots)[q],
        ),
{
    let before = |v: ViolationView, w: ViolationView| is_reported_before(v, w);
    let rivalries = invariants::rival_leaders(snapshots);
    let short = invariants::shortfalls(snapshots);
    let n = snapshots.len() as int;
    let f = invariants::violations_by_place(snapshots);
    let pairs = listing::each_pair(f, n);
    // Rival leaders.
    let terms = invariants::leading_terms(snapshots);
    let of_term = invariants::rivalry_by_term(snapshots);
    lemma_leaders_of_term(snapshots, 0);
    assert forall|x: u64, y: u64| #[trigger] terms.contains(x) && #[trigger] terms.contains(y) && x
        < y implies listing::all_before(of_term(x), of_term(y), before) by {
        assert forall|v: ViolationView, w: ViolationView| #[trigger] of_term(x).contains(v) && #[trigger] of_term(
            y,
        ).contains(w) implies before(v, w) by {
            listing::lemma_at_most_one(
                invariants::leaders_of_term(snapshots, x).len() > 1,
                rivalry(snapshots, x),
                v,
            );
            listing::lemma_at_most_one(
                invariants::leaders_of_term(snapshots, y).len() > 1,
                rivalry(snapshots, y),
                w,
            );
        }
    }
    listing::lemma_members_in_order(terms, of_term, before);
    // Leaders that lack committed entries.
    let of_node = invariants::shortfall_by_node(snapshots);
    assert forall|i: int, j: int| 0 <= i < j < n implies listing::all_before(
        of_node(#[trigger] snapshots[i]),
        of_node(#[trigger] snapshots[j]),
        before,
    ) by {
        assert forall|v: ViolationView, w: ViolationView| #[trigger] of_node(snapshots[i]).contains(v)
            && #[trigger] of_node(snapshots[j]).contains(w) implies before(v, w) by {
            lemma_shortfall(snapshots, i, v);
            lemma_shortfall(snapshots, j, w);
            assert(snapshots[i].0 < snapshots[j].0);
        }
    }
    listing::lemma_each_in_order(snapshots, of_node, before);
    // Pairs of nodes.
    assert forall|i: int, j: int| 0 <= i < j < n implies listing::in_order(#[trigger] f(i, j), before) by {
        lemma_pair_in_order(snapshots, i, j);
    }
    assert forall|i: int, j: int, k: int, l: int, x: ViolationView, y: ViolationView|
        0 <= i < j < n && 0 <= k < l < n && (i < k || (i == k && j < l)) && #[trigger] listing::pair_has(f, i, j, x)
            && #[trigger] listing::pair_has(f, k, l, y) implies before(x, y) by {
        lemma_pair_violations(snapshots, i, j, x);
        lemma_pair_violations(snapshots, k, l, y);
        lemma_wrong_between_names(snapshots, i, j, x);
        lemma_wrong_between_names(snapshots, k, l, y);
        if i < k {
            assert(snapshots[i].0 < snapshots[k].0);
        } else {
            assert(snapshots[j].0 < snapshots[l].0);
        }
    }
    listing::lemma_each_pair_in_order(f, n, before);
    // All of them.
    assert forall|w: ViolationView| #[trigger] rivalries.contains(w) implies w is MultipleLeadersInTerm by {
        lemma_rival_leaders(snapshots, w);
    }
    assert forall|w: ViolationView| #[trigger] short.contains(w) implies w is LeaderMissingCommitted by {
        lemma_shortfalls(snapshots, w);
    }
    assert forall|w: ViolationView| #[trigger] pairs.contains(w) implies w is LogMismatch || w
        is StateMachineDivergence by {
        lemma_violations_of_pairs(snapshots, w);
        let (i, j) = choose|i: int, j: int| #[trigger] wrong_between(snapshots, i, j, w);
        lemma_wrong_between_names(snapshots, i, j, w);
    }
    listing::lemma_concat_in_order(rivalries, short, before);
    assert forall|x: ViolationView, y: ViolationView| #[trigger] (rivalries + short).contains(x)
        && #[trigger] pairs.contains(y) implies before(x, y) by {
        listing::lemma_concat_contains(rivalries, short, x);
    }
    listing::lemma_concat_in_order(rivalries + short, pairs, before);
    let all = invariants::state_violations(snapshots);
    assert(before(all[p], all[q]));
}

} // verus!
