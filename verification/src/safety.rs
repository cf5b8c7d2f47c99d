//! What the checks of the recorded state decide: they report a violation exactly
//! when there is one, and each only once.

use vstd::prelude::*;

use crate::invariants::LogEntry;
use crate::invariants::NodeStateSnapshot;
use crate::invariants::ViolationView;
use crate::invariants;
use crate::listing;
use crate::ordered;
use crate::strmap;
use crate::typ::NodeId;

verus! {

// ---------------------------------------------------------------------------
// Election safety
// ---------------------------------------------------------------------------

/// The violation of a term by all its leaders.
pub open spec fn conflict(leaders: Map<u64, Set<NodeId>>, term: u64) -> ViolationView {
    ViolationView::MultipleLeadersInTerm { term, leaders: ordered::ascending(leaders[term]) }
}

/// Election safety is violated by exactly the terms that have more than one
/// recorded leader. Each is reported once, with its leaders in ascending order.
pub proof fn election_safety_reports(leaders: Map<u64, Set<NodeId>>, v: ViolationView)
    requires
        leaders.dom().finite(),
    ensures
        invariants::election_violations(leaders).contains(v) <==> exists|term: u64| #[trigger]
            leaders.contains_key(term) && leaders[term].len() > 1 && v == conflict(leaders, term),
        invariants::election_violations(leaders).no_duplicates(),
{
    let f = invariants::conflict_by_term(leaders);
    listing::lemma_members_contain(leaders.dom(), f, v);
    assert forall|term: u64, w: ViolationView| #[trigger] f(term).contains(w) <==> leaders[term].len() > 1 && w
        == conflict(leaders, term) by {
        listing::lemma_at_most_one(leaders[term].len() > 1, conflict(leaders, term), w);
    }
    if exists|term: u64| #[trigger] leaders.dom().contains(term) && f(term).contains(v) {
        let term = choose|term: u64| #[trigger] leaders.dom().contains(term) && f(term).contains(v);
        assert(leaders.contains_key(term));
    }
    if exists|term: u64| #[trigger]
        leaders.contains_key(term) && leaders[term].len() > 1 && v == conflict(leaders, term) {
        let term = choose|term: u64| #[trigger]
            leaders.contains_key(term) && leaders[term].len() > 1 && v == conflict(leaders, term);
        assert(leaders.dom().contains(term) && f(term).contains(v));
    }
    listing::lemma_members_once(leaders.dom(), f);
}

// ---------------------------------------------------------------------------
// Log matching
// ---------------------------------------------------------------------------

/// The mismatch of two nodes at an index.
pub open spec fn mismatch(
    states: Map<NodeId, NodeStateSnapshot>,
    node_a: NodeId,
    node_b: NodeId,
    index: u64,
) -> ViolationView {
    ViolationView::LogMismatch {
        index,
        node_a,
        node_b,
        term_a: invariants::node_entries(states[node_a])[index].term,
        term_b: invariants::node_entries(states[node_b])[index].term,
    }
}

/// Whether the entries that two recorded nodes have committed at an index conflict.
pub open spec fn logs_conflict(
    states: Map<NodeId, NodeStateSnapshot>,
    node_a: NodeId,
    node_b: NodeId,
    index: u64,
) -> bool {
    &&& states.contains_key(node_a)
    &&& states.contains_key(node_b)
    &&& node_a < node_b
    &&& invariants::entries_conflict(states[node_a], states[node_b], index)
}

proof fn lemma_committed_entries_finite(log: Seq<LogEntry>, commit: u64)
    ensures
        invariants::committed_entries(log, commit).dom().finite(),
    decreases log.len(),
{
    if log.len() > 0 {
        lemma_committed_entries_finite(log.drop_last(), commit);
    }
}

proof fn lemma_node_mismatches(states: Map<NodeId, NodeStateSnapshot>, node_a: NodeId, node_b: NodeId, v: ViolationView)
    ensures
        invariants::node_mismatches(states, node_a, node_b).contains(v) <==> exists|index: u64| #[trigger]
            invariants::entries_conflict(states[node_a], states[node_b], index) && v == mismatch(
                states,
                node_a,
                node_b,
                index,
            ),
        invariants::node_mismatches(states, node_a, node_b).no_duplicates(),
{
    let a = states[node_a];
    let b = states[node_b];
    let indexes = invariants::node_entries(a).dom();
    let f = invariants::mismatch_by_index(states, node_a, node_b);
    lemma_committed_entries_finite(a.log@, a.commit_index);
    listing::lemma_members_contain(indexes, f, v);
    assert forall|index: u64, w: ViolationView| #[trigger] f(index).contains(w) <==> invariants::entries_conflict(
        a,
        b,
        index,
    ) && w == mismatch(states, node_a, node_b, index) by {
        listing::lemma_at_most_one(
            invariants::entries_conflict(a, b, index),
            mismatch(states, node_a, node_b, index),
            w,
        );
    }
    if exists|index: u64| #[trigger]
        invariants::entries_conflict(a, b, index) && v == mismatch(states, node_a, node_b, index) {
        let index = choose|index: u64| #[trigger]
            invariants::entries_conflict(a, b, index) && v == mismatch(states, node_a, node_b, index);
        assert(indexes.contains(index) && f(index).contains(v));
    }
    listing::lemma_members_once(indexes, f);
}

/// Log matching is violated by exactly the indexes at which the entries that two nodes
/// have committed conflict: their terms differ, or their data differ before an entry
/// that both nodes share. Each is reported once for a pair of nodes, the smaller number
/// first.
pub proof fn log_matching_reports(states: Map<NodeId, NodeStateSnapshot>, v: ViolationView)
    requires
        states.dom().finite(),
    ensures
        invariants::log_mismatches(states).contains(v) <==> exists|node_a: NodeId, node_b: NodeId, index: u64| #[trigger]
            logs_conflict(states, node_a, node_b, index) && v == mismatch(states, node_a, node_b, index),
        invariants::log_mismatches(states).no_duplicates(),
{
    let ids = ordered::ascending(states.dom());
    let n = ids.len() as int;
    let f = invariants::mismatches_by_place(states, ids);
    ordered::lemma_ascending(states.dom());
    listing::lemma_each_pair_contains(f, n, v);
    if invariants::log_mismatches(states).contains(v) {
        let (i, j) = choose|i: int, j: int| 0 <= i < j < n && #[trigger] listing::pair_has(f, i, j, v);
        lemma_node_mismatches(states, ids[i], ids[j], v);
        let index = choose|index: u64| #[trigger]
            invariants::entries_conflict(states[ids[i]], states[ids[j]], index) && v == mismatch(
                states,
                ids[i],
                ids[j],
                index,
            );
        assert(ids.contains(ids[i]) && ids.contains(ids[j]));
        assert(logs_conflict(states, ids[i], ids[j], index));
    }
    if exists|node_a: NodeId, node_b: NodeId, index: u64| #[trigger]
        logs_conflict(states, node_a, node_b, index) && v == mismatch(states, node_a, node_b, index) {
        let (node_a, node_b, index) = choose|node_a: NodeId, node_b: NodeId, index: u64| #[trigger]
            logs_conflict(states, node_a, node_b, index) && v == mismatch(states, node_a, node_b, index);
        lemma_node_mismatches(states, node_a, node_b, v);
        let (i, j) = listing::lemma_places(states.dom(), node_a, node_b);
        assert(listing::pair_has(f, i, j, v));
    }
    assert forall|i: int, j: int| 0 <= i < j < n implies (#[trigger] f(i, j)).no_duplicates() by {
        lemma_node_mismatches(states, ids[i], ids[j], v);
    }
    assert forall|i: int, j: int, k: int, l: int, w: ViolationView|
        0 <= i < j < n && 0 <= k < l < n && #[trigger] listing::pair_has(f, i, j, w) && #[trigger] listing::pair_has(
            f,
            k,
            l,
            w,
        ) implies i == k && j == l by {
        lemma_node_mismatches(states, ids[i], ids[j], w);
        lemma_node_mismatches(states, ids[k], ids[l], w);
        assert(ids[i] == ids[k] && ids[j] == ids[l]);
    }
    listing::lemma_each_pair_once(f, n);
}

/// Log matching: where nothing is reported, two logs that share a committed entry,
/// with the same index and term, are identical in all preceding entries that both
/// hold.
pub proof fn unreported_logs_match(
    states: Map<NodeId, NodeStateSnapshot>,
    node_a: NodeId,
    node_b: NodeId,
    shared: u64,
    index: u64,
)
    requires
        states.dom().finite(),
        invariants::log_mismatches(states).len() == 0,
        states.contains_key(node_a),
        states.contains_key(node_b),
        invariants::shares(states[node_a], states[node_b], shared),
        index < shared,
        invariants::node_entries(states[node_a]).contains_key(index),
        invariants::node_entries(states[node_b]).contains_key(index),
    ensures
        invariants::node_entries(states[node_a])[index].term == invariants::node_entries(states[node_b])[index].term,
        invariants::data_view(invariants::node_entries(states[node_a])[index].data) == invariants::data_view(
            invariants::node_entries(states[node_b])[index].data,
        ),
{
    let (a, b) = if node_a < node_b {
        (node_a, node_b)
    } else {
        (node_b, node_a)
    };
    assert(invariants::shares(states[a], states[b], shared));
    assert(invariants::shares_behind(states[a], states[b], index));
    if invariants::entries_conflict(states[a], states[b], index) && a != b {
        assert(logs_conflict(states, a, b, index));
        log_matching_reports(states, mismatch(states, a, b, index));
    }
}

/// An index counts in the committed part of a log only if some entry has it, up
/// to the commit index, and the entry that counts is the last such one.
pub proof fn committed_entries_are_committed(log: Seq<LogEntry>, commit: u64, index: u64)
    ensures
        invariants::committed_entries(log, commit).contains_key(index) ==> index <= commit,
        invariants::committed_entries(log, commit).contains_key(index) <==> index <= commit && exists|i: int|
            0 <= i < log.len() && (#[trigger] log[i]).index == index,
        invariants::committed_entries(log, commit).contains_key(index) ==> exists|i: int|
            0 <= i < log.len() && (#[trigger] log[i]).index == index && invariants::committed_entries(log, commit)[index]
                == log[i] && (forall|j: int| i < j < log.len() ==> (#[trigger] log[j]).index != index),
    decreases log.len(),
{
    if log.len() > 0 {
        let rest = log.drop_last();
        committed_entries_are_committed(rest, commit, index);
        let last = log.len() - 1;
        assert forall|i: int| 0 <= i < rest.len() implies #[trigger] rest[i] == log[i] by {}
        if invariants::committed_entries(log, commit).contains_key(index) {
            if log.last().index == index {
                assert(log[last].index == index);
            } else {
                let i = choose|i: int|
                    0 <= i < rest.len() && (#[trigger] rest[i]).index == index && invariants::committed_entries(rest, commit)[index]
                        == rest[i] && (forall|j: int| i < j < rest.len() ==> (#[trigger] rest[j]).index != index);
                assert(log[i].index == index);
                assert forall|j: int| i < j < log.len() implies (#[trigger] log[j]).index != index by {
                    if j < rest.len() {
                        assert(rest[j] == log[j]);
                    }
                }
            }
        }
        if index <= commit && exists|i: int| 0 <= i < log.len() && (#[trigger] log[i]).index == index {
            let i = choose|i: int| 0 <= i < log.len() && (#[trigger] log[i]).index == index;
            if i < rest.len() {
                assert(rest[i].index == index);
            }
        }
    }
}

// ---------------------------------------------------------------------------
// State machine safety
// ---------------------------------------------------------------------------

/// The divergence of two nodes.
pub open spec fn split(states: Map<NodeId, NodeStateSnapshot>, node_a: NodeId, node_b: NodeId) -> ViolationView {
    ViolationView::StateMachineDivergence { index: states[node_a].last_applied, nodes: seq![node_a, node_b] }
}

/// Whether two recorded nodes have applied as much, with different outcomes.
pub open spec fn machines_conflict(states: Map<NodeId, NodeStateSnapshot>, node_a: NodeId, node_b: NodeId) -> bool {
    &&& states.contains_key(node_a)
    &&& states.contains_key(node_b)
    &&& node_a < node_b
    &&& invariants::outcomes_differ(states[node_a], states[node_b])
}

proof fn lemma_node_divergence(states: Map<NodeId, NodeStateSnapshot>, node_a: NodeId, node_b: NodeId, v: ViolationView)
    ensures
        invariants::node_divergence(states, node_a, node_b).contains(v) <==> invariants::outcomes_differ(
            states[node_a],
            states[node_b],
        ) && v == split(states, node_a, node_b),
{
    listing::lemma_at_most_one(
        invariants::outcomes_differ(states[node_a], states[node_b]),
        split(states, node_a, node_b),
        v,
    );
}

/// State machine safety is violated by exactly the pairs of nodes that have applied
/// up to the same index and hold different data. Each pair is reported once, the
/// smaller number first.
pub proof fn state_machine_safety_reports(states: Map<NodeId, NodeStateSnapshot>, v: ViolationView)
    requires
        states.dom().finite(),
    ensures
        invariants::node_divergences(states).contains(v) <==> exists|node_a: NodeId, node_b: NodeId| #[trigger]
            machines_conflict(states, node_a, node_b) && v == split(states, node_a, node_b),
        invariants::node_divergences(states).no_duplicates(),
{
    let ids = ordered::ascending(states.dom());
    let n = ids.len() as int;
    let f = invariants::divergence_by_place(states, ids);
    ordered::lemma_ascending(states.dom());
    listing::lemma_each_pair_contains(f, n, v);
    if invariants::node_divergences(states).contains(v) {
        let (i, j) = choose|i: int, j: int| 0 <= i < j < n && #[trigger] listing::pair_has(f, i, j, v);
        lemma_node_divergence(states, ids[i], ids[j], v);
        assert(ids.contains(ids[i]) && ids.contains(ids[j]));
        assert(machines_conflict(states, ids[i], ids[j]));
    }
    if exists|node_a: NodeId, node_b: NodeId| #[trigger]
        machines_conflict(states, node_a, node_b) && v == split(states, node_a, node_b) {
        let (node_a, node_b) = choose|node_a: NodeId, node_b: NodeId| #[trigger]
            machines_conflict(states, node_a, node_b) && v == split(states, node_a, node_b);
        lemma_node_divergence(states, node_a, node_b, v);
        let (i, j) = listing::lemma_places(states.dom(), node_a, node_b);
        assert(listing::pair_has(f, i, j, v));
    }
    assert forall|i: int, j: int, k: int, l: int, w: ViolationView|
        0 <= i < j < n && 0 <= k < l < n && #[trigger] listing::pair_has(f, i, j, w) && #[trigger] listing::pair_has(
            f,
            k,
            l,
            w,
        ) implies i == k && j == l by {
        lemma_node_divergence(states, ids[i], ids[j], w);
        lemma_node_divergence(states, ids[k], ids[l], w);
        let first = seq![ids[i], ids[j]];
        let second = seq![ids[k], ids[l]];
        assert(first == second);
        assert(first[0] == second[0] && first[1] == second[1]);
    }
    listing::lemma_each_pair_once(f, n);
}

// ---------------------------------------------------------------------------
// Vote safety
// ---------------------------------------------------------------------------

/// The violation of a node by all its votes in a term.
pub open spec fn double_vote(votes: Map<u64, Map<NodeId, Set<NodeId>>>, term: u64, voter: NodeId) -> ViolationView {
    ViolationView::MultipleVotesInTerm { voter, term, candidates: ordered::ascending(votes[term][voter]) }
}

/// Whether a node has voted for more than one candidate in a term.
pub open spec fn voted_twice(votes: Map<u64, Map<NodeId, Set<NodeId>>>, term: u64, voter: NodeId) -> bool {
    votes.contains_key(term) && votes[term].contains_key(voter) && votes[term][voter].len() > 1
}

proof fn lemma_double_votes_in(votes: Map<u64, Map<NodeId, Set<NodeId>>>, term: u64, v: ViolationView)
    requires
        votes.contains_key(term),
        votes[term].dom().finite(),
    ensures
        invariants::double_votes_in(votes, term).contains(v) <==> exists|voter: NodeId| #[trigger]
            voted_twice(votes, term, voter) && v == double_vote(votes, term, voter),
        invariants::double_votes_in(votes, term).no_duplicates(),
{
    let voters = votes[term].dom();
    let f = invariants::double_vote_by_voter(votes, term);
    listing::lemma_members_contain(voters, f, v);
    assert forall|voter: NodeId, w: ViolationView| #[trigger] f(voter).contains(w) <==> votes[term][voter].len() > 1 && w
        == double_vote(votes, term, voter) by {
        listing::lemma_at_most_one(votes[term][voter].len() > 1, double_vote(votes, term, voter), w);
    }
    if exists|voter: NodeId| #[trigger] voters.contains(voter) && f(voter).contains(v) {
        let voter = choose|voter: NodeId| #[trigger] voters.contains(voter) && f(voter).contains(v);
        assert(voted_twice(votes, term, voter));
    }
    if exists|voter: NodeId| #[trigger] voted_twice(votes, term, voter) && v == double_vote(votes, term, voter) {
        let voter = choose|voter: NodeId| #[trigger]
            voted_twice(votes, term, voter) && v == double_vote(votes, term, voter);
        assert(voters.contains(voter) && f(voter).contains(v));
    }
    listing::lemma_members_once(voters, f);
}

/// Vote safety is violated by exactly the nodes that have voted for more than one
/// candidate in a term. Each is reported once for the term, with the candidates in
/// ascending order.
pub proof fn vote_safety_reports(votes: Map<u64, Map<NodeId, Set<NodeId>>>, v: ViolationView)
    requires
        invariants::finitely_many_votes(votes),
    ensures
        invariants::vote_violations(votes).contains(v) <==> exists|term: u64, voter: NodeId| #[trigger]
            voted_twice(votes, term, voter) && v == double_vote(votes, term, voter),
        invariants::vote_violations(votes).no_duplicates(),
{
    let f = invariants::double_votes_by_term(votes);
    listing::lemma_members_contain(votes.dom(), f, v);
    if invariants::vote_violations(votes).contains(v) {
        let term = choose|term: u64| #[trigger] votes.dom().contains(term) && f(term).contains(v);
        assert(votes.contains_key(term));
        lemma_double_votes_in(votes, term, v);
    }
    if exists|term: u64, voter: NodeId| #[trigger]
        voted_twice(votes, term, voter) && v == double_vote(votes, term, voter) {
        let (term, voter) = choose|term: u64, voter: NodeId| #[trigger]
            voted_twice(votes, term, voter) && v == double_vote(votes, term, voter);
        lemma_double_votes_in(votes, term, v);
        assert(votes.dom().contains(term) && f(term).contains(v));
    }
    assert forall|term: u64| #[trigger] votes.dom().contains(term) implies f(term).no_duplicates() by {
        assert(votes.contains_key(term));
        lemma_double_votes_in(votes, term, v);
    }
    assert forall|x: u64, y: u64| #[trigger] votes.dom().contains(x) && #[trigger] votes.dom().contains(y) && x
        != y implies listing::disjoint(f(x), f(y)) by {
        assert(votes.contains_key(x) && votes.contains_key(y));
        assert forall|w: ViolationView| !(#[trigger] f(x).contains(w) && f(y).contains(w)) by {
            lemma_double_votes_in(votes, x, w);
            lemma_double_votes_in(votes, y, w);
        }
    }
    listing::lemma_members_once(votes.dom(), f);
}

/// A second vote in a term for another candidate is reported, with both candidates,
/// however many nodes and terms were recorded before and between.
pub proof fn second_vote_is_reported(
    votes: Map<u64, Map<NodeId, Set<NodeId>>>,
    term: u64,
    voter: NodeId,
    first: NodeId,
    second: NodeId,
)
    requires
        invariants::finitely_many_votes(votes),
        votes.contains_key(term),
        votes[term].contains_key(voter),
        votes[term][voter].contains(first),
        first != second,
    ensures
        exists|candidates: Seq<NodeId>|
            candidates.contains(first) && candidates.contains(second) && #[trigger] invariants::vote_violations(
                invariants::with_vote(votes, term, voter, second),
            ).contains(ViolationView::MultipleVotesInTerm { voter, term, candidates }),
{
    let after = invariants::with_vote(votes, term, voter, second);
    let candidates = after[term][voter];
    assert(invariants::finitely_many_votes(after)) by {
        assert forall|t: u64| #[trigger] after.contains_key(t) implies after[t].dom().finite() by {
            assert(votes.contains_key(t));
        }
        assert forall|t: u64, w: NodeId|
            after.contains_key(t) && #[trigger] after[t].contains_key(w) implies after[t][w].finite() by {
            assert(votes.contains_key(t) && votes[t].contains_key(w));
        }
    }
    assert(candidates.contains(first) && candidates.contains(second));
    assert(candidates.len() > 1) by {
        assert(candidates.remove(first).contains(second));
        if candidates.remove(first).len() == 0 {
            candidates.remove(first).lemma_len0_is_empty();
        }
    }
    assert(voted_twice(after, term, voter));
    ordered::lemma_ascending(candidates);
    let listed = ordered::ascending(candidates);
    assert(listed.contains(first) && listed.contains(second));
    vote_safety_reports(after, double_vote(after, term, voter));
}

// ---------------------------------------------------------------------------
// All recorded state
// ---------------------------------------------------------------------------

/// Whether what was recorded is safe: no term has two leaders, no entries conflict
/// that two nodes have committed at one index, no two nodes that have applied as much
/// hold different data, and no node has voted twice in a term.
pub open spec fn records_agree(
    leaders: Map<u64, Set<NodeId>>,
    states: Map<NodeId, NodeStateSnapshot>,
    votes: Map<u64, Map<NodeId, Set<NodeId>>>,
) -> bool {
    &&& forall|term: u64| #[trigger] leaders.contains_key(term) ==> leaders[term].len() <= 1
    &&& forall|node_a: NodeId, node_b: NodeId, index: u64| !(#[trigger] logs_conflict(states, node_a, node_b, index))
    &&& forall|node_a: NodeId, node_b: NodeId| !(#[trigger] machines_conflict(states, node_a, node_b))
    &&& forall|term: u64, voter: NodeId| !(#[trigger] voted_twice(votes, term, voter))
}

/// The check of all that was recorded passes exactly when the record is safe, and
/// reports nothing twice.
pub proof fn recorded_check_decides(
    leaders: Map<u64, Set<NodeId>>,
    states: Map<NodeId, NodeStateSnapshot>,
    votes: Map<u64, Map<NodeId, Set<NodeId>>>,
)
    requires
        leaders.dom().finite(),
        states.dom().finite(),
        invariants::finitely_many_votes(votes),
    ensures
        invariants::recorded_violations(leaders, states, votes).len() == 0 <==> records_agree(leaders, states, votes),
        invariants::recorded_violations(leaders, states, votes).no_duplicates(),
{
    let elections = invariants::election_violations(leaders);
    let logs = invariants::log_mismatches(states);
    let machines = invariants::node_divergences(states);
    let double_votes = invariants::vote_violations(votes);
    assert forall|w: ViolationView| #[trigger] elections.contains(w) implies w is MultipleLeadersInTerm by {
        election_safety_reports(leaders, w);
    }
    assert forall|w: ViolationView| #[trigger] logs.contains(w) implies w is LogMismatch by {
        log_matching_reports(states, w);
    }
    assert forall|w: ViolationView| #[trigger] machines.contains(w) implies w is StateMachineDivergence by {
        state_machine_safety_reports(states, w);
    }
    assert forall|w: ViolationView| #[trigger] double_votes.contains(w) implies w is MultipleVotesInTerm by {
        vote_safety_reports(votes, w);
    }
    let any = ViolationView::MultipleLeadersInTerm { term: 0, leaders: Seq::empty() };
    election_safety_reports(leaders, any);
    log_matching_reports(states, any);
    state_machine_safety_reports(states, any);
    vote_safety_reports(votes, any);
    listing::lemma_concat_once(elections, logs);
    assert forall|w: ViolationView| !(#[trigger] (elections + logs).contains(w) && machines.contains(w)) by {
        listing::lemma_concat_contains(elections, logs, w);
    }
    listing::lemma_concat_once(elections + logs, machines);
    assert forall|w: ViolationView| !(#[trigger] (elections + logs + machines).contains(w) && double_votes.contains(
        w,
    )) by {
        listing::lemma_concat_contains(elections, logs, w);
        listing::lemma_concat_contains(elections + logs, machines, w);
    }
    listing::lemma_concat_once(elections + logs + machines, double_votes);
    if elections.len() > 0 {
        election_safety_reports(leaders, elections[0]);
        assert(elections.contains(elections[0]));
    }
    if logs.len() > 0 {
        log_matching_reports(states, logs[0]);
        assert(logs.contains(logs[0]));
    }
    if machines.len() > 0 {
        state_machine_safety_reports(states, machines[0]);
        assert(machines.contains(machines[0]));
    }
    if double_votes.len() > 0 {
        vote_safety_reports(votes, double_votes[0]);
        assert(double_votes.contains(double_votes[0]));
    }
    if exists|term: u64| #[trigger] leaders.contains_key(term) && leaders[term].len() > 1 {
        let term = choose|term: u64| #[trigger] leaders.contains_key(term) && leaders[term].len() > 1;
        election_safety_reports(leaders, conflict(leaders, term));
    }
    if exists|node_a: NodeId, node_b: NodeId, index: u64| #[trigger] logs_conflict(states, node_a, node_b, index) {
        let (node_a, node_b, index) = choose|node_a: NodeId, node_b: NodeId, index: u64| #[trigger]
            logs_conflict(states, node_a, node_b, index);
        log_matching_reports(states, mismatch(states, node_a, node_b, index));
    }
    if exists|node_a: NodeId, node_b: NodeId| #[trigger] machines_conflict(states, node_a, node_b) {
        let (node_a, node_b) = choose|node_a: NodeId, node_b: NodeId| #[trigger] machines_conflict(states, node_a, node_b);
        state_machine_safety_reports(states, split(states, node_a, node_b));
    }
    if exists|term: u64, voter: NodeId| #[trigger] voted_twice(votes, term, voter) {
        let (term, voter) = choose|term: u64, voter: NodeId| #[trigger] voted_twice(votes, term, voter);
        vote_safety_reports(votes, double_vote(votes, term, voter));
    }
}

// ---------------------------------------------------------------------------
// What the checks decide, in terms of what was recorded
// ---------------------------------------------------------------------------

/// The entry that counts for an index is the last one that a log holds of it.
proof fn lemma_last_entry_counts(s: NodeStateSnapshot, at: int)
    requires
        0 <= at < s.log@.len(),
        s.log@[at].index <= s.commit_index,
        forall|k: int| at < k < s.log@.len() ==> (#[trigger] s.log@[k]).index != s.log@[at].index,
    ensures
        invariants::node_entries(s).contains_key(s.log@[at].index),
        invariants::node_entries(s)[s.log@[at].index] == s.log@[at],
{
    let index = s.log@[at].index;
    committed_entries_are_committed(s.log@, s.commit_index, index);
    let i = choose|i: int|
        0 <= i < s.log@.len() && (#[trigger] s.log@[i]).index == index && invariants::committed_entries(
            s.log@,
            s.commit_index,
        )[index] == s.log@[i] && (forall|j: int| i < j < s.log@.len() ==> (#[trigger] s.log@[j]).index != index);
    assert(i == at);
}

/// The place of the entry that counts for an index.
proof fn lemma_counted_entry_is_last(s: NodeStateSnapshot, index: u64) -> (at: int)
    requires
        invariants::node_entries(s).contains_key(index),
    ensures
        0 <= at < s.log@.len(),
        s.log@[at].index == index,
        index <= s.commit_index,
        forall|k: int| at < k < s.log@.len() ==> (#[trigger] s.log@[k]).index != index,
        invariants::node_entries(s)[index] == s.log@[at],
{
    committed_entries_are_committed(s.log@, s.commit_index, index);
    choose|i: int|
        0 <= i < s.log@.len() && (#[trigger] s.log@[i]).index == index && invariants::committed_entries(
            s.log@,
            s.commit_index,
        )[index] == s.log@[i] && (forall|j: int| i < j < s.log@.len() ==> (#[trigger] s.log@[j]).index != index)
}

/// Where no log mismatch is reported, any two nodes have the same term at any index that
/// each has committed by its own commit index. `p` and `q` are the places of the last
/// entries with that index.
pub proof fn unreported_terms_agree(
    states: Map<NodeId, NodeStateSnapshot>,
    node_a: NodeId,
    node_b: NodeId,
    p: int,
    q: int,
)
    requires
        states.dom().finite(),
        invariants::log_mismatches(states).len() == 0,
        states.contains_key(node_a),
        states.contains_key(node_b),
        0 <= p < states[node_a].log@.len(),
        0 <= q < states[node_b].log@.len(),
        states[node_a].log@[p].index == states[node_b].log@[q].index,
        states[node_a].log@[p].index <= states[node_a].commit_index,
        states[node_b].log@[q].index <= states[node_b].commit_index,
        forall|k: int|
            p < k < states[node_a].log@.len() ==> (#[trigger] states[node_a].log@[k]).index
                != states[node_a].log@[p].index,
        forall|k: int|
            q < k < states[node_b].log@.len() ==> (#[trigger] states[node_b].log@[k]).index
                != states[node_b].log@[q].index,
    ensures
        states[node_a].log@[p].term == states[node_b].log@[q].term,
{
    if states[node_a].log@[p].term != states[node_b].log@[q].term {
        if node_a < node_b {
            term_conflict_is_reported(states, node_a, node_b, p, q);
        } else if node_b < node_a {
            term_conflict_is_reported(states, node_b, node_a, q, p);
        } else {
            assert(states[node_a].log@[p].index == states[node_b].log@[q].index);
            assert(p == q) by {
                if p < q {
                    assert(states[node_a].log@[q].index != states[node_a].log@[p].index);
                }
                if q < p {
                    assert(states[node_b].log@[p].index != states[node_b].log@[q].index);
                }
            }
        }
    }
}

/// Different terms of two nodes at an index that each has committed by its own commit
/// index are reported, with both nodes, the smaller number first, and both terms. No
/// later entry has to be shared, and the commit indexes need not be equal.
pub proof fn term_conflict_is_reported(
    states: Map<NodeId, NodeStateSnapshot>,
    node_a: NodeId,
    node_b: NodeId,
    p: int,
    q: int,
)
    requires
        states.dom().finite(),
        states.contains_key(node_a),
        states.contains_key(node_b),
        node_a < node_b,
        0 <= p < states[node_a].log@.len(),
        0 <= q < states[node_b].log@.len(),
        states[node_a].log@[p].index == states[node_b].log@[q].index,
        states[node_a].log@[p].index <= states[node_a].commit_index,
        states[node_b].log@[q].index <= states[node_b].commit_index,
        forall|k: int|
            p < k < states[node_a].log@.len() ==> (#[trigger] states[node_a].log@[k]).index
                != states[node_a].log@[p].index,
        forall|k: int|
            q < k < states[node_b].log@.len() ==> (#[trigger] states[node_b].log@[k]).index
                != states[node_b].log@[q].index,
        states[node_a].log@[p].term != states[node_b].log@[q].term,
    ensures
        invariants::log_mismatches(states).contains(
            ViolationView::LogMismatch {
                index: states[node_a].log@[p].index,
                node_a,
                node_b,
                term_a: states[node_a].log@[p].term,
                term_b: states[node_b].log@[q].term,
            },
        ),
{
    let index = states[node_a].log@[p].index;
    lemma_last_entry_counts(states[node_a], p);
    lemma_last_entry_counts(states[node_b], q);
    assert(logs_conflict(states, node_a, node_b, index));
    log_matching_reports(states, mismatch(states, node_a, node_b, index));
}

/// Different data of two nodes at an index that each has committed are reported, if the
/// nodes have committed entries of one later index and one term. The entries stand at
/// the places `p` and `q`, the shared ones at `shared_p` and `shared_q`.
pub proof fn data_conflict_is_reported(
    states: Map<NodeId, NodeStateSnapshot>,
    node_a: NodeId,
    node_b: NodeId,
    p: int,
    q: int,
    shared_p: int,
    shared_q: int,
)
    requires
        states.dom().finite(),
        states.contains_key(node_a),
        states.contains_key(node_b),
        node_a < node_b,
        0 <= p < states[node_a].log@.len(),
        0 <= q < states[node_b].log@.len(),
        0 <= shared_p < states[node_a].log@.len(),
        0 <= shared_q < states[node_b].log@.len(),
        states[node_a].log@[p].index == states[node_b].log@[q].index,
        states[node_a].log@[shared_p].index == states[node_b].log@[shared_q].index,
        states[node_a].log@[shared_p].term == states[node_b].log@[shared_q].term,
        states[node_a].log@[p].index < states[node_a].log@[shared_p].index,
        states[node_a].log@[shared_p].index <= states[node_a].commit_index,
        states[node_b].log@[shared_q].index <= states[node_b].commit_index,
        forall|k: int|
            p < k < states[node_a].log@.len() ==> (#[trigger] states[node_a].log@[k]).index
                != states[node_a].log@[p].index,
        forall|k: int|
            q < k < states[node_b].log@.len() ==> (#[trigger] states[node_b].log@[k]).index
                != states[node_b].log@[q].index,
        forall|k: int|
            shared_p < k < states[node_a].log@.len() ==> (#[trigger] states[node_a].log@[k]).index
                != states[node_a].log@[shared_p].index,
        forall|k: int|
            shared_q < k < states[node_b].log@.len() ==> (#[trigger] states[node_b].log@[k]).index
                != states[node_b].log@[shared_q].index,
        match (states[node_a].log@[p].data, states[node_b].log@[q].data) {
            (Some(x), Some(y)) => x.client_id@ != y.client_id@ || x.serial != y.serial || x.key@ != y.key@ || x.value@
                != y.value@,
            (None, None) => false,
            _ => true,
        },
    ensures
        invariants::log_mismatches(states).contains(
            ViolationView::LogMismatch {
                index: states[node_a].log@[p].index,
                node_a,
                node_b,
                term_a: states[node_a].log@[p].term,
                term_b: states[node_b].log@[q].term,
            },
        ),
{
    let index = states[node_a].log@[p].index;
    lemma_last_entry_counts(states[node_a], p);
    lemma_last_entry_counts(states[node_b], q);
    lemma_last_entry_counts(states[node_a], shared_p);
    lemma_last_entry_counts(states[node_b], shared_q);
    assert(invariants::shares(states[node_a], states[node_b], states[node_a].log@[shared_p].index));
    assert(invariants::shares_behind(states[node_a], states[node_b], index));
    assert(logs_conflict(states, node_a, node_b, index));
    log_matching_reports(states, mismatch(states, node_a, node_b, index));
}

/// A log mismatch is reported only of two nodes whose last entries with this index, which
/// each has committed, have these terms, and have different terms or different data. Where
/// the terms are equal, the nodes have committed entries of one later index and one term.
pub proof fn reported_mismatch_is_one(
    states: Map<NodeId, NodeStateSnapshot>,
    index: u64,
    node_a: NodeId,
    node_b: NodeId,
    term_a: u64,
    term_b: u64,
) -> (places: (int, int))
    requires
        states.dom().finite(),
        invariants::log_mismatches(states).contains(
            ViolationView::LogMismatch { index, node_a, node_b, term_a, term_b },
        ),
    ensures
        states.contains_key(node_a),
        states.contains_key(node_b),
        node_a < node_b,
        index <= states[node_a].commit_index,
        index <= states[node_b].commit_index,
        0 <= places.0 < states[node_a].log@.len(),
        0 <= places.1 < states[node_b].log@.len(),
        states[node_a].log@[places.0].index == index,
        states[node_b].log@[places.1].index == index,
        states[node_a].log@[places.0].term == term_a,
        states[node_b].log@[places.1].term == term_b,
        forall|k: int|
            places.0 < k < states[node_a].log@.len() ==> (#[trigger] states[node_a].log@[k]).index != index,
        forall|k: int|
            places.1 < k < states[node_b].log@.len() ==> (#[trigger] states[node_b].log@[k]).index != index,
        term_a == term_b ==> match (states[node_a].log@[places.0].data, states[node_b].log@[places.1].data) {
            (Some(x), Some(y)) => x.client_id@ != y.client_id@ || x.serial != y.serial || x.key@ != y.key@ || x.value@
                != y.value@,
            (None, None) => false,
            _ => true,
        },
        term_a == term_b ==> exists|x: int, y: int|
            #![trigger states[node_a].log@[x], states[node_b].log@[y]]
            {
                &&& 0 <= x < states[node_a].log@.len()
                &&& 0 <= y < states[node_b].log@.len()
                &&& states[node_a].log@[x].index == states[node_b].log@[y].index
                &&& states[node_a].log@[x].term == states[node_b].log@[y].term
                &&& index < states[node_a].log@[x].index
                &&& states[node_a].log@[x].index <= states[node_a].commit_index
                &&& states[node_b].log@[y].index <= states[node_b].commit_index
            },
{
    let v = ViolationView::LogMismatch { index, node_a, node_b, term_a, term_b };
    log_matching_reports(states, v);
    let (a, b, at) = choose|a: NodeId, b: NodeId, at: u64| #[trigger]
        logs_conflict(states, a, b, at) && v == mismatch(states, a, b, at);
    assert(a == node_a && b == node_b && at == index);
    let p = lemma_counted_entry_is_last(states[node_a], index);
    let q = lemma_counted_entry_is_last(states[node_b], index);
    if term_a == term_b {
        let behind = choose|behind: u64|
            index < behind && #[trigger] invariants::shares(states[node_a], states[node_b], behind);
        let x = lemma_counted_entry_is_last(states[node_a], behind);
        let y = lemma_counted_entry_is_last(states[node_b], behind);
        assert(states[node_a].log@[x].term == states[node_b].log@[y].term);
    }
    (p, q)
}

/// Two nodes that have applied as much and differ in a key or its value are reported, the
/// smaller number first.
pub proof fn recorded_divergence_is_reported(
    states: Map<NodeId, NodeStateSnapshot>,
    node_a: NodeId,
    node_b: NodeId,
    key: Seq<char>,
)
    requires
        states.dom().finite(),
        states.contains_key(node_a),
        states.contains_key(node_b),
        node_a < node_b,
        states[node_a].last_applied == states[node_b].last_applied,
        ({
            let a = states[node_a].state_machine.data@;
            let b = states[node_b].state_machine.data@;
            a.contains_key(key) != b.contains_key(key) || (a.contains_key(key) && a[key]@ != b[key]@)
        }),
    ensures
        invariants::node_divergences(states).contains(
            ViolationView::StateMachineDivergence {
                index: states[node_a].last_applied,
                nodes: seq![node_a, node_b],
            },
        ),
{
    let a = states[node_a].state_machine.data@;
    let b = states[node_b].state_machine.data@;
    if strmap::texts(a) == strmap::texts(b) {
        strmap::equal_texts_are_equal_values(a, b, key);
    }
    assert(machines_conflict(states, node_a, node_b));
    state_machine_safety_reports(states, split(states, node_a, node_b));
}

/// A divergence is reported only of two nodes that have applied up to this index and
/// differ in a key or its value.
pub proof fn reported_recorded_divergence_is_one(
    states: Map<NodeId, NodeStateSnapshot>,
    index: u64,
    nodes: Seq<NodeId>,
) -> (key: Seq<char>)
    requires
        states.dom().finite(),
        invariants::node_divergences(states).contains(ViolationView::StateMachineDivergence { index, nodes }),
    ensures
        nodes.len() == 2,
        nodes[0] < nodes[1],
        states.contains_key(nodes[0]),
        states.contains_key(nodes[1]),
        states[nodes[0]].last_applied == index,
        states[nodes[1]].last_applied == index,
        ({
            let a = states[nodes[0]].state_machine.data@;
            let b = states[nodes[1]].state_machine.data@;
            a.contains_key(key) != b.contains_key(key) || (a.contains_key(key) && a[key]@ != b[key]@)
        }),
{
    let v = ViolationView::StateMachineDivergence { index, nodes };
    state_machine_safety_reports(states, v);
    let (a, b) = choose|a: NodeId, b: NodeId| #[trigger] machines_conflict(states, a, b) && v == split(states, a, b);
    assert(nodes[0] == a && nodes[1] == b);
    strmap::different_texts_differ_somewhere(states[a].state_machine.data@, states[b].state_machine.data@)
}

/// A set of two members or more.
proof fn lemma_two_members(s: Set<NodeId>, a: NodeId, b: NodeId)
    requires
        s.finite(),
        s.contains(a),
        s.contains(b),
        a != b,
    ensures
        s.len() > 1,
{
    assert(s.remove(a).contains(b));
    if s.remove(a).len() == 0 {
        s.remove(a).lemma_len0_is_empty();
    }
}

/// Two members of a set with more than one.
proof fn lemma_has_two_members(s: Set<NodeId>) -> (two: (NodeId, NodeId))
    requires
        s.finite(),
        s.len() > 1,
    ensures
        s.contains(two.0),
        s.contains(two.1),
        two.0 != two.1,
{
    let a = s.choose();
    let b = s.remove(a).choose();
    assert(s.remove(a).len() > 0);
    (a, b)
}

/// Two leaders that were recorded for a term are reported, in ascending order with all
/// leaders of the term and no one else.
pub proof fn recorded_rivals_are_reported(leaders: Map<u64, Set<NodeId>>, term: u64, a: NodeId, b: NodeId) -> (listed:
    Seq<NodeId>)
    requires
        leaders.dom().finite(),
        leaders.contains_key(term),
        leaders[term].finite(),
        leaders[term].contains(a),
        leaders[term].contains(b),
        a != b,
    ensures
        invariants::election_violations(leaders).contains(
            ViolationView::MultipleLeadersInTerm { term, leaders: listed },
        ),
        forall|i: int, j: int| 0 <= i < j < listed.len() ==> listed[i] < listed[j],
        forall|x: NodeId| #[trigger] listed.contains(x) <==> leaders[term].contains(x),
{
    lemma_two_members(leaders[term], a, b);
    ordered::lemma_ascending(leaders[term]);
    election_safety_reports(leaders, conflict(leaders, term));
    ordered::ascending(leaders[term])
}

/// Rival leaders are reported only of a term for which two were recorded, and then in
/// ascending order with all leaders of the term and no one else.
pub proof fn reported_rivals_were_recorded(leaders: Map<u64, Set<NodeId>>, term: u64, listed: Seq<NodeId>)
    requires
        leaders.dom().finite(),
        leaders.contains_key(term) ==> leaders[term].finite(),
        invariants::election_violations(leaders).contains(
            ViolationView::MultipleLeadersInTerm { term, leaders: listed },
        ),
    ensures
        leaders.contains_key(term),
        listed.len() >= 2,
        forall|i: int, j: int| 0 <= i < j < listed.len() ==> listed[i] < listed[j],
        forall|x: NodeId| #[trigger] listed.contains(x) <==> leaders[term].contains(x),
{
    let v = ViolationView::MultipleLeadersInTerm { term, leaders: listed };
    election_safety_reports(leaders, v);
    let at = choose|at: u64| #[trigger]
        leaders.contains_key(at) && leaders[at].len() > 1 && v == conflict(leaders, at);
    assert(at == term);
    ordered::lemma_ascending(leaders[term]);
    let (x, y) = lemma_has_two_members(leaders[term]);
    assert(listed.contains(x) && listed.contains(y));
    let i = choose|i: int| 0 <= i < listed.len() && listed[i] == x;
    let j = choose|j: int| 0 <= j < listed.len() && listed[j] == y;
    assert(i != j);
}

/// Two votes of a node in a term are reported, in ascending order with all that the node
/// voted for in the term and no one else.
pub proof fn two_votes_are_reported(
    votes: Map<u64, Map<NodeId, Set<NodeId>>>,
    term: u64,
    voter: NodeId,
    a: NodeId,
    b: NodeId,
) -> (listed: Seq<NodeId>)
    requires
        invariants::finitely_many_votes(votes),
        votes.contains_key(term),
        votes[term].contains_key(voter),
        votes[term][voter].contains(a),
        votes[term][voter].contains(b),
        a != b,
    ensures
        invariants::vote_violations(votes).contains(
            ViolationView::MultipleVotesInTerm { voter, term, candidates: listed },
        ),
        forall|i: int, j: int| 0 <= i < j < listed.len() ==> listed[i] < listed[j],
        forall|x: NodeId| #[trigger] listed.contains(x) <==> votes[term][voter].contains(x),
{
    lemma_two_members(votes[term][voter], a, b);
    ordered::lemma_ascending(votes[term][voter]);
    assert(voted_twice(votes, term, voter));
    vote_safety_reports(votes, double_vote(votes, term, voter));
    ordered::ascending(votes[term][voter])
}

/// A double vote is reported only of a node with two votes in the term, and then in
/// ascending order with all that the node voted for and no one else.
pub proof fn reported_double_vote_was_recorded(
    votes: Map<u64, Map<NodeId, Set<NodeId>>>,
    term: u64,
    voter: NodeId,
    listed: Seq<NodeId>,
)
    requires
        invariants::finitely_many_votes(votes),
        invariants::vote_violations(votes).contains(
            ViolationView::MultipleVotesInTerm { voter, term, candidates: listed },
        ),
    ensures
        votes.contains_key(term),
        votes[term].contains_key(voter),
        listed.len() >= 2,
        forall|i: int, j: int| 0 <= i < j < listed.len() ==> listed[i] < listed[j],
        forall|x: NodeId| #[trigger] listed.contains(x) <==> votes[term][voter].contains(x),
{
    let v = ViolationView::MultipleVotesInTerm { voter, term, candidates: listed };
    vote_safety_reports(votes, v);
    let (t, w) = choose|t: u64, w: NodeId| #[trigger] voted_twice(votes, t, w) && v == double_vote(votes, t, w);
    assert(t == term && w == voter);
    ordered::lemma_ascending(votes[term][voter]);
    let (x, y) = lemma_has_two_members(votes[term][voter]);
    assert(listed.contains(x) && listed.contains(y));
    let i = choose|i: int| 0 <= i < listed.len() && listed[i] == x;
    let j = choose|j: int| 0 <= j < listed.len() && listed[j] == y;
    assert(i != j);
}

/// A vote that is added is on the record afterwards, together with all earlier votes and
/// nothing else.
pub proof fn votes_are_kept(
    votes: Map<u64, Map<NodeId, Set<NodeId>>>,
    term: u64,
    voter: NodeId,
    candidate: NodeId,
    t: u64,
    w: NodeId,
    c: NodeId,
)
    ensures
        ({
            let after = invariants::with_vote(votes, term, voter, candidate);
            let was = votes.contains_key(t) && votes[t].contains_key(w) && votes[t][w].contains(c);
            let is = after.contains_key(t) && after[t].contains_key(w) && after[t][w].contains(c);
            is <==> was || (t == term && w == voter && c == candidate)
        }),
{
}

/// The checks of what was recorded are the four of them, in this order, and nothing else
/// is reported.
pub proof fn recorded_violations_are_those_of_all_checks(
    leaders: Map<u64, Set<NodeId>>,
    states: Map<NodeId, NodeStateSnapshot>,
    votes: Map<u64, Map<NodeId, Set<NodeId>>>,
    v: ViolationView,
)
    requires
        leaders.dom().finite(),
        states.dom().finite(),
        invariants::finitely_many_votes(votes),
    ensures
        invariants::recorded_violations(leaders, states, votes).contains(v) <==> match v {
            ViolationView::MultipleLeadersInTerm { .. } => invariants::election_violations(leaders).contains(v),
            ViolationView::LogMismatch { .. } => invariants::log_mismatches(states).contains(v),
            ViolationView::StateMachineDivergence { .. } => invariants::node_divergences(states).contains(v),
            ViolationView::MultipleVotesInTerm { .. } => invariants::vote_violations(votes).contains(v),
            ViolationView::LeaderMissingCommitted { .. } => false,
        },
{
    let elections = invariants::election_violations(leaders);
    let logs = invariants::log_mismatches(states);
    let machines = invariants::node_divergences(states);
    let double_votes = invariants::vote_violations(votes);
    listing::lemma_concat_contains(elections, logs, v);
    listing::lemma_concat_contains(elections + logs, machines, v);
    listing::lemma_concat_contains(elections + logs + machines, double_votes, v);
    election_safety_reports(leaders, v);
    log_matching_reports(states, v);
    state_machine_safety_reports(states, v);
    vote_safety_reports(votes, v);
}

/// The values that the nodes give a key are counted as they are: a value counts if some
/// node holds it for the key.
pub proof fn values_of_a_key_are_held(states: Map<NodeId, NodeStateSnapshot>, key: Seq<char>, value: Seq<char>)
    ensures
        invariants::values_of_key(states, key).contains(value) <==> exists|id: NodeId|
            #![trigger states[id]]
            states.contains_key(id) && states[id].state_machine.data@.contains_key(key)
                && states[id].state_machine.data@[key]@ == value,
{
}

/// Whether a violation is reported before another: rival leaders come first, by term, then
/// log mismatches, by their nodes and index, then divergences, by their nodes, and then double
/// votes, by term and voter.
pub open spec fn is_reported_before(v: ViolationView, w: ViolationView) -> bool {
    match v {
        ViolationView::MultipleLeadersInTerm { term, .. } => match w {
            ViolationView::MultipleLeadersInTerm { term: other, .. } => term < other,
            _ => true,
        },
        ViolationView::LogMismatch { index, node_a, node_b, .. } => match w {
            ViolationView::MultipleLeadersInTerm { .. } => false,
            ViolationView::LogMismatch { index: k, node_a: a, node_b: b, .. } => node_a < a || (node_a == a && (node_b
                < b || (node_b == b && index < k))),
            _ => true,
        },
        ViolationView::StateMachineDivergence { nodes, .. } => match w {
            ViolationView::StateMachineDivergence { nodes: others, .. } => nodes[0] < others[0] || (nodes[0]
                == others[0] && nodes[1] < others[1]),
            ViolationView::MultipleVotesInTerm { .. } => true,
            _ => false,
        },
        ViolationView::MultipleVotesInTerm { voter, term, .. } => match w {
            ViolationView::MultipleVotesInTerm { voter: other, term: t, .. } => term < t || (term == t && voter < other),
            _ => false,
        },
        ViolationView::LeaderMissingCommitted { .. } => false,
    }
}

/// What is wrong in what was recorded is reported in a fixed order.
pub proof fn recorded_violations_are_in_order(
    leaders: Map<u64, Set<NodeId>>,
    states: Map<NodeId, NodeStateSnapshot>,
    votes: Map<u64, Map<NodeId, Set<NodeId>>>,
    p: int,
    q: int,
)
    requires
        leaders.dom().finite(),
        states.dom().finite(),
        invariants::finitely_many_votes(votes),
        0 <= p < q < invariants::recorded_violations(leaders, states, votes).len(),
    ensures
        is_reported_before(
            invariants::recorded_violations(leaders, states, votes)[p],
            invariants::recorded_violations(leaders, states, votes)[q],
        ),
{
    let before = |v: ViolationView, w: ViolationView| is_reported_before(v, w);
    let elections = invariants::election_violations(leaders);
    let logs = invariants::log_mismatches(states);
    let machines = invariants::node_divergences(states);
    let double_votes = invariants::vote_violations(votes);
    lemma_elections_in_order(leaders);
    lemma_logs_in_order(states);
    lemma_machines_in_order(states);
    lemma_votes_in_order(votes);
    assert forall|w: ViolationView| #[trigger] elections.contains(w) implies w is MultipleLeadersInTerm by {
        election_safety_reports(leaders, w);
    }
    assert forall|w: ViolationView| #[trigger] logs.contains(w) implies w is LogMismatch by {
        log_matching_reports(states, w);
    }
    assert forall|w: ViolationView| #[trigger] machines.contains(w) implies w is StateMachineDivergence by {
        state_machine_safety_reports(states, w);
    }
    assert forall|w: ViolationView| #[trigger] double_votes.contains(w) implies w is MultipleVotesInTerm by {
        vote_safety_reports(votes, w);
    }
    listing::lemma_concat_in_order(elections, logs, before);
    assert forall|x: ViolationView, y: ViolationView| #[trigger] (elections + logs).contains(x)
        && #[trigger] machines.contains(y) implies before(x, y) by {
        listing::lemma_concat_contains(elections, logs, x);
    }
    listing::lemma_concat_in_order(elections + logs, machines, before);
    assert forall|x: ViolationView, y: ViolationView| #[trigger] (elections + logs + machines).contains(x)
        && #[trigger] double_votes.contains(y) implies before(x, y) by {
        listing::lemma_concat_contains(elections, logs, x);
        listing::lemma_concat_contains(elections + logs, machines, x);
    }
    listing::lemma_concat_in_order(elections + logs + machines, double_votes, before);
    let all = invariants::recorded_violations(leaders, states, votes);
    assert(before(all[p], all[q]));
}

proof fn lemma_elections_in_order(leaders: Map<u64, Set<NodeId>>)
    requires
        leaders.dom().finite(),
    ensures
        listing::in_order(
            invariants::election_violations(leaders),
            |v: ViolationView, w: ViolationView| is_reported_before(v, w),
        ),
{
    let before = |v: ViolationView, w: ViolationView| is_reported_before(v, w);
    let f = invariants::conflict_by_term(leaders);
    assert forall|x: u64, y: u64| #[trigger] leaders.dom().contains(x) && #[trigger] leaders.dom().contains(y) && x
        < y implies listing::all_before(f(x), f(y), before) by {
        assert forall|v: ViolationView, w: ViolationView| #[trigger] f(x).contains(v) && #[trigger] f(y).contains(
            w,
        ) implies before(v, w) by {
            listing::lemma_at_most_one(leaders[x].len() > 1, conflict(leaders, x), v);
            listing::lemma_at_most_one(leaders[y].len() > 1, conflict(leaders, y), w);
        }
    }
    listing::lemma_members_in_order(leaders.dom(), f, before);
}

proof fn lemma_logs_in_order(states: Map<NodeId, NodeStateSnapshot>)
    requires
        states.dom().finite(),
    ensures
        listing::in_order(
            invariants::log_mismatches(states),
            |v: ViolationView, w: ViolationView| is_reported_before(v, w),
        ),
{
    let before = |v: ViolationView, w: ViolationView| is_reported_before(v, w);
    let ids = ordered::ascending(states.dom());
    let n = ids.len() as int;
    let f = invariants::mismatches_by_place(states, ids);
    ordered::lemma_ascending(states.dom());
    assert forall|i: int, j: int| 0 <= i < j < n implies listing::in_order(#[trigger] f(i, j), before) by {
        lemma_node_mismatches_in_order(states, ids[i], ids[j]);
    }
    assert forall|i: int, j: int, k: int, l: int, x: ViolationView, y: ViolationView|
        0 <= i < j < n && 0 <= k < l < n && (i < k || (i == k && j < l)) && #[trigger] listing::pair_has(f, i, j, x)
            && #[trigger] listing::pair_has(f, k, l, y) implies before(x, y) by {
        lemma_node_mismatches(states, ids[i], ids[j], x);
        lemma_node_mismatches(states, ids[k], ids[l], y);
        if i < k {
            assert(ids[i] < ids[k]);
        } else {
            assert(ids[j] < ids[l]);
        }
    }
    listing::lemma_each_pair_in_order(f, n, before);
}

proof fn lemma_node_mismatches_in_order(states: Map<NodeId, NodeStateSnapshot>, node_a: NodeId, node_b: NodeId)
    ensures
        listing::in_order(
            invariants::node_mismatches(states, node_a, node_b),
            |v: ViolationView, w: ViolationView| is_reported_before(v, w),
        ),
{
    let before = |v: ViolationView, w: ViolationView| is_reported_before(v, w);
    let a = states[node_a];
    let b = states[node_b];
    let indexes = invariants::node_entries(a).dom();
    let f = invariants::mismatch_by_index(states, node_a, node_b);
    lemma_committed_entries_finite(a.log@, a.commit_index);
    assert forall|x: u64, y: u64| #[trigger] indexes.contains(x) && #[trigger] indexes.contains(y) && x
        < y implies listing::all_before(f(x), f(y), before) by {
        assert forall|v: ViolationView, w: ViolationView| #[trigger] f(x).contains(v) && #[trigger] f(y).contains(
            w,
        ) implies before(v, w) by {
            listing::lemma_at_most_one(
                invariants::entries_conflict(a, b, x),
                mismatch(states, node_a, node_b, x),
                v,
            );
            listing::lemma_at_most_one(
                invariants::entries_conflict(a, b, y),
                mismatch(states, node_a, node_b, y),
                w,
            );
        }
    }
    listing::lemma_members_in_order(indexes, f, before);
}

proof fn lemma_machines_in_order(states: Map<NodeId, NodeStateSnapshot>)
    requires
        states.dom().finite(),
    ensures
        listing::in_order(
            invariants::node_divergences(states),
            |v: ViolationView, w: ViolationView| is_reported_before(v, w),
        ),
{
    let before = |v: ViolationView, w: ViolationView| is_reported_before(v, w);
    let ids = ordered::ascending(states.dom());
    let n = ids.len() as int;
    let f = invariants::divergence_by_place(states, ids);
    ordered::lemma_ascending(states.dom());
    assert forall|i: int, j: int, k: int, l: int, x: ViolationView, y: ViolationView|
        0 <= i < j < n && 0 <= k < l < n && (i < k || (i == k && j < l)) && #[trigger] listing::pair_has(f, i, j, x)
            && #[trigger] listing::pair_has(f, k, l, y) implies before(x, y) by {
        lemma_node_divergence(states, ids[i], ids[j], x);
        lemma_node_divergence(states, ids[k], ids[l], y);
        if i < k {
            assert(ids[i] < ids[k]);
        } else {
            assert(ids[j] < ids[l]);
        }
    }
    listing::lemma_each_pair_in_order(f, n, before);
}

proof fn lemma_votes_in_order(votes: Map<u64, Map<NodeId, Set<NodeId>>>)
    requires
        invariants::finitely_many_votes(votes),
    ensures
        listing::in_order(
            invariants::vote_violations(votes),
            |v: ViolationView, w: ViolationView| is_reported_before(v, w),
        ),
{
    let before = |v: ViolationView, w: ViolationView| is_reported_before(v, w);
    let f = invariants::double_votes_by_term(votes);
    assert forall|term: u64| #[trigger] votes.dom().contains(term) implies listing::in_order(f(term), before) by {
        assert(votes.contains_key(term));
        let voters = votes[term].dom();
        let g = invariants::double_vote_by_voter(votes, term);
        assert forall|x: u64, y: u64| #[trigger] voters.contains(x) && #[trigger] voters.contains(y) && x
            < y implies listing::all_before(g(x), g(y), before) by {
            assert forall|v: ViolationView, w: ViolationView| #[trigger] g(x).contains(v) && #[trigger] g(y).contains(
                w,
            ) implies before(v, w) by {
                listing::lemma_at_most_one(votes[term][x].len() > 1, double_vote(votes, term, x), v);
                listing::lemma_at_most_one(votes[term][y].len() > 1, double_vote(votes, term, y), w);
            }
        }
        listing::lemma_members_in_order(voters, g, before);
    }
    assert forall|x: u64, y: u64| #[trigger] votes.dom().contains(x) && #[trigger] votes.dom().contains(y) && x
        < y implies listing::all_before(f(x), f(y), before) by {
        assert(votes.contains_key(x) && votes.contains_key(y));
        assert forall|v: ViolationView, w: ViolationView| #[trigger] f(x).contains(v) && #[trigger] f(y).contains(
            w,
        ) implies before(v, w) by {
            lemma_double_votes_in(votes, x, v);
            lemma_double_votes_in(votes, y, w);
        }
    }
    listing::lemma_members_in_order(votes.dom(), f, before);
}

} // verus!
