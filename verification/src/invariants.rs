//! Raft invariant checking.
//!
//! This module verifies that Raft invariants hold during and after simulation
//! runs: on what a run recorded, [`InvariantChecker`], and on snapshots of all
//! nodes taken at one moment, [`check_state_invariants`].

use std::collections::BTreeMap;
use vstd::prelude::*;
use vstd::string::*;

use crate::cluster::FullNodeSnapshot;
use crate::listing;
use crate::ordered::IdSet;
use crate::ordered::ascending_keys;
use crate::ordered;
use crate::store::StateMachineData;
use crate::strmap;
use crate::strmap::StringMap;
use crate::text::append_bracketed;
use crate::text::append_decimal;
use crate::text;
use crate::typ::LogId;
use crate::typ::NodeId;
use crate::typ::Request;
use crate::typ::RequestView;
use crate::typ::ServerState;

verus! {

broadcast use vstd::laws_cmp::group_laws_cmp;

// ---------------------------------------------------------------------------
// Violations
// ---------------------------------------------------------------------------

/// Types of invariant violations that can be detected.
#[derive(Debug, Clone)]
pub enum InvariantViolation {
    /// Multiple leaders elected in the same term.
    MultipleLeadersInTerm { term: u64, leaders: Vec<NodeId> },
    /// Log entries at the same index have different terms, or different data before an
    /// entry that both logs share.
    LogMismatch { index: u64, node_a: NodeId, node_b: NodeId, term_a: u64, term_b: u64 },
    /// Different nodes applied different entries at the same index.
    StateMachineDivergence { index: u64, nodes: Vec<NodeId> },
    /// A committed entry is missing from a later leader's log.
    LeaderMissingCommitted { term: u64, leader: NodeId, missing_index: u64 },
    /// Vote was granted to multiple candidates in the same term.
    MultipleVotesInTerm { voter: NodeId, term: u64, candidates: Vec<NodeId> },
}

/// A violation with sequences in place of vectors.
pub enum ViolationView {
    MultipleLeadersInTerm { term: u64, leaders: Seq<NodeId> },
    LogMismatch { index: u64, node_a: NodeId, node_b: NodeId, term_a: u64, term_b: u64 },
    StateMachineDivergence { index: u64, nodes: Seq<NodeId> },
    LeaderMissingCommitted { term: u64, leader: NodeId, missing_index: u64 },
    MultipleVotesInTerm { voter: NodeId, term: u64, candidates: Seq<NodeId> },
}

impl View for InvariantViolation {
    type V = ViolationView;

    open spec fn view(&self) -> ViolationView {
        match *self {
            InvariantViolation::MultipleLeadersInTerm { term, leaders } => ViolationView::MultipleLeadersInTerm {
                term,
                leaders: leaders@,
            },
            InvariantViolation::LogMismatch { index, node_a, node_b, term_a, term_b } => ViolationView::LogMismatch {
                index,
                node_a,
                node_b,
                term_a,
                term_b,
            },
            InvariantViolation::StateMachineDivergence { index, nodes } => ViolationView::StateMachineDivergence {
                index,
                nodes: nodes@,
            },
            InvariantViolation::LeaderMissingCommitted { term, leader, missing_index } => ViolationView::LeaderMissingCommitted {
                term,
                leader,
                missing_index,
            },
            InvariantViolation::MultipleVotesInTerm { voter, term, candidates } => ViolationView::MultipleVotesInTerm {
                voter,
                term,
                candidates: candidates@,
            },
        }
    }
}

/// The views of a list of violations.
pub open spec fn violation_views(violations: Seq<InvariantViolation>) -> Seq<ViolationView> {
    violations.map_values(|v: InvariantViolation| v@)
}

/// How a violation is explained to a reader.
pub open spec fn violation_text(v: ViolationView) -> Seq<char> {
    match v {
        ViolationView::MultipleLeadersInTerm { term, leaders } => "Multiple leaders "@ + text::bracketed(leaders)
            + " in term "@ + text::decimal(term as nat),
        ViolationView::LogMismatch { index, node_a, node_b, term_a, term_b } => "Log mismatch at index "@ + text::decimal(
            index as nat,
        ) + ": node "@ + text::decimal(node_a as nat) + " has term "@ + text::decimal(term_a as nat) + ", node "@ + text::decimal(
            node_b as nat,
        ) + " has term "@ + text::decimal(term_b as nat),
        ViolationView::StateMachineDivergence { index, nodes } => "State machine divergence at index "@ + text::decimal(
            index as nat,
        ) + " across nodes "@ + text::bracketed(nodes),
        ViolationView::LeaderMissingCommitted { term, leader, missing_index } => "Leader "@ + text::decimal(leader as nat)
            + " in term "@ + text::decimal(term as nat) + " missing committed entry at index "@ + text::decimal(
            missing_index as nat,
        ),
        ViolationView::MultipleVotesInTerm { voter, term, candidates } => "Node "@ + text::decimal(voter as nat)
            + " voted for multiple candidates "@ + text::bracketed(candidates) + " in term "@ + text::decimal(term as nat),
    }
}

/// How a violation is written down in crash reports: its name and its fields.
pub open spec fn violation_record(v: ViolationView) -> Seq<char> {
    match v {
        ViolationView::MultipleLeadersInTerm { term, leaders } => "MultipleLeadersInTerm { term: "@ + text::decimal(
            term as nat,
        ) + ", leaders: "@ + text::bracketed(leaders) + " }"@,
        ViolationView::LogMismatch { index, node_a, node_b, term_a, term_b } => "LogMismatch { index: "@ + text::decimal(
            index as nat,
        ) + ", node_a: "@ + text::decimal(node_a as nat) + ", node_b: "@ + text::decimal(node_b as nat) + ", term_a: "@ + text::decimal(
            term_a as nat,
        ) + ", term_b: "@ + text::decimal(term_b as nat) + " }"@,
        ViolationView::StateMachineDivergence { index, nodes } => "StateMachineDivergence { index: "@ + text::decimal(
            index as nat,
        ) + ", nodes: "@ + text::bracketed(nodes) + " }"@,
        ViolationView::LeaderMissingCommitted { term, leader, missing_index } => "LeaderMissingCommitted { term: "@
            + text::decimal(term as nat) + ", leader: "@ + text::decimal(leader as nat) + ", missing_index: "@ + text::decimal(
            missing_index as nat,
        ) + " }"@,
        ViolationView::MultipleVotesInTerm { voter, term, candidates } => "MultipleVotesInTerm { voter: "@ + text::decimal(
            voter as nat,
        ) + ", term: "@ + text::decimal(term as nat) + ", candidates: "@ + text::bracketed(candidates) + " }"@,
    }
}

impl InvariantViolation {
    /// The violation, explained.
    pub fn to_string(&self) -> (text: String)
        ensures
            text@ == violation_text(self@),
    {
        match self {
            InvariantViolation::MultipleLeadersInTerm { term, leaders } => {
                let mut text = String::from_str("Multiple leaders ");
                append_bracketed(&mut text, leaders);
                text.append(" in term ");
                append_decimal(&mut text, *term);
                text
            },
            InvariantViolation::LogMismatch { index, node_a, node_b, term_a, term_b } => {
                let mut text = String::from_str("Log mismatch at index ");
                append_decimal(&mut text, *index);
                text.append(": node ");
                append_decimal(&mut text, *node_a);
                text.append(" has term ");
                append_decimal(&mut text, *term_a);
                text.append(", node ");
                append_decimal(&mut text, *node_b);
                text.append(" has term ");
                append_decimal(&mut text, *term_b);
                text
            },
            InvariantViolation::StateMachineDivergence { index, nodes } => {
                let mut text = String::from_str("State machine divergence at index ");
                append_decimal(&mut text, *index);
                text.append(" across nodes ");
                append_bracketed(&mut text, nodes);
                text
            },
            InvariantViolation::LeaderMissingCommitted { term, leader, missing_index } => {
                let mut text = String::from_str("Leader ");
                append_decimal(&mut text, *leader);
                text.append(" in term ");
                append_decimal(&mut text, *term);
                text.append(" missing committed entry at index ");
                append_decimal(&mut text, *missing_index);
                text
            },
            InvariantViolation::MultipleVotesInTerm { voter, term, candidates } => {
                let mut text = String::from_str("Node ");
                append_decimal(&mut text, *voter);
                text.append(" voted for multiple candidates ");
                append_bracketed(&mut text, candidates);
                text.append(" in term ");
                append_decimal(&mut text, *term);
                text
            },
        }
    }

    /// The violation as it stands in crash reports.
    pub fn to_record(&self) -> (text: String)
        ensures
            text@ == violation_record(self@),
    {
        match self {
            InvariantViolation::MultipleLeadersInTerm { term, leaders } => {
                let mut text = String::from_str("MultipleLeadersInTerm { term: ");
                append_decimal(&mut text, *term);
                text.append(", leaders: ");
                append_bracketed(&mut text, leaders);
                text.append(" }");
                text
            },
            InvariantViolation::LogMismatch { index, node_a, node_b, term_a, term_b } => {
                let mut text = String::from_str("LogMismatch { index: ");
                append_decimal(&mut text, *index);
                text.append(", node_a: ");
                append_decimal(&mut text, *node_a);
                text.append(", node_b: ");
                append_decimal(&mut text, *node_b);
                text.append(", term_a: ");
                append_decimal(&mut text, *term_a);
                text.append(", term_b: ");
                append_decimal(&mut text, *term_b);
                text.append(" }");
                text
            },
            InvariantViolation::StateMachineDivergence { index, nodes } => {
                let mut text = String::from_str("StateMachineDivergence { index: ");
                append_decimal(&mut text, *index);
                text.append(", nodes: ");
                append_bracketed(&mut text, nodes);
                text.append(" }");
                text
            },
            InvariantViolation::LeaderMissingCommitted { term, leader, missing_index } => {
                let mut text = String::from_str("LeaderMissingCommitted { term: ");
                append_decimal(&mut text, *term);
                text.append(", leader: ");
                append_decimal(&mut text, *leader);
                text.append(", missing_index: ");
                append_decimal(&mut text, *missing_index);
                text.append(" }");
                text
            },
            InvariantViolation::MultipleVotesInTerm { voter, term, candidates } => {
                let mut text = String::from_str("MultipleVotesInTerm { voter: ");
                append_decimal(&mut text, *voter);
                text.append(", term: ");
                append_decimal(&mut text, *term);
                text.append(", candidates: ");
                append_bracketed(&mut text, candidates);
                text.append(" }");
                text
            },
        }
    }
}

/// Result of invariant checking.
#[derive(Debug)]
pub struct InvariantCheckResult {
    pub passed: bool,
    pub violations: Vec<InvariantViolation>,
}

impl InvariantCheckResult {
    /// A check that found nothing.
    pub fn ok() -> (result: Self)
        ensures
            result.passed,
            result.violations@.len() == 0,
    {
        InvariantCheckResult { passed: true, violations: Vec::new() }
    }

    /// A check that found these violations; it passed if there are none.
    pub fn with_violations(violations: Vec<InvariantViolation>) -> (result: Self)
        ensures
            result.passed == (violations@.len() == 0),
            result.violations == violations,
    {
        InvariantCheckResult { passed: violations.len() == 0, violations }
    }
}

// ---------------------------------------------------------------------------
// What a run recorded
// ---------------------------------------------------------------------------

/// An entry of a node's log.
#[derive(Debug, Clone)]
pub struct LogEntry {
    pub index: u64,
    pub term: u64,
    pub data: Option<Request>,
}

/// Snapshot of a node's state for invariant checking.
#[derive(Debug, Clone)]
pub struct NodeStateSnapshot {
    pub node_id: NodeId,
    pub current_term: u64,
    pub voted_for: Option<NodeId>,
    pub log: Vec<LogEntry>,
    pub commit_index: u64,
    pub last_applied: u64,
    pub state_machine: StateMachineData,
}

/// Invariant checker that collects and verifies cluster state.
pub struct InvariantChecker {
    node_states: BTreeMap<NodeId, NodeStateSnapshot>,
    /// Votes per term: term -> (voter -> all that it voted for).
    votes_per_term: BTreeMap<u64, BTreeMap<NodeId, IdSet>>,
    /// Leaders per term.
    leaders_per_term: BTreeMap<u64, IdSet>,
}

/// The entry of each index up to `commit` in a log. Of two entries with one index
/// the later one counts.
pub open spec fn committed_entries(log: Seq<LogEntry>, commit: u64) -> Map<u64, LogEntry>
    decreases log.len(),
{
    if log.len() == 0 {
        Map::empty()
    } else {
        let rest = committed_entries(log.drop_last(), commit);
        let entry = log.last();
        if entry.index <= commit {
            rest.insert(entry.index, entry)
        } else {
            rest
        }
    }
}

/// The entries of the committed part of a node's log.
pub open spec fn node_entries(s: NodeStateSnapshot) -> Map<u64, LogEntry> {
    committed_entries(s.log@, s.commit_index)
}

/// The data of an entry, with text in place of strings.
pub open spec fn data_view(data: Option<Request>) -> Option<RequestView> {
    match data {
        Some(request) => Some(request@),
        None => None,
    }
}

/// Whether two nodes have committed entries of the same index and term.
pub open spec fn shares(a: NodeStateSnapshot, b: NodeStateSnapshot, index: u64) -> bool {
    &&& node_entries(a).contains_key(index)
    &&& node_entries(b).contains_key(index)
    &&& node_entries(a)[index].term == node_entries(b)[index].term
}

/// Whether two nodes share a committed entry behind an index.
pub open spec fn shares_behind(a: NodeStateSnapshot, b: NodeStateSnapshot, index: u64) -> bool {
    exists|behind: u64| index < behind && #[trigger] shares(a, b, behind)
}

/// Whether the entries that two nodes have committed at an index conflict: their terms
/// differ, or their data differ although the nodes share an entry behind them.
pub open spec fn entries_conflict(a: NodeStateSnapshot, b: NodeStateSnapshot, index: u64) -> bool {
    &&& node_entries(a).contains_key(index)
    &&& node_entries(b).contains_key(index)
    &&& {
        ||| node_entries(a)[index].term != node_entries(b)[index].term
        ||| data_view(node_entries(a)[index].data) != data_view(node_entries(b)[index].data) && shares_behind(
            a,
            b,
            index,
        )
    }
}

/// The mismatch of two nodes at an index, if there is one.
pub open spec fn mismatch(states: Map<NodeId, NodeStateSnapshot>, node_a: NodeId, node_b: NodeId, index: u64) -> Seq<
    ViolationView,
> {
    if entries_conflict(states[node_a], states[node_b], index) {
        seq![
            ViolationView::LogMismatch {
                index,
                node_a,
                node_b,
                term_a: node_entries(states[node_a])[index].term,
                term_b: node_entries(states[node_b])[index].term,
            },
        ]
    } else {
        Seq::empty()
    }
}

/// The mismatch of two nodes, for each index.
pub open spec fn mismatch_by_index(states: Map<NodeId, NodeStateSnapshot>, node_a: NodeId, node_b: NodeId) -> spec_fn(
    u64,
) -> Seq<ViolationView> {
    |index: u64| mismatch(states, node_a, node_b, index)
}

/// The mismatches between the committed parts of two nodes' logs, by index.
pub open spec fn node_mismatches(
    states: Map<NodeId, NodeStateSnapshot>,
    node_a: NodeId,
    node_b: NodeId,
) -> Seq<ViolationView> {
    listing::each(
        ordered::ascending(node_entries(states[node_a]).dom()),
        mismatch_by_index(states, node_a, node_b),
    )
}

/// The mismatches of two nodes, by their places in a list.
pub open spec fn mismatches_by_place(states: Map<NodeId, NodeStateSnapshot>, ids: Seq<NodeId>) -> spec_fn(
    int,
    int,
) -> Seq<ViolationView> {
    |i: int, j: int| node_mismatches(states, ids[i], ids[j])
}

/// All mismatches between the committed parts of the nodes' logs: pairs of
/// nodes in ascending order, and for each pair the indexes in ascending order.
pub open spec fn log_mismatches(states: Map<NodeId, NodeStateSnapshot>) -> Seq<ViolationView> {
    let ids = ordered::ascending(states.dom());
    listing::each_pair(mismatches_by_place(states, ids), ids.len() as int)
}

/// Whether two nodes have applied as much, with different outcomes.
pub open spec fn outcomes_differ(a: NodeStateSnapshot, b: NodeStateSnapshot) -> bool {
    &&& a.last_applied == b.last_applied
    &&& strmap::texts(a.state_machine.data@) != strmap::texts(b.state_machine.data@)
}

/// The divergence of two nodes, if there is one.
pub open spec fn node_divergence(
    states: Map<NodeId, NodeStateSnapshot>,
    node_a: NodeId,
    node_b: NodeId,
) -> Seq<ViolationView> {
    if outcomes_differ(states[node_a], states[node_b]) {
        seq![
            ViolationView::StateMachineDivergence {
                index: states[node_a].last_applied,
                nodes: seq![node_a, node_b],
            },
        ]
    } else {
        Seq::empty()
    }
}

/// The divergence of two nodes, by their places in a list.
pub open spec fn divergence_by_place(states: Map<NodeId, NodeStateSnapshot>, ids: Seq<NodeId>) -> spec_fn(
    int,
    int,
) -> Seq<ViolationView> {
    |i: int, j: int| node_divergence(states, ids[i], ids[j])
}

/// All divergences between the nodes: pairs of nodes in ascending order.
pub open spec fn node_divergences(states: Map<NodeId, NodeStateSnapshot>) -> Seq<ViolationView> {
    let ids = ordered::ascending(states.dom());
    listing::each_pair(divergence_by_place(states, ids), ids.len() as int)
}

/// The conflict of a term that has more than one leader.
pub open spec fn leader_conflict(leaders: Map<u64, Set<NodeId>>, term: u64) -> Seq<ViolationView> {
    if leaders[term].len() > 1 {
        seq![ViolationView::MultipleLeadersInTerm { term, leaders: ordered::ascending(leaders[term]) }]
    } else {
        Seq::empty()
    }
}

/// The conflict of each term.
pub open spec fn conflict_by_term(leaders: Map<u64, Set<NodeId>>) -> spec_fn(u64) -> Seq<ViolationView> {
    |term: u64| leader_conflict(leaders, term)
}

/// A violation for each term that has more than one leader, by term.
pub open spec fn election_violations(leaders: Map<u64, Set<NodeId>>) -> Seq<ViolationView> {
    listing::each(ordered::ascending(leaders.dom()), conflict_by_term(leaders))
}

/// The violation of a node that has voted for more than one candidate in a term.
pub open spec fn double_vote(votes: Map<u64, Map<NodeId, Set<NodeId>>>, term: u64, voter: NodeId) -> Seq<ViolationView> {
    if votes[term][voter].len() > 1 {
        seq![
            ViolationView::MultipleVotesInTerm { voter, term, candidates: ordered::ascending(votes[term][voter]) },
        ]
    } else {
        Seq::empty()
    }
}

/// The violation of each voter in a term.
pub open spec fn double_vote_by_voter(votes: Map<u64, Map<NodeId, Set<NodeId>>>, term: u64) -> spec_fn(NodeId) -> Seq<
    ViolationView,
> {
    |voter: NodeId| double_vote(votes, term, voter)
}

/// The violations of the voters in a term, by voter.
pub open spec fn double_votes_in(votes: Map<u64, Map<NodeId, Set<NodeId>>>, term: u64) -> Seq<ViolationView> {
    listing::each(ordered::ascending(votes[term].dom()), double_vote_by_voter(votes, term))
}

/// The violations of the voters in each term.
pub open spec fn double_votes_by_term(votes: Map<u64, Map<NodeId, Set<NodeId>>>) -> spec_fn(u64) -> Seq<ViolationView> {
    |term: u64| double_votes_in(votes, term)
}

/// A violation for each node that has voted for more than one candidate in a
/// term, by term and voter.
pub open spec fn vote_violations(votes: Map<u64, Map<NodeId, Set<NodeId>>>) -> Seq<ViolationView> {
    listing::each(ordered::ascending(votes.dom()), double_votes_by_term(votes))
}

/// All that is wrong in what was recorded.
pub open spec fn recorded_violations(
    leaders: Map<u64, Set<NodeId>>,
    states: Map<NodeId, NodeStateSnapshot>,
    votes: Map<u64, Map<NodeId, Set<NodeId>>>,
) -> Seq<ViolationView> {
    election_violations(leaders) + log_mismatches(states) + node_divergences(states) + vote_violations(votes)
}

/// Whether a node's state machine gives a key a value.
pub open spec fn has_value(state: NodeStateSnapshot, key: Seq<char>, value: Seq<char>) -> bool {
    state.state_machine.data@.contains_key(key) && state.state_machine.data@[key]@ == value
}

/// The values that a key has on the nodes.
pub open spec fn values_of_key(states: Map<NodeId, NodeStateSnapshot>, key: Seq<char>) -> Set<Seq<char>> {
    Set::new(|value: Seq<char>| exists|id: NodeId| #[trigger] states.contains_key(id) && has_value(states[id], key, value))
}

/// The values that each key has on the nodes.
spec fn values_of_all(states: Map<NodeId, NodeStateSnapshot>) -> spec_fn(Seq<char>) -> Set<Seq<char>> {
    |key: Seq<char>| values_of_key(states, key)
}

/// The values that each key has on some of the nodes.
spec fn values_of_some(states: Map<NodeId, NodeStateSnapshot>, ids: Seq<NodeId>) -> spec_fn(Seq<char>) -> Set<Seq<char>> {
    |key: Seq<char>|
        Set::new(
            |value: Seq<char>|
                exists|i: int| 0 <= i < ids.len() && has_value(states[#[trigger] ids[i]], key, value),
        )
}

/// The values that each key has on some of the nodes, or in `data` if it is one
/// of `keys`.
spec fn values_with(
    states: Map<NodeId, NodeStateSnapshot>,
    ids: Seq<NodeId>,
    data: Map<Seq<char>, String>,
    keys: Seq<Seq<char>>,
) -> spec_fn(Seq<char>) -> Set<Seq<char>> {
    |key: Seq<char>|
        Set::new(
            |value: Seq<char>|
                values_of_some(states, ids)(key).contains(value) || (keys.contains(key) && data[key]@ == value),
        )
}

/// Whether the groups hold, for each key that has values, these values once.
spec fn groups_values(groups: Map<Seq<char>, Vec<String>>, values: spec_fn(Seq<char>) -> Set<Seq<char>>) -> bool {
    forall|key: Seq<char>|
        #![trigger groups.contains_key(key)]
        #![trigger values(key)]
        if groups.contains_key(key) {
            &&& strmap::text_views(groups[key]@).no_duplicates()
            &&& strmap::text_views(groups[key]@).to_set() == values(key)
        } else {
            values(key) == Set::<Seq<char>>::empty()
        }
}

/// Groups of some values are groups of the same values, however these are put.
proof fn lemma_same_groups(
    groups: Map<Seq<char>, Vec<String>>,
    values: spec_fn(Seq<char>) -> Set<Seq<char>>,
    others: spec_fn(Seq<char>) -> Set<Seq<char>>,
)
    requires
        groups_values(groups, values),
        forall|key: Seq<char>| (#[trigger] values(key)) =~= others(key),
    ensures
        groups_values(groups, others),
{
    assert forall|key: Seq<char>|
        #![trigger groups.contains_key(key)]
        #![trigger others(key)]
        if groups.contains_key(key) {
            &&& strmap::text_views(groups[key]@).no_duplicates()
            &&& strmap::text_views(groups[key]@).to_set() == others(key)
        } else {
            others(key) == Set::<Seq<char>>::empty()
        } by {
        assert(values(key) =~= others(key));
    }
}

/// Seeing one more key adds its value.
proof fn lemma_key_seen(
    states: Map<NodeId, NodeStateSnapshot>,
    ids: Seq<NodeId>,
    data: Map<Seq<char>, String>,
    keys: Seq<Seq<char>>,
    key: Seq<char>,
)
    ensures
        values_with(states, ids, data, keys.push(key))(key) =~= values_with(states, ids, data, keys)(key).insert(
            data[key]@,
        ),
        forall|k: Seq<char>|
            k != key ==> (#[trigger] values_with(states, ids, data, keys.push(key))(k)) =~= values_with(
                states,
                ids,
                data,
                keys,
            )(k),
{
    let more = keys.push(key);
    assert forall|k: Seq<char>| #[trigger] more.contains(k) <==> (keys.contains(k) || k == key) by {
        if keys.contains(k) {
            let i = choose|i: int| 0 <= i < keys.len() && keys[i] == k;
            assert(more[i] == k);
        }
        if k == key {
            assert(more[keys.len() as int] == k);
        }
        if more.contains(k) {
            let i = choose|i: int| 0 <= i < more.len() && more[i] == k;
            if i < keys.len() {
                assert(keys[i] == k);
            }
        }
    }
}

/// With all its keys seen, a node counts among the nodes.
proof fn lemma_node_done(states: Map<NodeId, NodeStateSnapshot>, ids: Seq<NodeId>, id: NodeId, keys: Seq<Seq<char>>)
    requires
        forall|k: Seq<char>| #[trigger] states[id].state_machine.data@.contains_key(k) <==> keys.contains(k),
    ensures
        forall|key: Seq<char>|
            (#[trigger] values_with(states, ids, states[id].state_machine.data@, keys)(key)) =~= values_of_some(
                states,
                ids.push(id),
            )(key),
{
    let data = states[id].state_machine.data@;
    let more = ids.push(id);
    assert forall|key: Seq<char>| (#[trigger] values_with(states, ids, data, keys)(key)) =~= values_of_some(states, more)(
        key,
    ) by {
        let left = values_with(states, ids, data, keys)(key);
        let right = values_of_some(states, more)(key);
        assert forall|value: Seq<char>| left.contains(value) <==> right.contains(value) by {
            if values_of_some(states, ids)(key).contains(value) {
                let i = choose|i: int| 0 <= i < ids.len() && has_value(states[#[trigger] ids[i]], key, value);
                assert(has_value(states[more[i]], key, value));
            }
            if keys.contains(key) && data[key]@ == value {
                assert(data.contains_key(key));
                assert(has_value(states[more[ids.len() as int]], key, value));
            }
            if values_of_some(states, more)(key).contains(value) {
                let i = choose|i: int| 0 <= i < more.len() && has_value(states[#[trigger] more[i]], key, value);
                if i < ids.len() {
                    assert(has_value(states[ids[i]], key, value));
                } else {
                    assert(data.contains_key(key));
                }
            }
        }
    }
}

/// A listing of the nodes has the values of all nodes.
proof fn lemma_all_nodes(states: Map<NodeId, NodeStateSnapshot>, ids: Seq<NodeId>)
    requires
        ordered::lists(ids, states.dom()),
    ensures
        forall|key: Seq<char>| (#[trigger] values_of_some(states, ids)(key)) =~= values_of_all(states)(key),
{
    assert forall|key: Seq<char>| (#[trigger] values_of_some(states, ids)(key)) =~= values_of_all(states)(key) by {
        let left = values_of_some(states, ids)(key);
        let right = values_of_key(states, key);
        assert forall|value: Seq<char>| left.contains(value) <==> right.contains(value) by {
            if values_of_some(states, ids)(key).contains(value) {
                let i = choose|i: int| 0 <= i < ids.len() && has_value(states[#[trigger] ids[i]], key, value);
                assert(ids.contains(ids[i]));
                assert(states.contains_key(ids[i]));
            }
            if values_of_key(states, key).contains(value) {
                let id = choose|id: NodeId| #[trigger] states.contains_key(id) && has_value(states[id], key, value);
                assert(states.dom().contains(id));
                assert(ids.contains(id));
                let i = choose|i: int| 0 <= i < ids.len() && ids[i] == id;
                assert(has_value(states[ids[i]], key, value));
            }
        }
    }
}

/// Adding a value to a key's group groups the values with it.
proof fn lemma_value_added(
    before: Map<Seq<char>, Vec<String>>,
    after: Map<Seq<char>, Vec<String>>,
    values: spec_fn(Seq<char>) -> Set<Seq<char>>,
    more: spec_fn(Seq<char>) -> Set<Seq<char>>,
    key: Seq<char>,
    value: Seq<char>,
)
    requires
        groups_values(before, values),
        value_added(before, after, key, value),
        more(key) =~= values(key).insert(value),
        forall|k: Seq<char>| k != key ==> (#[trigger] more(k)) =~= values(k),
    ensures
        groups_values(after, more),
{
    assert forall|k: Seq<char>|
        #![trigger after.contains_key(k)]
        #![trigger more(k)]
        if after.contains_key(k) {
            &&& strmap::text_views(after[k]@).no_duplicates()
            &&& strmap::text_views(after[k]@).to_set() == more(k)
        } else {
            more(k) == Set::<Seq<char>>::empty()
        } by {
        let old_group = if before.contains_key(key) {
            strmap::text_views(before[key]@)
        } else {
            Seq::empty()
        };
        if k == key {
            let new_group = strmap::text_views(after[key]@);
            assert(old_group.to_set() =~= values(key));
            assert(old_group.no_duplicates());
            if old_group.contains(value) {
                assert(new_group == old_group);
                assert(old_group.to_set().contains(value));
                assert(new_group.to_set() =~= more(key));
            } else {
                assert(new_group == old_group.push(value));
                assert(new_group.no_duplicates());
                assert forall|t: Seq<char>| new_group.to_set().contains(t) <==> more(key).contains(t) by {
                    if new_group.contains(t) {
                        let i = choose|i: int| 0 <= i < new_group.len() && new_group[i] == t;
                        if i < old_group.len() {
                            assert(old_group[i] == t);
                            assert(old_group.to_set().contains(t));
                        }
                    }
                    if values(key).contains(t) {
                        assert(old_group.to_set().contains(t));
                        let i = choose|i: int| 0 <= i < old_group.len() && old_group[i] == t;
                        assert(new_group[i] == t);
                    }
                    assert(new_group[old_group.len() as int] == value);
                }
                assert(new_group.to_set() =~= more(key));
            }
        } else {
            assert(more(k) =~= values(k));
            assert(before.contains_key(k) == after.contains_key(k));
        }
    }
}

/// Whether a value was added to the group of a key, unless it was there.
spec fn value_added(
    before: Map<Seq<char>, Vec<String>>,
    after: Map<Seq<char>, Vec<String>>,
    key: Seq<char>,
    value: Seq<char>,
) -> bool {
    let group = if before.contains_key(key) {
        strmap::text_views(before[key]@)
    } else {
        Seq::empty()
    };
    &&& after.dom() == before.dom().insert(key)
    &&& forall|k: Seq<char>| k != key && before.contains_key(k) ==> #[trigger] after[k] == before[k]
    &&& strmap::text_views(after[key]@) == if group.contains(value) {
        group
    } else {
        group.push(value)
    }
}

/// Adds a value to the group of a key, unless it is there.
fn add_value(groups: &mut StringMap<Vec<String>>, key: &String, value: &String)
    ensures
        value_added(old(groups)@, final(groups)@, key@, value@),
{
    let ghost before = groups@;
    let mut group: Vec<String> = match groups.remove(key) {
        Some(group) => group,
        None => Vec::new(),
    };
    let ghost old_group = strmap::text_views(group@);
    proof {
        if !before.contains_key(key@) {
            assert(old_group =~= Seq::<Seq<char>>::empty());
        }
    }
    let mut known = false;
    let mut i: usize = 0;
    while i < group.len() && !known
        invariant
            i <= group@.len(),
            old_group == strmap::text_views(group@),
            known ==> old_group.contains(value@),
            !known ==> forall|j: int| 0 <= j < i ==> old_group[j] != value@,
        decreases group.len() - i,
    {
        assert(old_group[i as int] == group@[i as int]@);
        if group[i] == *value {
            known = true;
        }
        i = i + 1;
    }
    if !known {
        group.push(value.clone());
        assert(strmap::text_views(group@) =~= old_group.push(value@));
    }
    groups.insert(key.clone(), group);
    assert(groups@.dom() =~= before.dom().insert(key@));
}

/// Whether these are the places of the entries in the committed part of a node's log.
pub open spec fn are_places(places: Map<u64, usize>, s: NodeStateSnapshot) -> bool {
    &&& places.dom() == node_entries(s).dom()
    &&& forall|index: u64| #[trigger]
        places.contains_key(index) ==> places[index] < s.log@.len() && s.log@[places[index] as int] == node_entries(s)[index]
}

/// The places of the entries in the committed part of a node's log.
fn index_entries(s: &NodeStateSnapshot) -> (places: BTreeMap<u64, usize>)
    ensures
        are_places(places@, *s),
{
    let log = &s.log;
    let commit: u64 = s.commit_index;
    let mut places: BTreeMap<u64, usize> = BTreeMap::new();
    let mut i: usize = 0;
    while i < log.len()
        invariant
            i <= log.len(),
            places@.dom() =~= committed_entries(log@.take(i as int), commit).dom(),
            forall|index: u64| #[trigger]
                places@.contains_key(index) ==> places@[index] < log@.len() && log@[places@[index] as int]
                    == committed_entries(log@.take(i as int), commit)[index],
        decreases log.len() - i,
    {
        proof {
            assert(log@.take(i + 1).drop_last() =~= log@.take(i as int));
            assert(log@.take(i + 1).last() == log@[i as int]);
        }
        if log[i].index <= commit {
            places.insert(log[i].index, i);
        }
        i = i + 1;
    }
    assert(log@.take(i as int) =~= log@);
    places
}

/// Whether the data of two entries are the same.
fn same_data(a: &Option<Request>, b: &Option<Request>) -> (same: bool)
    ensures
        same == (data_view(*a) == data_view(*b)),
{
    match (a, b) {
        (Some(x), Some(y)) => x.client_id == y.client_id && x.serial == y.serial && x.key == y.key && x.value == y.value,
        (None, None) => true,
        _ => false,
    }
}

/// Votes with one more of a node in a term.
pub open spec fn with_vote(
    votes: Map<u64, Map<NodeId, Set<NodeId>>>,
    term: u64,
    voter: NodeId,
    candidate: NodeId,
) -> Map<u64, Map<NodeId, Set<NodeId>>> {
    let voters = if votes.contains_key(term) {
        votes[term]
    } else {
        Map::empty()
    };
    let candidates = if voters.contains_key(voter) {
        voters[voter]
    } else {
        Set::empty()
    };
    votes.insert(term, voters.insert(voter, candidates.insert(candidate)))
}

/// Whether the votes are finitely many.
pub open spec fn finitely_many_votes(votes: Map<u64, Map<NodeId, Set<NodeId>>>) -> bool {
    &&& votes.dom().finite()
    &&& forall|term: u64| #[trigger] votes.contains_key(term) ==> votes[term].dom().finite()
    &&& forall|term: u64, voter: NodeId|
        votes.contains_key(term) && #[trigger] votes[term].contains_key(voter) ==> votes[term][voter].finite()
}

impl InvariantChecker {
    /// The snapshots, by node.
    pub closed spec fn states(self) -> Map<NodeId, NodeStateSnapshot> {
        self.node_states@
    }

    /// All that was voted for, by term and voter.
    pub closed spec fn votes(self) -> Map<u64, Map<NodeId, Set<NodeId>>> {
        self.votes_per_term@.map_values(
            |votes: BTreeMap<NodeId, IdSet>| votes@.map_values(|candidates: IdSet| candidates@),
        )
    }

    /// The leaders, by term.
    pub closed spec fn leaders(self) -> Map<u64, Set<NodeId>> {
        self.leaders_per_term@.map_values(|leaders: IdSet| leaders@)
    }

    /// A checker that has recorded nothing.
    pub fn new() -> (checker: Self)
        ensures
            checker.states() == Map::<NodeId, NodeStateSnapshot>::empty(),
            checker.votes() == Map::<u64, Map<NodeId, Set<NodeId>>>::empty(),
            checker.leaders() == Map::<u64, Set<NodeId>>::empty(),
    {
        let checker = InvariantChecker {
            node_states: BTreeMap::new(),
            votes_per_term: BTreeMap::new(),
            leaders_per_term: BTreeMap::new(),
        };
        assert(checker.votes() =~= Map::<u64, Map<NodeId, Set<NodeId>>>::empty());
        assert(checker.leaders() =~= Map::<u64, Set<NodeId>>::empty());
        checker
    }

    /// Add a node's state snapshot, in place of an earlier one, and its vote, beside
    /// earlier ones.
    pub fn add_node_state(&mut self, state: NodeStateSnapshot)
        ensures
            final(self).states() == old(self).states().insert(state.node_id, state),
            final(self).leaders() == old(self).leaders(),
            final(self).votes() == match state.voted_for {
                Some(voted_for) => with_vote(old(self).votes(), state.current_term, state.node_id, voted_for),
                None => old(self).votes(),
            },
    {
        if let Some(voted_for) = state.voted_for {
            let mut votes = match self.votes_per_term.remove(&state.current_term) {
                Some(votes) => votes,
                None => BTreeMap::new(),
            };
            let ghost earlier = votes@;
            let mut candidates = match votes.remove(&state.node_id) {
                Some(candidates) => candidates,
                None => IdSet::new(),
            };
            candidates.insert(voted_for);
            let ghost after = candidates@;
            votes.insert(state.node_id, candidates);
            proof {
                let views = |candidates: IdSet| candidates@;
                assert(votes@.map_values(views) =~= earlier.map_values(views).insert(state.node_id, after));
                let old_votes = old(self).votes();
                let term = state.current_term;
                let voters = if old_votes.contains_key(term) {
                    old_votes[term]
                } else {
                    Map::empty()
                };
                assert(earlier.map_values(views) =~= voters);
            }
            self.votes_per_term.insert(state.current_term, votes);
            assert(self.votes() =~= with_vote(old(self).votes(), state.current_term, state.node_id, voted_for));
        }
        self.node_states.insert(state.node_id, state);
    }

    /// Record that a node became leader in a term.
    pub fn record_leader(&mut self, term: u64, leader: NodeId)
        ensures
            final(self).states() == old(self).states(),
            final(self).votes() == old(self).votes(),
            final(self).leaders() == old(self).leaders().insert(
                term,
                (if old(self).leaders().contains_key(term) {
                    old(self).leaders()[term]
                } else {
                    Set::empty()
                }).insert(leader),
            ),
    {
        let mut leaders = match self.leaders_per_term.remove(&term) {
            Some(leaders) => leaders,
            None => IdSet::new(),
        };
        leaders.insert(leader);
        self.leaders_per_term.insert(term, leaders);
        assert(self.leaders() =~= old(self).leaders().insert(
            term,
            (if old(self).leaders().contains_key(term) {
                old(self).leaders()[term]
            } else {
                Set::empty()
            }).insert(leader),
        ));
    }

    /// Run all invariant checks.
    pub fn check_all(&self) -> (result: InvariantCheckResult)
        ensures
            violation_views(result.violations@) == recorded_violations(self.leaders(), self.states(), self.votes()),
            result.passed == (result.violations@.len() == 0),
            self.leaders().dom().finite(),
            self.states().dom().finite(),
            finitely_many_votes(self.votes()),
    {
        let mut violations: Vec<InvariantViolation> = Vec::new();
        let mut found = self.check_election_safety();
        violations.append(&mut found);
        let mut found = self.check_log_matching();
        violations.append(&mut found);
        let mut found = self.check_state_machine_safety();
        violations.append(&mut found);
        let mut found = self.check_vote_safety();
        violations.append(&mut found);
        assert(violation_views(violations@) =~= recorded_violations(self.leaders(), self.states(), self.votes()));
        InvariantCheckResult::with_violations(violations)
    }

    /// INVARIANT: Election Safety.
    /// At most one leader can be elected in a given term.
    pub fn check_election_safety(&self) -> (violations: Vec<InvariantViolation>)
        ensures
            violation_views(violations@) == election_violations(self.leaders()),
            self.leaders().dom().finite(),
    {
        let mut violations: Vec<InvariantViolation> = Vec::new();
        let terms = ascending_keys(&self.leaders_per_term);
        let ghost conflicts = conflict_by_term(self.leaders());
        assert(self.leaders().dom() =~= self.leaders_per_term@.dom());
        assert(violation_views(violations@) =~= listing::each(terms@.take(0), conflicts));
        let mut i: usize = 0;
        while i < terms.len()
            invariant
                i <= terms.len(),
                ordered::lists(terms@, self.leaders_per_term@.dom()),
                conflicts == conflict_by_term(self.leaders()),
                violation_views(violations@) == listing::each(terms@.take(i as int), conflicts),
            decreases terms.len() - i,
        {
            let term: u64 = terms[i];
            let ghost before = violations@;
            proof {
                listing::lemma_each_step(terms@, i as int, conflicts);
                assert(terms@.contains(term));
            }
            if let Some(leaders) = self.leaders_per_term.get(&term) {
                assert(self.leaders()[term] == leaders@);
                if leaders.len() > 1 {
                    violations.push(InvariantViolation::MultipleLeadersInTerm { term, leaders: leaders.to_vec() });
                }
            }
            assert(violation_views(violations@) =~= violation_views(before) + conflicts(term));
            i = i + 1;
        }
        proof {
            assert(terms@.take(i as int) =~= terms@);
            ordered::lemma_lists_is_ascending(terms@, self.leaders().dom());
        }
        violations
    }

    /// INVARIANT: Log Matching.
    /// If two logs contain an entry with the same index and term,
    /// then the logs are identical in all preceding entries.
    ///
    /// Only entries up to the commit index of each node are compared. There, entries at
    /// one index must have the same term, and before an entry that both logs share they
    /// must have the same data too.
    pub fn check_log_matching(&self) -> (violations: Vec<InvariantViolation>)
        ensures
            violation_views(violations@) == log_mismatches(self.states()),
            self.states().dom().finite(),
    {
        let mut violations: Vec<InvariantViolation> = Vec::new();
        let ids = ascending_keys(&self.node_states);
        let ghost mismatches = mismatches_by_place(self.states(), ids@);
        let ghost n = ids@.len() as int;
        assert(violation_views(violations@) =~= Seq::<ViolationView>::empty());
        let mut i: usize = 0;
        while i < ids.len()
            invariant
                i <= ids.len(),
                n == ids@.len(),
                ordered::lists(ids@, self.node_states@.dom()),
                mismatches == mismatches_by_place(self.states(), ids@),
                violation_views(violations@) == listing::rows(mismatches, n, i as int),
            decreases ids.len() - i,
        {
            let ghost above = violation_views(violations@);
            let mut j: usize = i + 1;
            assert(above + listing::row(mismatches, i as int, j as int) =~= above);
            while j < ids.len()
                invariant
                    i < j <= ids.len(),
                    ordered::lists(ids@, self.node_states@.dom()),
                    mismatches == mismatches_by_place(self.states(), ids@),
                    violation_views(violations@) == above + listing::row(mismatches, i as int, j as int),
                decreases ids.len() - j,
            {
                let node_a: NodeId = ids[i];
                let node_b: NodeId = ids[j];
                let ghost before = violations@;
                proof {
                    assert(ids@.contains(node_a));
                    assert(ids@.contains(node_b));
                }
                if let Some(state_a) = self.node_states.get(&node_a) {
                    if let Some(state_b) = self.node_states.get(&node_b) {
                        let mut found = log_matching_between(
                            node_a,
                            state_a,
                            node_b,
                            state_b,
                            Ghost(self.states()),
                        );
                        violations.append(&mut found);
                    }
                }
                proof {
                    assert(violation_views(violations@) =~= violation_views(before) + mismatches(i as int, j as int));
                    assert(violation_views(violations@) =~= above + listing::row(mismatches, i as int, j + 1));
                }
                j = j + 1;
            }
            i = i + 1;
        }
        proof {
            ordered::lemma_lists_is_ascending(ids@, self.states().dom());
        }
        violations
    }

    /// INVARIANT: State Machine Safety.
    /// If a server has applied a log entry at a given index to its state machine,
    /// no other server will ever apply a different log entry for the same index.
    ///
    /// Two nodes that have applied as much hold the same data. Nodes may stand at
    /// different applied indexes, so that a key has different values on them is no
    /// violation by itself: see [`Self::diverging_keys`].
    pub fn check_state_machine_safety(&self) -> (violations: Vec<InvariantViolation>)
        ensures
            violation_views(violations@) == node_divergences(self.states()),
            self.states().dom().finite(),
    {
        let mut violations: Vec<InvariantViolation> = Vec::new();
        let ids = ascending_keys(&self.node_states);
        let ghost divergences = divergence_by_place(self.states(), ids@);
        let ghost n = ids@.len() as int;
        assert(violation_views(violations@) =~= Seq::<ViolationView>::empty());
        let mut i: usize = 0;
        while i < ids.len()
            invariant
                i <= ids.len(),
                n == ids@.len(),
                ordered::lists(ids@, self.node_states@.dom()),
                divergences == divergence_by_place(self.states(), ids@),
                violation_views(violations@) == listing::rows(divergences, n, i as int),
            decreases ids.len() - i,
        {
            let ghost above = violation_views(violations@);
            let mut j: usize = i + 1;
            assert(above + listing::row(divergences, i as int, j as int) =~= above);
            while j < ids.len()
                invariant
                    i < j <= ids.len(),
                    ordered::lists(ids@, self.node_states@.dom()),
                    divergences == divergence_by_place(self.states(), ids@),
                    violation_views(violations@) == above + listing::row(divergences, i as int, j as int),
                decreases ids.len() - j,
            {
                let node_a: NodeId = ids[i];
                let node_b: NodeId = ids[j];
                let ghost before = violations@;
                proof {
                    assert(ids@.contains(node_a));
                    assert(ids@.contains(node_b));
                }
                if let Some(a) = self.node_states.get(&node_a) {
                    if let Some(b) = self.node_states.get(&node_b) {
                        if a.last_applied == b.last_applied && !a.state_machine.data.same_as(&b.state_machine.data) {
                            violations.push(divergence_of(a.last_applied, node_a, node_b));
                        }
                    }
                }
                proof {
                    assert(violation_views(violations@) =~= violation_views(before) + divergences(i as int, j as int));
                    assert(violation_views(violations@) =~= above + listing::row(divergences, i as int, j + 1));
                }
                j = j + 1;
            }
            i = i + 1;
        }
        proof {
            ordered::lemma_lists_is_ascending(ids@, self.states().dom());
        }
        violations
    }

    /// The keys that have more than one value across the nodes, each with the
    /// number of its different values.
    pub fn diverging_keys(&self) -> (counts: Vec<(String, usize)>)
        ensures
            forall|i: int, j: int| 0 <= i < j < counts@.len() ==> counts@[i].0@ != counts@[j].0@,
            forall|i: int|
                0 <= i < counts@.len() ==> 1 < (#[trigger] counts@[i]).1 && counts@[i].1 == values_of_key(
                    self.states(),
                    counts@[i].0@,
                ).len(),
            forall|key: Seq<char>|
                1 < (#[trigger] values_of_key(self.states(), key)).len() ==> exists|i: int|
                    0 <= i < counts@.len() && (#[trigger] counts@[i]).0@ == key,
    {
        let groups = self.group_values();
        let keys = groups.keys();
        let mut counts: Vec<(String, usize)> = Vec::new();
        let mut i: usize = 0;
        while i < keys.len()
            invariant
                i <= keys@.len(),
                strmap::text_views(keys@).no_duplicates(),
                forall|k: Seq<char>| #[trigger] groups@.contains_key(k) <==> strmap::text_views(keys@).contains(k),
                groups_values(groups@, values_of_all(self.states())),
                forall|a: int, b: int| 0 <= a < b < counts@.len() ==> counts@[a].0@ != counts@[b].0@,
                forall|a: int|
                    0 <= a < counts@.len() ==> 1 < (#[trigger] counts@[a]).1 && counts@[a].1 == values_of_key(
                        self.states(),
                        counts@[a].0@,
                    ).len(),
                forall|a: int|
                    0 <= a < counts@.len() ==> exists|b: int|
                        0 <= b < i && keys@[b]@ == (#[trigger] counts@[a]).0@,
                forall|b: int|
                    0 <= b < i && 1 < values_of_key(self.states(), (#[trigger] keys@[b])@).len() ==> exists|a: int|
                        0 <= a < counts@.len() && (#[trigger] counts@[a]).0@ == keys@[b]@,
            decreases keys.len() - i,
        {
            let ghost key = keys@[i as int]@;
            proof {
                assert(strmap::text_views(keys@)[i as int] == key);
                assert(strmap::text_views(keys@).contains(key));
                assert(groups@.contains_key(key));
            }
            if let Some(values) = groups.get(&keys[i]) {
                proof {
                    strmap::text_views(values@).unique_seq_to_set();
                    assert(values_of_all(self.states())(key) == values_of_key(self.states(), key));
                    assert(values@.len() == values_of_key(self.states(), key).len());
                }
                if values.len() > 1 {
                    let ghost before = counts@;
                    counts.push((keys[i].clone(), values.len()));
                    proof {
                        assert forall|a: int| 0 <= a < before.len() implies (#[trigger] before[a]).0@ != key by {
                            assert(before[a] == counts@[a]);
                            let b = choose|b: int| 0 <= b < i && keys@[b]@ == before[a].0@;
                            assert(strmap::text_views(keys@)[b] == keys@[b]@);
                        }
                        assert(counts@[before.len() as int].0@ == key);
                        assert forall|b: int|
                            0 <= b < i + 1 && 1 < values_of_key(self.states(), (#[trigger] keys@[b])@).len() implies exists|
                            a: int,
                        | 0 <= a < counts@.len() && (#[trigger] counts@[a]).0@ == keys@[b]@ by {
                            if b < i {
                                let a = choose|a: int|
                                    0 <= a < before.len() && (#[trigger] before[a]).0@ == keys@[b]@;
                                assert(counts@[a].0@ == keys@[b]@);
                            }
                        }
                        assert forall|a: int| 0 <= a < counts@.len() implies exists|b: int|
                            0 <= b < i + 1 && keys@[b]@ == (#[trigger] counts@[a]).0@ by {
                            if a < before.len() {
                                assert(counts@[a] == before[a]);
                                let b = choose|b: int| 0 <= b < i && keys@[b]@ == before[a].0@;
                                assert(keys@[b]@ == counts@[a].0@);
                            } else {
                                assert(keys@[i as int]@ == counts@[a].0@);
                            }
                        }
                    }
                }
            }
            i = i + 1;
        }
        proof {
            assert forall|key: Seq<char>|
                1 < (#[trigger] values_of_key(self.states(), key)).len() implies exists|a: int|
                0 <= a < counts@.len() && (#[trigger] counts@[a]).0@ == key by {
                let values = values_of_key(self.states(), key);
                assert(values_of_all(self.states())(key) == values);
                if !groups@.contains_key(key) {
                    assert(values =~= Set::<Seq<char>>::empty());
                }
                assert(strmap::text_views(keys@).contains(key));
                let b = choose|b: int| 0 <= b < strmap::text_views(keys@).len() && strmap::text_views(keys@)[b] == key;
                assert(keys@[b]@ == key);
            }
        }
        counts
    }

    /// The different values of each key across the nodes.
    fn group_values(&self) -> (groups: StringMap<Vec<String>>)
        ensures
            groups_values(groups@, values_of_all(self.states())),
    {
        let mut groups: StringMap<Vec<String>> = StringMap::new();
        let ids = ascending_keys(&self.node_states);
        assert(groups_values(groups@, values_of_some(self.states(), ids@.take(0)))) by {
            assert forall|key: Seq<char>| (#[trigger] values_of_some(self.states(), ids@.take(0))(key)) =~= Set::empty() by {}
        }
        let mut i: usize = 0;
        while i < ids.len()
            invariant
                i <= ids.len(),
                ordered::lists(ids@, self.node_states@.dom()),
                groups_values(groups@, values_of_some(self.states(), ids@.take(i as int))),
            decreases ids.len() - i,
        {
            let id: NodeId = ids[i];
            let ghost done = ids@.take(i as int);
            proof {
                assert(ids@.contains(id));
                assert(ids@.take(i + 1) =~= done.push(id));
            }
            if let Some(state) = self.node_states.get(&id) {
                let keys = state.state_machine.data.keys();
                let ghost data = state.state_machine.data@;
                proof {
                    lemma_same_groups(
                        groups@,
                        values_of_some(self.states(), done),
                        values_with(self.states(), done, data, Seq::empty()),
                    );
                }
                let mut j: usize = 0;
                while j < keys.len()
                    invariant
                        j <= keys@.len(),
                        data == state.state_machine.data@,
                        forall|k: Seq<char>| #[trigger] data.contains_key(k) <==> strmap::text_views(keys@).contains(k),
                        groups_values(
                            groups@,
                            values_with(self.states(), done, data, strmap::text_views(keys@).take(j as int)),
                        ),
                    decreases keys.len() - j,
                {
                    let ghost key = keys@[j as int]@;
                    let ghost seen = strmap::text_views(keys@).take(j as int);
                    proof {
                        assert(strmap::text_views(keys@)[j as int] == key);
                        assert(strmap::text_views(keys@).contains(key));
                        assert(strmap::text_views(keys@).take(j + 1) =~= seen.push(key));
                    }
                    if let Some(value) = state.state_machine.data.get(&keys[j]) {
                        let ghost before = groups@;
                        add_value(&mut groups, &keys[j], value);
                        proof {
                            lemma_key_seen(self.states(), done, data, seen, key);
                            lemma_value_added(
                                before,
                                groups@,
                                values_with(self.states(), done, data, seen),
                                values_with(self.states(), done, data, seen.push(key)),
                                key,
                                value@,
                            );
                        }
                    }
                    j = j + 1;
                }
                proof {
                    let seen = strmap::text_views(keys@).take(j as int);
                    assert(seen =~= strmap::text_views(keys@));
                    assert(self.states()[id].state_machine.data@ == data);
                    lemma_node_done(self.states(), done, id, seen);
                    lemma_same_groups(
                        groups@,
                        values_with(self.states(), done, data, seen),
                        values_of_some(self.states(), done.push(id)),
                    );
                }
            }
            i = i + 1;
        }
        proof {
            assert(ids@.take(i as int) =~= ids@);
            lemma_all_nodes(self.states(), ids@);
            lemma_same_groups(groups@, values_of_some(self.states(), ids@), values_of_all(self.states()));
        }
        groups
    }

    /// INVARIANT: Vote Safety.
    /// Each node can vote for at most one candidate in a given term.
    pub fn check_vote_safety(&self) -> (violations: Vec<InvariantViolation>)
        ensures
            violation_views(violations@) == vote_violations(self.votes()),
            finitely_many_votes(self.votes()),
    {
        let mut violations: Vec<InvariantViolation> = Vec::new();
        let terms = ascending_keys(&self.votes_per_term);
        let ghost in_term = double_votes_by_term(self.votes());
        assert(self.votes().dom() =~= self.votes_per_term@.dom());
        assert(violation_views(violations@) =~= listing::each(terms@.take(0), in_term));
        let mut i: usize = 0;
        while i < terms.len()
            invariant
                i <= terms.len(),
                ordered::lists(terms@, self.votes_per_term@.dom()),
                in_term == double_votes_by_term(self.votes()),
                violation_views(violations@) == listing::each(terms@.take(i as int), in_term),
                forall|k: int|
                    0 <= k < i ==> {
                        let votes = self.votes()[#[trigger] terms@[k]];
                        &&& votes.dom().finite()
                        &&& forall|voter: NodeId| #[trigger] votes.contains_key(voter) ==> votes[voter].finite()
                    },
            decreases terms.len() - i,
        {
            let term: u64 = terms[i];
            let ghost before = violations@;
            proof {
                listing::lemma_each_step(terms@, i as int, in_term);
                assert(terms@.contains(term));
            }
            if let Some(votes) = self.votes_per_term.get(&term) {
                assert(self.votes()[term] == votes@.map_values(|candidates: IdSet| candidates@));
                let mut found = double_votes(term, votes, Ghost(self.votes()));
                violations.append(&mut found);
            }
            assert(violation_views(violations@) =~= violation_views(before) + in_term(term));
            i = i + 1;
        }
        proof {
            assert(terms@.take(i as int) =~= terms@);
            ordered::lemma_lists_is_ascending(terms@, self.votes().dom());
            assert forall|term: u64| #[trigger] self.votes().contains_key(term) implies {
                let votes = self.votes()[term];
                &&& votes.dom().finite()
                &&& forall|voter: NodeId| #[trigger] votes.contains_key(voter) ==> votes[voter].finite()
            } by {
                assert(self.votes_per_term@.dom().contains(term));
                assert(terms@.contains(term));
                let k = choose|k: int| 0 <= k < terms@.len() && terms@[k] == term;
                assert(terms@[k] == term);
            }
        }
        violations
    }
}

/// The violations of the voters in a term, whose votes are all of `all` in the term.
fn double_votes(
    term: u64,
    votes: &BTreeMap<NodeId, IdSet>,
    Ghost(all): Ghost<Map<u64, Map<NodeId, Set<NodeId>>>>,
) -> (violations: Vec<InvariantViolation>)
    requires
        all[term] == votes@.map_values(|candidates: IdSet| candidates@),
    ensures
        violation_views(violations@) == double_votes_in(all, term),
        all[term].dom().finite(),
        forall|voter: NodeId| #[trigger] all[term].contains_key(voter) ==> all[term][voter].finite(),
{
    let mut violations: Vec<InvariantViolation> = Vec::new();
    let voters = ascending_keys(votes);
    let ghost by_voter = double_vote_by_voter(all, term);
    assert(all[term].dom() =~= votes@.dom());
    assert(violation_views(violations@) =~= listing::each(voters@.take(0), by_voter));
    let mut i: usize = 0;
    while i < voters.len()
        invariant
            i <= voters.len(),
            ordered::lists(voters@, votes@.dom()),
            all[term] == votes@.map_values(|candidates: IdSet| candidates@),
            by_voter == double_vote_by_voter(all, term),
            violation_views(violations@) == listing::each(voters@.take(i as int), by_voter),
            forall|k: int| 0 <= k < i ==> all[term][#[trigger] voters@[k]].finite(),
        decreases voters.len() - i,
    {
        let voter: NodeId = voters[i];
        let ghost before = violations@;
        proof {
            listing::lemma_each_step(voters@, i as int, by_voter);
            assert(voters@.contains(voter));
        }
        if let Some(candidates) = votes.get(&voter) {
            assert(all[term][voter] == candidates@);
            if candidates.len() > 1 {
                violations.push(
                    InvariantViolation::MultipleVotesInTerm { voter, term, candidates: candidates.to_vec() },
                );
            }
        }
        assert(violation_views(violations@) =~= violation_views(before) + by_voter(voter));
        i = i + 1;
    }
    proof {
        assert(voters@.take(i as int) =~= voters@);
        ordered::lemma_lists_is_ascending(voters@, all[term].dom());
        assert forall|voter: NodeId| #[trigger] all[term].contains_key(voter) implies all[term][voter].finite() by {
            assert(votes@.dom().contains(voter));
            assert(voters@.contains(voter));
            let k = choose|k: int| 0 <= k < voters@.len() && voters@[k] == voter;
            assert(all[term][voters@[k]].finite());
        }
    }
    violations
}

/// The divergence of two nodes.
fn divergence_of(index: u64, node_a: NodeId, node_b: NodeId) -> (violation: InvariantViolation)
    ensures
        violation@ == (ViolationView::StateMachineDivergence { index, nodes: seq![node_a, node_b] }),
{
    let mut nodes: Vec<NodeId> = Vec::new();
    nodes.push(node_a);
    nodes.push(node_b);
    assert(nodes@ =~= seq![node_a, node_b]);
    InvariantViolation::StateMachineDivergence { index, nodes }
}

impl Default for InvariantChecker {
    fn default() -> (checker: Self)
        ensures
            checker.states() == Map::<NodeId, NodeStateSnapshot>::empty(),
            checker.votes() == Map::<u64, Map<NodeId, Set<NodeId>>>::empty(),
            checker.leaders() == Map::<u64, Set<NodeId>>::empty(),
    {
        InvariantChecker::new()
    }
}

/// The last index at which two nodes share a committed entry.
fn last_shared(
    state_a: &NodeStateSnapshot,
    places_a: &BTreeMap<u64, usize>,
    state_b: &NodeStateSnapshot,
    places_b: &BTreeMap<u64, usize>,
) -> (last: Option<u64>)
    requires
        are_places(places_a@, *state_a),
        are_places(places_b@, *state_b),
    ensures
        match last {
            Some(index) => shares(*state_a, *state_b, index) && forall|other: u64| #[trigger]
                shares(*state_a, *state_b, other) ==> other <= index,
            None => forall|other: u64| !(#[trigger] shares(*state_a, *state_b, other)),
        },
{
    let indexes = ascending_keys(places_a);
    let mut last: Option<u64> = None;
    let mut i: usize = 0;
    while i < indexes.len()
        invariant
            i <= indexes.len(),
            ordered::lists(indexes@, places_a@.dom()),
            are_places(places_a@, *state_a),
            are_places(places_b@, *state_b),
            last matches Some(index) ==> shares(*state_a, *state_b, index),
            forall|k: int|
                0 <= k < i && shares(*state_a, *state_b, #[trigger] indexes@[k]) ==> last is Some && indexes@[k]
                    <= last->0,
            last matches Some(index) ==> exists|k: int| 0 <= k < i && #[trigger] indexes@[k] == index,
        decreases indexes.len() - i,
    {
        let index: u64 = indexes[i];
        proof {
            assert(indexes@.contains(index));
            assert(places_a@.contains_key(index));
            assert(node_entries(*state_b).contains_key(index) == places_b@.contains_key(index));
        }
        if let Some(place_a) = places_a.get(&index) {
            if let Some(place_b) = places_b.get(&index) {
                if state_a.log[*place_a].term == state_b.log[*place_b].term {
                    last = Some(index);
                    assert(indexes@[i as int] == index);
                }
            }
        }
        i = i + 1;
    }
    proof {
        assert forall|other: u64| #[trigger] shares(*state_a, *state_b, other) implies last is Some && other <= last->0 by {
            assert(places_a@.dom().contains(other));
            assert(indexes@.contains(other));
            let k = choose|k: int| 0 <= k < indexes@.len() && indexes@[k] == other;
            assert(shares(*state_a, *state_b, indexes@[k]));
        }
    }
    last
}

/// The mismatches between the committed parts of the logs of two of the nodes.
fn log_matching_between(
    node_a: NodeId,
    state_a: &NodeStateSnapshot,
    node_b: NodeId,
    state_b: &NodeStateSnapshot,
    Ghost(states): Ghost<Map<NodeId, NodeStateSnapshot>>,
) -> (violations: Vec<InvariantViolation>)
    requires
        *state_a == states[node_a],
        *state_b == states[node_b],
    ensures
        violation_views(violations@) == node_mismatches(states, node_a, node_b),
{
    let places_a = index_entries(state_a);
    let places_b = index_entries(state_b);
    let shared = last_shared(state_a, &places_a, state_b, &places_b);
    let mut violations: Vec<InvariantViolation> = Vec::new();
    let indexes = ascending_keys(&places_a);
    let ghost at = mismatch_by_index(states, node_a, node_b);
    assert(violation_views(violations@) =~= listing::each(indexes@.take(0), at));
    let mut i: usize = 0;
    while i < indexes.len()
        invariant
            i <= indexes.len(),
            ordered::lists(indexes@, places_a@.dom()),
            *state_a == states[node_a],
            *state_b == states[node_b],
            are_places(places_a@, *state_a),
            are_places(places_b@, *state_b),
            match shared {
                Some(index) => shares(*state_a, *state_b, index) && forall|other: u64| #[trigger]
                    shares(*state_a, *state_b, other) ==> other <= index,
                None => forall|other: u64| !(#[trigger] shares(*state_a, *state_b, other)),
            },
            at == mismatch_by_index(states, node_a, node_b),
            violation_views(violations@) == listing::each(indexes@.take(i as int), at),
        decreases indexes.len() - i,
    {
        let index: u64 = indexes[i];
        let ghost before = violations@;
        let shared_behind = match shared {
            Some(last) => last > index,
            None => false,
        };
        proof {
            listing::lemma_each_step(indexes@, i as int, at);
            assert(indexes@.contains(index));
            assert(places_a@.contains_key(index));
            assert(node_entries(*state_b).contains_key(index) == places_b@.contains_key(index));
            assert(shared_behind == shares_behind(*state_a, *state_b, index));
        }
        if let Some(place_a) = places_a.get(&index) {
            if let Some(place_b) = places_b.get(&index) {
                let a = &state_a.log[*place_a];
                let b = &state_b.log[*place_b];
                if a.term != b.term || (shared_behind && !same_data(&a.data, &b.data)) {
                    violations.push(
                        InvariantViolation::LogMismatch { index, node_a, node_b, term_a: a.term, term_b: b.term },
                    );
                }
            }
        }
        assert(violation_views(violations@) =~= violation_views(before) + at(index));
        i = i + 1;
    }
    assert(indexes@.take(i as int) =~= indexes@);
    violations
}

// ---------------------------------------------------------------------------
// Snapshots of all nodes at one moment
// ---------------------------------------------------------------------------

/// The nodes that lead in `term`, in the order of the snapshots.
pub open spec fn leaders_of_term(snapshots: Seq<(NodeId, FullNodeSnapshot)>, term: u64) -> Seq<NodeId>
    decreases snapshots.len(),
{
    if snapshots.len() == 0 {
        Seq::empty()
    } else {
        let rest = leaders_of_term(snapshots.drop_last(), term);
        let (id, s) = snapshots.last();
        if s.raft.server_state == ServerState::Leader && s.raft.vote.term == term {
            rest.push(id)
        } else {
            rest
        }
    }
}

/// The terms in which some node leads.
pub open spec fn leading_terms(snapshots: Seq<(NodeId, FullNodeSnapshot)>) -> Set<u64>
    decreases snapshots.len(),
{
    if snapshots.len() == 0 {
        Set::empty()
    } else {
        let rest = leading_terms(snapshots.drop_last());
        let s = snapshots.last().1;
        if s.raft.server_state == ServerState::Leader {
            rest.insert(s.raft.vote.term)
        } else {
            rest
        }
    }
}

/// The violation of a term in which more than one node leads.
pub open spec fn rivalry(snapshots: Seq<(NodeId, FullNodeSnapshot)>, term: u64) -> Seq<ViolationView> {
    if leaders_of_term(snapshots, term).len() > 1 {
        seq![ViolationView::MultipleLeadersInTerm { term, leaders: leaders_of_term(snapshots, term) }]
    } else {
        Seq::empty()
    }
}

/// The violation of each term.
pub open spec fn rivalry_by_term(snapshots: Seq<(NodeId, FullNodeSnapshot)>) -> spec_fn(u64) -> Seq<ViolationView> {
    |term: u64| rivalry(snapshots, term)
}

/// A violation for each term in which more than one node leads, by term.
pub open spec fn rival_leaders(snapshots: Seq<(NodeId, FullNodeSnapshot)>) -> Seq<ViolationView> {
    listing::each(ordered::ascending(leading_terms(snapshots)), rivalry_by_term(snapshots))
}

/// Whether a node leads in a later term than that of what another node has committed.
pub open spec fn leads_later(leader: FullNodeSnapshot, other: FullNodeSnapshot) -> bool {
    &&& leader.raft.server_state == ServerState::Leader
    &&& other.raft.committed is Some
    &&& other.raft.committed->0.term < leader.raft.vote.term
}

/// Whether a later leader's log ends before what another node has committed.
pub open spec fn falls_short(leader: FullNodeSnapshot, other: FullNodeSnapshot) -> bool {
    &&& leads_later(leader, other)
    &&& match leader.raft.log_ids.spec_last() {
        Some(last) => last < other.raft.committed->0.index,
        None => true,
    }
}

/// The first index behind the end of a node's log.
pub open spec fn first_missing(s: FullNodeSnapshot) -> u64 {
    match s.raft.log_ids.spec_last() {
        Some(last) => (last + 1) as u64,
        None => 0,
    }
}

/// Whether a node holds an entry of another term at an index that the other node has
/// committed.
pub open spec fn replaced_at(s: FullNodeSnapshot, other: FullNodeSnapshot, index: u64) -> bool {
    let committed = other.raft.committed->0;
    &&& index <= committed.index
    &&& s.raft.log_ids.spec_get(index) is Some
    &&& {
        ||| index == committed.index && s.raft.log_ids.spec_get(index)->0.term != committed.term
        ||| terms_differ(s, other, index)
    }
}

/// Whether a later leader holds other entries than another node has committed. A leader
/// whose term is over may do so, as what the other node holds may have been committed
/// only after that term; so a leader is held to what nodes have committed that know of
/// no later term than its own.
pub open spec fn overwrites(leader: FullNodeSnapshot, other: FullNodeSnapshot) -> bool {
    &&& leads_later(leader, other)
    &&& other.raft.vote.term <= leader.raft.vote.term
    &&& exists|index: u64| #[trigger] replaced_at(leader, other, index)
}

/// Whether a later leader lacks something that another node has committed.
pub open spec fn lacks(leader: FullNodeSnapshot, other: FullNodeSnapshot) -> bool {
    falls_short(leader, other) || overwrites(leader, other)
}

/// Whether a later leader lacks what another node has committed at an index, or shows
/// there that it does: the index is the first one behind its log, or it holds an entry
/// of another term.
pub open spec fn lost_at(leader: FullNodeSnapshot, other: FullNodeSnapshot, index: u64) -> bool {
    ||| falls_short(leader, other) && index == first_missing(leader)
    ||| lacks(leader, other) && replaced_at(leader, other, index)
}

/// Whether a leader lacks something that some node has committed.
pub open spec fn lacks_committed(snapshots: Seq<(NodeId, FullNodeSnapshot)>, s: FullNodeSnapshot) -> bool {
    exists|i: int| 0 <= i < snapshots.len() && lacks(s, #[trigger] snapshots[i].1)
}

/// Whether a leader lacks what some node has committed at an index.
pub open spec fn lost(snapshots: Seq<(NodeId, FullNodeSnapshot)>, s: FullNodeSnapshot, index: u64) -> bool {
    exists|i: int| 0 <= i < snapshots.len() && lost_at(s, #[trigger] snapshots[i].1, index)
}

/// Whether an index is the first one at which a leader lacks what was committed.
pub open spec fn is_first_lost(snapshots: Seq<(NodeId, FullNodeSnapshot)>, s: FullNodeSnapshot, index: u64) -> bool {
    lost(snapshots, s, index) && forall|other: u64| #[trigger] lost(snapshots, s, other) ==> index <= other
}

/// The first index at which a leader lacks what was committed.
pub open spec fn first_lost(snapshots: Seq<(NodeId, FullNodeSnapshot)>, s: FullNodeSnapshot) -> u64 {
    choose|index: u64| is_first_lost(snapshots, s, index)
}

/// The violation of a leader that lacks something that some node has committed.
pub open spec fn shortfall(snapshots: Seq<(NodeId, FullNodeSnapshot)>, s: (NodeId, FullNodeSnapshot)) -> Seq<
    ViolationView,
> {
    if lacks_committed(snapshots, s.1) {
        seq![
            ViolationView::LeaderMissingCommitted {
                term: s.1.raft.vote.term,
                leader: s.0,
                missing_index: first_lost(snapshots, s.1),
            },
        ]
    } else {
        Seq::empty()
    }
}

/// The violation of each leader.
pub open spec fn shortfall_by_node(snapshots: Seq<(NodeId, FullNodeSnapshot)>) -> spec_fn(
    (NodeId, FullNodeSnapshot),
) -> Seq<ViolationView> {
    |s: (NodeId, FullNodeSnapshot)| shortfall(snapshots, s)
}

/// A violation for each leader that lacks something that some node has committed, in
/// the order of the snapshots.
pub open spec fn shortfalls(snapshots: Seq<(NodeId, FullNodeSnapshot)>) -> Seq<ViolationView> {
    listing::each(snapshots, shortfall_by_node(snapshots))
}

/// The last index that both nodes have committed.
pub open spec fn common_committed(a: FullNodeSnapshot, b: FullNodeSnapshot) -> Option<u64> {
    match (a.raft.committed, b.raft.committed) {
        (Some(x), Some(y)) => Some(if x.index <= y.index { x.index } else { y.index }),
        _ => None,
    }
}

/// The index from which on a node still holds its log.
pub open spec fn first_held(s: FullNodeSnapshot) -> u64 {
    match s.raft.log_ids.purged {
        Some(id) => id.index,
        None => 0,
    }
}

/// The index from which on both nodes still hold their logs.
pub open spec fn common_first(a: FullNodeSnapshot, b: FullNodeSnapshot) -> u64 {
    if first_held(a) >= first_held(b) {
        first_held(a)
    } else {
        first_held(b)
    }
}

/// Whether both logs hold an entry at `index`, of different terms.
pub open spec fn terms_differ(a: FullNodeSnapshot, b: FullNodeSnapshot, index: u64) -> bool {
    match (a.raft.log_ids.spec_get(index), b.raft.log_ids.spec_get(index)) {
        (Some(x), Some(y)) => x.term != y.term,
        _ => false,
    }
}

/// The mismatch of two logs at an index, if there is one.
pub open spec fn mismatch_at(a: (NodeId, FullNodeSnapshot), b: (NodeId, FullNodeSnapshot), index: u64) -> Seq<
    ViolationView,
> {
    if terms_differ(a.1, b.1, index) {
        seq![
            ViolationView::LogMismatch {
                index,
                node_a: a.0,
                node_b: b.0,
                term_a: a.1.raft.log_ids.spec_get(index)->0.term,
                term_b: b.1.raft.log_ids.spec_get(index)->0.term,
            },
        ]
    } else {
        Seq::empty()
    }
}

/// The mismatch of two logs at each index.
pub open spec fn mismatch_at_each(a: (NodeId, FullNodeSnapshot), b: (NodeId, FullNodeSnapshot)) -> spec_fn(int) -> Seq<
    ViolationView,
> {
    |index: int| mismatch_at(a, b, index as u64)
}

/// The mismatches of two logs at the indexes that both nodes hold and both
/// have committed.
pub open spec fn committed_mismatches(a: (NodeId, FullNodeSnapshot), b: (NodeId, FullNodeSnapshot)) -> Seq<
    ViolationView,
> {
    match common_committed(a.1, b.1) {
        Some(last) => listing::each(
            listing::range(common_first(a.1, b.1) as int, last + 1),
            mismatch_at_each(a, b),
        ),
        None => Seq::empty(),
    }
}

/// Whether two nodes have applied entries up to the same index, with different outcomes.
pub open spec fn machines_diverge(a: FullNodeSnapshot, b: FullNodeSnapshot) -> bool {
    &&& a.sm.last_applied is Some
    &&& b.sm.last_applied is Some
    &&& a.sm.last_applied->0.index == b.sm.last_applied->0.index
    &&& strmap::texts(a.sm.data@) != strmap::texts(b.sm.data@)
}

/// The divergence of two state machines.
pub open spec fn divergence(a: (NodeId, FullNodeSnapshot), b: (NodeId, FullNodeSnapshot)) -> Seq<ViolationView> {
    if machines_diverge(a.1, b.1) {
        seq![
            ViolationView::StateMachineDivergence { index: a.1.sm.last_applied->0.index, nodes: seq![a.0, b.0] },
        ]
    } else {
        Seq::empty()
    }
}

/// What is wrong between two nodes.
pub open spec fn pair_violations(a: (NodeId, FullNodeSnapshot), b: (NodeId, FullNodeSnapshot)) -> Seq<ViolationView> {
    committed_mismatches(a, b) + divergence(a, b)
}

/// What is wrong between two nodes, by their places.
pub open spec fn violations_by_place(snapshots: Seq<(NodeId, FullNodeSnapshot)>) -> spec_fn(int, int) -> Seq<
    ViolationView,
> {
    |i: int, j: int| pair_violations(snapshots[i], snapshots[j])
}

/// All violations that the snapshots show: rival leaders by term, then leaders
/// that lack committed entries, then what is wrong between the pairs of nodes,
/// the nodes in the order of the snapshots.
pub open spec fn state_violations(snapshots: Seq<(NodeId, FullNodeSnapshot)>) -> Seq<ViolationView> {
    rival_leaders(snapshots) + shortfalls(snapshots) + listing::each_pair(
        violations_by_place(snapshots),
        snapshots.len() as int,
    )
}

/// The leaders of each term in which some node leads.
fn leaders_by_term(snapshots: &[(NodeId, FullNodeSnapshot)]) -> (leaders: BTreeMap<u64, Vec<NodeId>>)
    ensures
        leaders@.dom() == leading_terms(snapshots@),
        forall|term: u64| #[trigger]
            leaders@.contains_key(term) ==> leaders@[term]@ == leaders_of_term(snapshots@, term),
{
    let mut leaders: BTreeMap<u64, Vec<NodeId>> = BTreeMap::new();
    let mut i: usize = 0;
    while i < snapshots.len()
        invariant
            i <= snapshots@.len(),
            leaders@.dom() =~= leading_terms(snapshots@.take(i as int)),
            forall|term: u64| #[trigger]
                leaders@.contains_key(term) ==> leaders@[term]@ == leaders_of_term(snapshots@.take(i as int), term),
            forall|term: u64|
                !(#[trigger] leaders@.contains_key(term)) ==> leaders_of_term(snapshots@.take(i as int), term).len()
                    == 0,
        decreases snapshots.len() - i,
    {
        let ghost seen = snapshots@.take(i + 1);
        let entry = &snapshots[i];
        proof {
            assert(seen.drop_last() =~= snapshots@.take(i as int));
            assert(seen.last() == *entry);
        }
        if entry.1.raft.server_state == ServerState::Leader {
            let term: u64 = entry.1.raft.vote.term;
            let ghost before = leaders@;
            let mut ids: Vec<NodeId> = match leaders.remove(&term) {
                Some(ids) => ids,
                None => Vec::new(),
            };
            assert(ids@ =~= leaders_of_term(snapshots@.take(i as int), term));
            ids.push(entry.0);
            leaders.insert(term, ids);
            proof {
                assert forall|t: u64| leaders@.contains_key(t) implies leaders@[t]@ == leaders_of_term(seen, t) by {
                    if t != term {
                        assert(before.contains_key(t));
                    }
                }
                assert forall|t: u64| !leaders@.contains_key(t) implies leaders_of_term(seen, t).len() == 0 by {
                    assert(!before.contains_key(t));
                }
            }
        }
        i = i + 1;
    }
    assert(snapshots@.take(i as int) =~= snapshots@);
    leaders
}

/// The violations of terms in which more than one node leads.
fn check_rival_leaders(snapshots: &[(NodeId, FullNodeSnapshot)]) -> (violations: Vec<InvariantViolation>)
    ensures
        violation_views(violations@) == rival_leaders(snapshots@),
{
    let mut violations: Vec<InvariantViolation> = Vec::new();
    let leaders = leaders_by_term(snapshots);
    let terms = ascending_keys(&leaders);
    let ghost in_term = rivalry_by_term(snapshots@);
    assert(violation_views(violations@) =~= listing::each(terms@.take(0), in_term));
    let mut i: usize = 0;
    while i < terms.len()
        invariant
            i <= terms.len(),
            ordered::lists(terms@, leaders@.dom()),
            forall|term: u64| #[trigger]
                leaders@.contains_key(term) ==> leaders@[term]@ == leaders_of_term(snapshots@, term),
            in_term == rivalry_by_term(snapshots@),
            violation_views(violations@) == listing::each(terms@.take(i as int), in_term),
        decreases terms.len() - i,
    {
        let term: u64 = terms[i];
        let ghost before = violations@;
        proof {
            listing::lemma_each_step(terms@, i as int, in_term);
            assert(terms@.contains(term));
            assert(leaders@.contains_key(term));
        }
        if let Some(ids) = leaders.get(&term) {
            if ids.len() > 1 {
                let violation = InvariantViolation::MultipleLeadersInTerm { term, leaders: ids.clone() };
                assert(violation@->MultipleLeadersInTerm_leaders =~= leaders_of_term(snapshots@, term));
                violations.push(violation);
            }
        }
        assert(violation_views(violations@) =~= violation_views(before) + in_term(term));
        i = i + 1;
    }
    assert(terms@.take(i as int) =~= terms@);
    violations
}

/// The first index at which a node holds an entry of another term than another node
/// has committed.
fn first_replaced(s: &FullNodeSnapshot, other: &FullNodeSnapshot, committed: &LogId) -> (first: Option<u64>)
    requires
        other.raft.committed == Some(*committed),
    ensures
        match first {
            Some(index) => replaced_at(*s, *other, index) && forall|k: u64| #[trigger]
                replaced_at(*s, *other, k) ==> index <= k,
            None => forall|k: u64| !(#[trigger] replaced_at(*s, *other, k)),
        },
{
    let indexes = ascending_keys(&s.raft.log_ids.by_index);
    let mut i: usize = 0;
    while i < indexes.len()
        invariant
            i <= indexes.len(),
            ordered::lists(indexes@, s.raft.log_ids.by_index@.dom()),
            other.raft.committed == Some(*committed),
            forall|k: int| 0 <= k < i ==> !replaced_at(*s, *other, #[trigger] indexes@[k]),
        decreases indexes.len() - i,
    {
        let index: u64 = indexes[i];
        let mut replaced = false;
        if index <= committed.index {
            if let Some(held) = s.raft.log_ids.get(index) {
                if index == committed.index && held.term != committed.term {
                    replaced = true;
                }
                if let Some(theirs) = other.raft.log_ids.get(index) {
                    if held.term != theirs.term {
                        replaced = true;
                    }
                }
            }
        }
        assert(replaced == replaced_at(*s, *other, index));
        if replaced {
            proof {
                assert forall|k: u64| #[trigger] replaced_at(*s, *other, k) implies index <= k by {
                    assert(s.raft.log_ids.by_index@.dom().contains(k));
                    assert(indexes@.contains(k));
                    let at = choose|at: int| 0 <= at < indexes@.len() && indexes@[at] == k;
                    assert(replaced_at(*s, *other, indexes@[at]));
                }
            }
            return Some(index);
        }
        i = i + 1;
    }
    proof {
        assert forall|k: u64| !(#[trigger] replaced_at(*s, *other, k)) by {
            if replaced_at(*s, *other, k) {
                assert(s.raft.log_ids.by_index@.dom().contains(k));
                assert(indexes@.contains(k));
                let at = choose|at: int| 0 <= at < indexes@.len() && indexes@[at] == k;
                assert(replaced_at(*s, *other, indexes@[at]));
            }
        }
    }
    None
}

/// The first index at which a leader lacks what another node has committed.
fn first_lost_between(leader: &FullNodeSnapshot, other: &FullNodeSnapshot) -> (first: Option<u64>)
    ensures
        first is Some <==> lacks(*leader, *other),
        first matches Some(index) ==> lost_at(*leader, *other, index) && forall|k: u64| #[trigger]
            lost_at(*leader, *other, k) ==> index <= k,
{
    if leader.raft.server_state != ServerState::Leader {
        return None;
    }
    let committed = match &other.raft.committed {
        Some(committed) => committed,
        None => {
            return None;
        },
    };
    if committed.term >= leader.raft.vote.term {
        return None;
    }
    let last = leader.raft.log_ids.last();
    let ends_before = match last {
        Some(last) => last < committed.index,
        None => true,
    };
    if !ends_before && other.raft.vote.term > leader.raft.vote.term {
        return None;
    }
    let replaced = first_replaced(leader, other, committed);
    if !ends_before {
        return replaced;
    }
    let missing: u64 = match last {
        Some(last) => last + 1,
        None => 0,
    };
    match replaced {
        Some(index) => if index < missing {
            Some(index)
        } else {
            Some(missing)
        },
        None => Some(missing),
    }
}

/// The first index at which a leader lacks what some node has committed.
fn first_lost_index(snapshots: &[(NodeId, FullNodeSnapshot)], s: &FullNodeSnapshot) -> (first: Option<u64>)
    ensures
        first is Some <==> lacks_committed(snapshots@, *s),
        first matches Some(index) ==> index == first_lost(snapshots@, *s),
{
    let mut first: Option<u64> = None;
    let mut i: usize = 0;
    while i < snapshots.len()
        invariant
            i <= snapshots@.len(),
            first is Some <==> exists|k: int| 0 <= k < i && lacks(*s, #[trigger] snapshots@[k].1),
            first matches Some(index) ==> lost(snapshots@, *s, index),
            forall|k: int, other: u64|
                0 <= k < i && #[trigger] lost_at(*s, snapshots@[k].1, other) ==> first is Some && first->0 <= other,
        decreases snapshots.len() - i,
    {
        let found = first_lost_between(s, &snapshots[i].1);
        if let Some(index) = found {
            assert(lacks(*s, snapshots@[i as int].1));
            assert(lost_at(*s, snapshots@[i as int].1, index));
            match first {
                Some(earlier) => if index < earlier {
                    first = Some(index);
                },
                None => {
                    first = Some(index);
                },
            }
        }
        i = i + 1;
    }
    proof {
        if let Some(index) = first {
            assert forall|other: u64| #[trigger] lost(snapshots@, *s, other) implies index <= other by {
                let k = choose|k: int| 0 <= k < snapshots@.len() && lost_at(*s, #[trigger] snapshots@[k].1, other);
                assert(lost_at(*s, snapshots@[k].1, other));
            }
            assert(is_first_lost(snapshots@, *s, index));
            let chosen = first_lost(snapshots@, *s);
            assert(is_first_lost(snapshots@, *s, chosen));
        }
    }
    first
}

/// The violations of leaders that lack something that some node has committed.
fn check_leader_logs(snapshots: &[(NodeId, FullNodeSnapshot)]) -> (violations: Vec<InvariantViolation>)
    ensures
        violation_views(violations@) == shortfalls(snapshots@),
{
    let mut violations: Vec<InvariantViolation> = Vec::new();
    let ghost of_node = shortfall_by_node(snapshots@);
    assert(violation_views(violations@) =~= listing::each(snapshots@.take(0), of_node));
    let mut i: usize = 0;
    while i < snapshots.len()
        invariant
            i <= snapshots@.len(),
            of_node == shortfall_by_node(snapshots@),
            violation_views(violations@) == listing::each(snapshots@.take(i as int), of_node),
        decreases snapshots.len() - i,
    {
        let entry = &snapshots[i];
        let ghost before = violations@;
        proof {
            listing::lemma_each_step(snapshots@, i as int, of_node);
        }
        if let Some(missing_index) = first_lost_index(snapshots, &entry.1) {
            violations.push(
                InvariantViolation::LeaderMissingCommitted {
                    term: entry.1.raft.vote.term,
                    leader: entry.0,
                    missing_index,
                },
            );
        }
        assert(violation_views(violations@) =~= violation_views(before) + of_node(*entry));
        i = i + 1;
    }
    assert(snapshots@.take(i as int) =~= snapshots@);
    violations
}

/// The mismatches of two logs at the indexes that both nodes hold and both
/// have committed.
fn check_committed_logs(a: &(NodeId, FullNodeSnapshot), b: &(NodeId, FullNodeSnapshot)) -> (violations: Vec<
    InvariantViolation,
>)
    ensures
        violation_views(violations@) == committed_mismatches(*a, *b),
{
    let mut violations: Vec<InvariantViolation> = Vec::new();
    let last: u64 = match (&a.1.raft.committed, &b.1.raft.committed) {
        (Some(x), Some(y)) => if x.index <= y.index {
            x.index
        } else {
            y.index
        },
        _ => {
            assert(violation_views(violations@) =~= Seq::<ViolationView>::empty());
            return violations;
        },
    };
    let first_a: u64 = match &a.1.raft.log_ids.purged {
        Some(id) => id.index,
        None => 0,
    };
    let first_b: u64 = match &b.1.raft.log_ids.purged {
        Some(id) => id.index,
        None => 0,
    };
    let first: u64 = if first_a >= first_b {
        first_a
    } else {
        first_b
    };
    let ghost at = mismatch_at_each(*a, *b);
    let ghost from = first as int;
    assert(violation_views(violations@) =~= listing::each(listing::range(from, from), at));
    if first > last {
        assert(listing::range(from, last + 1) =~= listing::range(from, from));
        return violations;
    }
    let mut index: u64 = first;
    loop
        invariant_except_break
            first <= index <= last,
            from == first,
            at == mismatch_at_each(*a, *b),
            violation_views(violations@) == listing::each(listing::range(from, index as int), at),
        ensures
            violation_views(violations@) == listing::each(listing::range(from, last + 1), at),
        decreases last - index,
    {
        let ghost before = violations@;
        if let (Some(x), Some(y)) = (a.1.raft.log_ids.get(index), b.1.raft.log_ids.get(index)) {
            if x.term != y.term {
                violations.push(
                    InvariantViolation::LogMismatch {
                        index,
                        node_a: a.0,
                        node_b: b.0,
                        term_a: x.term,
                        term_b: y.term,
                    },
                );
            }
        }
        proof {
            listing::lemma_range_step(from, index as int, at);
            assert(violation_views(violations@) =~= violation_views(before) + at(index as int));
        }
        if index == last {
            break;
        }
        index = index + 1;
    }
    violations
}

/// What is wrong between two nodes.
fn check_pair(a: &(NodeId, FullNodeSnapshot), b: &(NodeId, FullNodeSnapshot)) -> (violations: Vec<InvariantViolation>)
    ensures
        violation_views(violations@) == pair_violations(*a, *b),
{
    let mut violations = check_committed_logs(a, b);
    if let (Some(applied_a), Some(applied_b)) = (&a.1.sm.last_applied, &b.1.sm.last_applied) {
        if applied_a.index == applied_b.index && !a.1.sm.data.same_as(&b.1.sm.data) {
            violations.push(divergence_of(applied_a.index, a.0, b.0));
        }
    }
    assert(violation_views(violations@) =~= pair_violations(*a, *b));
    violations
}

/// Check invariants based on collected state snapshots from nodes: at most one
/// leader per term, no leader that lacks what was committed in an earlier term,
/// no different terms at an index that both of two nodes have committed, and
/// the same contents in state machines that have applied up to the same index.
///
/// A leader lacks what was committed if its log ends before it, or holds other
/// entries in its place; of a leader whose term is known to be over, only the end
/// of its log counts.
pub fn check_state_invariants(snapshots: &[(NodeId, FullNodeSnapshot)]) -> (result: InvariantCheckResult)
    ensures
        violation_views(result.violations@) == state_violations(snapshots@),
        result.passed == (result.violations@.len() == 0),
{
    let mut violations = check_rival_leaders(snapshots);
    let mut short = check_leader_logs(snapshots);
    violations.append(&mut short);
    let ghost of_leaders = rival_leaders(snapshots@) + shortfalls(snapshots@);
    let ghost of_pair = violations_by_place(snapshots@);
    let ghost n = snapshots@.len() as int;
    assert(violation_views(violations@) =~= of_leaders + listing::rows(of_pair, n, 0));
    let mut i: usize = 0;
    while i < snapshots.len()
        invariant
            i <= snapshots@.len(),
            n == snapshots@.len(),
            of_pair == violations_by_place(snapshots@),
            violation_views(violations@) == of_leaders + listing::rows(of_pair, n, i as int),
        decreases snapshots.len() - i,
    {
        let ghost above = violation_views(violations@);
        let mut j: usize = i + 1;
        assert(above + listing::row(of_pair, i as int, j as int) =~= above);
        while j < snapshots.len()
            invariant
                i < j <= snapshots@.len(),
                of_pair == violations_by_place(snapshots@),
                violation_views(violations@) == above + listing::row(of_pair, i as int, j as int),
            decreases snapshots.len() - j,
        {
            let ghost before = violations@;
            let mut found = check_pair(&snapshots[i], &snapshots[j]);
            violations.append(&mut found);
            proof {
                assert(violation_views(violations@) =~= violation_views(before) + of_pair(i as int, j as int));
                assert(violation_views(violations@) =~= above + listing::row(of_pair, i as int, j + 1));
            }
            j = j + 1;
        }
        assert(violation_views(violations@) =~= of_leaders + listing::rows(of_pair, n, i + 1));
        i = i + 1;
    }
    InvariantCheckResult::with_violations(violations)
}

// ---------------------------------------------------------------------------
// Laws
// ---------------------------------------------------------------------------

/// The text of a violation names the term, the index and all nodes that it is about.
pub proof fn violations_are_explained(a: u64, b: u64, c: u64, d: u64, e: u64, ids: Seq<NodeId>)
    ensures
        violation_text(ViolationView::MultipleLeadersInTerm { term: a, leaders: ids }) == "Multiple leaders "@
            + text::bracketed(ids) + " in term "@ + text::decimal(a as nat),
        violation_text(ViolationView::LogMismatch { index: a, node_a: b, node_b: c, term_a: d, term_b: e })
            == "Log mismatch at index "@ + text::decimal(a as nat) + ": node "@ + text::decimal(b as nat) + " has term "@
            + text::decimal(d as nat) + ", node "@ + text::decimal(c as nat) + " has term "@ + text::decimal(e as nat),
        violation_text(ViolationView::StateMachineDivergence { index: a, nodes: ids })
            == "State machine divergence at index "@ + text::decimal(a as nat) + " across nodes "@ + text::bracketed(ids),
        violation_text(ViolationView::LeaderMissingCommitted { term: a, leader: b, missing_index: c }) == "Leader "@
            + text::decimal(b as nat) + " in term "@ + text::decimal(a as nat) + " missing committed entry at index "@
            + text::decimal(c as nat),
        violation_text(ViolationView::MultipleVotesInTerm { voter: a, term: b, candidates: ids }) == "Node "@
            + text::decimal(a as nat) + " voted for multiple candidates "@ + text::bracketed(ids) + " in term "@
            + text::decimal(b as nat),
{
}

/// The record of a violation is its name with its fields in braces, each after its name.
pub proof fn violations_are_written_down(a: u64, b: u64, c: u64, d: u64, e: u64, ids: Seq<NodeId>)
    ensures
        violation_record(ViolationView::MultipleLeadersInTerm { term: a, leaders: ids })
            == "MultipleLeadersInTerm { term: "@ + text::decimal(a as nat) + ", leaders: "@ + text::bracketed(ids)
            + " }"@,
        violation_record(ViolationView::LogMismatch { index: a, node_a: b, node_b: c, term_a: d, term_b: e })
            == "LogMismatch { index: "@ + text::decimal(a as nat) + ", node_a: "@ + text::decimal(b as nat)
            + ", node_b: "@ + text::decimal(c as nat) + ", term_a: "@ + text::decimal(d as nat) + ", term_b: "@
            + text::decimal(e as nat) + " }"@,
        violation_record(ViolationView::StateMachineDivergence { index: a, nodes: ids })
            == "StateMachineDivergence { index: "@ + text::decimal(a as nat) + ", nodes: "@ + text::bracketed(ids)
            + " }"@,
        violation_record(ViolationView::LeaderMissingCommitted { term: a, leader: b, missing_index: c })
            == "LeaderMissingCommitted { term: "@ + text::decimal(a as nat) + ", leader: "@ + text::decimal(b as nat)
            + ", missing_index: "@ + text::decimal(c as nat) + " }"@,
        violation_record(ViolationView::MultipleVotesInTerm { voter: a, term: b, candidates: ids })
            == "MultipleVotesInTerm { voter: "@ + text::decimal(a as nat) + ", term: "@ + text::decimal(b as nat)
            + ", candidates: "@ + text::bracketed(ids) + " }"@,
{
}

} // verus!
