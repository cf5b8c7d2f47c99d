//! Tests of the invariant checks.

use std::collections::BTreeMap;

use tests_turmoil::cluster::FullNodeSnapshot;
use tests_turmoil::invariants::check_state_invariants;
use tests_turmoil::invariants::InvariantCheckResult;
use tests_turmoil::invariants::InvariantChecker;
use tests_turmoil::invariants::InvariantViolation;
use tests_turmoil::invariants::LogEntry;
use tests_turmoil::invariants::NodeStateSnapshot;
use tests_turmoil::store::StateMachineData;
use tests_turmoil::strmap::StringMap;
use tests_turmoil::typ::LogId;
use tests_turmoil::typ::LogIds;
use tests_turmoil::typ::RaftStateSnapshot;
use tests_turmoil::typ::Request;
use tests_turmoil::typ::ServerState;
use tests_turmoil::typ::Vote;

#[test]
fn test_election_safety_violation() {
    let mut checker = InvariantChecker::new();
    checker.record_leader(1, 1);
    checker.record_leader(1, 2);

    let result = checker.check_election_safety();
    assert_eq!(result.len(), 1);
    assert!(matches!(
        &result[0],
        InvariantViolation::MultipleLeadersInTerm { term: 1, .. }
    ));
}

#[test]
fn test_log_matching_violation() {
    let mut checker = InvariantChecker::new();

    checker.add_node_state(NodeStateSnapshot {
        node_id: 1,
        current_term: 1,
        voted_for: None,
        log: vec![
            LogEntry { index: 1, term: 1, data: None },
            LogEntry { index: 2, term: 1, data: None },
        ],
        commit_index: 2,
        last_applied: 2,
        state_machine: StateMachineData::default(),
    });

    checker.add_node_state(NodeStateSnapshot {
        node_id: 2,
        current_term: 1,
        voted_for: None,
        log: vec![
            LogEntry { index: 1, term: 1, data: None },
            LogEntry { index: 2, term: 2, data: None }, // Different term!
        ],
        commit_index: 2,
        last_applied: 2,
        state_machine: StateMachineData::default(),
    });

    let result = checker.check_log_matching();
    assert_eq!(result.len(), 1);
    assert!(matches!(&result[0], InvariantViolation::LogMismatch { index: 2, .. }));
}

/// A node with a log of these terms, from index 1 on, that has committed `commit`.
fn recorded(node_id: u64, terms: &[u64], commit: u64) -> NodeStateSnapshot {
    let mut log = Vec::new();
    for (i, term) in terms.iter().enumerate() {
        log.push(LogEntry { index: i as u64 + 1, term: *term, data: None });
    }
    NodeStateSnapshot {
        node_id,
        current_term: 9,
        voted_for: Some(node_id),
        log,
        commit_index: commit,
        last_applied: commit,
        state_machine: StateMachineData::default(),
    }
}

#[test]
fn one_leader_recorded_twice_is_no_violation() {
    let mut checker = InvariantChecker::new();
    checker.record_leader(4, 2);
    checker.record_leader(4, 2);
    checker.record_leader(5, 3);
    assert!(checker.check_election_safety().is_empty());
    assert!(checker.check_all().passed);
}

#[test]
fn election_violations_come_by_term_with_leaders_in_order() {
    let mut checker = InvariantChecker::new();
    checker.record_leader(8, 5);
    checker.record_leader(8, 1);
    checker.record_leader(8, 3);
    checker.record_leader(2, 7);
    checker.record_leader(2, 4);
    let texts: Vec<String> = checker.check_election_safety().iter().map(|v| v.to_record()).collect();
    assert_eq!(
        texts,
        vec![
            "MultipleLeadersInTerm { term: 2, leaders: [4, 7] }".to_string(),
            "MultipleLeadersInTerm { term: 8, leaders: [1, 3, 5] }".to_string(),
        ]
    );
}

#[test]
fn uncommitted_entries_may_differ() {
    let mut checker = InvariantChecker::new();
    checker.add_node_state(recorded(1, &[1, 1, 3], 2));
    checker.add_node_state(recorded(2, &[1, 1, 4], 3));
    assert!(checker.check_log_matching().is_empty());
}

#[test]
fn log_mismatch_names_both_nodes_and_terms() {
    let mut checker = InvariantChecker::new();
    checker.add_node_state(recorded(3, &[1, 6], 2));
    checker.add_node_state(recorded(2, &[1, 5], 2));
    let result = checker.check_all();
    assert!(!result.passed);
    assert_eq!(result.violations.len(), 1);
    assert_eq!(
        result.violations[0].to_record(),
        "LogMismatch { index: 2, node_a: 2, node_b: 3, term_a: 5, term_b: 6 }"
    );
}

#[test]
fn a_second_state_of_a_node_replaces_the_first() {
    let mut checker = InvariantChecker::new();
    checker.add_node_state(recorded(1, &[1, 2], 2));
    checker.add_node_state(recorded(2, &[1, 1], 2));
    checker.add_node_state(recorded(1, &[1, 1], 2));
    assert!(checker.check_all().passed);
}

/// A node that has applied `applied` entries and holds one value.
fn with_value(node_id: u64, applied: u64, value: &str) -> NodeStateSnapshot {
    let mut state = recorded(node_id, &[1], 1);
    state.last_applied = applied;
    state.state_machine.data.insert("a".to_string(), value.to_string());
    state.state_machine.data.insert("b".to_string(), "same".to_string());
    state
}

fn records(violations: &[InvariantViolation]) -> Vec<String> {
    violations.iter().map(|v| v.to_record()).collect()
}

#[test]
fn diverging_keys_are_counted() {
    let mut checker = InvariantChecker::new();
    checker.add_node_state(with_value(1, 4, "x"));
    checker.add_node_state(with_value(2, 5, "y"));
    assert!(checker.check_state_machine_safety().is_empty());
    assert_eq!(checker.diverging_keys(), vec![("a".to_string(), 2)]);
}

#[test]
fn recorded_machines_at_one_index_must_agree() {
    let mut checker = InvariantChecker::new();
    checker.add_node_state(with_value(3, 5, "x"));
    checker.add_node_state(with_value(1, 5, "x"));
    checker.add_node_state(with_value(2, 6, "y"));
    assert!(checker.check_state_machine_safety().is_empty());
    checker.add_node_state(with_value(2, 5, "y"));
    assert_eq!(
        records(&checker.check_state_machine_safety()),
        vec![
            "StateMachineDivergence { index: 5, nodes: [1, 2] }".to_string(),
            "StateMachineDivergence { index: 5, nodes: [2, 3] }".to_string(),
        ]
    );
    assert!(!checker.check_all().passed);
}

fn request(value: &str) -> Option<Request> {
    Some(Request {
        client_id: "c".to_string(),
        serial: 1,
        key: "k".to_string(),
        value: value.to_string(),
    })
}

#[test]
fn logs_that_share_an_entry_must_be_identical_before_it() {
    let state = |node_id: u64, data: Option<Request>| {
        let mut state = recorded(node_id, &[1, 1], 2);
        state.log[0].data = data;
        state
    };
    let cases = [
        (request("x"), None, 1),
        (request("x"), request("y"), 1),
        (request("x"), request("x"), 0),
        (None, None, 0),
    ];
    for (a, b, count) in cases {
        let mut checker = InvariantChecker::new();
        checker.add_node_state(state(1, a));
        checker.add_node_state(state(2, b));
        let found = checker.check_log_matching();
        assert_eq!(found.len(), count);
        if count == 1 {
            assert_eq!(
                found[0].to_record(),
                "LogMismatch { index: 1, node_a: 1, node_b: 2, term_a: 1, term_b: 1 }"
            );
        }
    }
}

#[test]
fn data_count_only_before_a_shared_entry() {
    let found = |terms_a: &[u64], terms_b: &[u64], commit_b: u64| {
        let mut a = recorded(1, terms_a, terms_a.len() as u64);
        a.log[0].data = request("x");
        let mut b = recorded(2, terms_b, commit_b);
        b.log[0].data = request("y");
        let mut checker = InvariantChecker::new();
        checker.add_node_state(a);
        checker.add_node_state(b);
        records(&checker.check_log_matching())
    };
    let at = |index: u64, term_a: u64, term_b: u64| {
        format!(
            "LogMismatch {{ index: {}, node_a: 1, node_b: 2, term_a: {}, term_b: {} }}",
            index, term_a, term_b
        )
    };
    assert!(found(&[1], &[1], 1).is_empty());
    assert!(found(&[1, 1], &[1, 1], 1).is_empty());
    assert_eq!(found(&[1, 1], &[1, 2], 2), vec![at(2, 1, 2)]);
    assert_eq!(found(&[1, 1], &[1, 1], 2), vec![at(1, 1, 1)]);
    assert_eq!(found(&[1, 1, 3], &[1, 2, 3], 3), vec![at(1, 1, 1), at(2, 1, 2)]);
}

/// A node that has voted in a term.
fn voted(node_id: u64, term: u64, candidate: u64) -> NodeStateSnapshot {
    let mut state = recorded(node_id, &[], 0);
    state.current_term = term;
    state.voted_for = Some(candidate);
    state
}

#[test]
fn two_votes_of_a_node_in_a_term_are_reported() {
    let mut checker = InvariantChecker::new();
    checker.add_node_state(voted(3, 7, 5));
    checker.add_node_state(voted(2, 7, 5));
    checker.add_node_state(voted(3, 8, 4));
    checker.add_node_state(voted(2, 7, 5));
    assert!(checker.check_vote_safety().is_empty());
    assert!(checker.check_all().passed);
    checker.add_node_state(voted(3, 7, 1));
    checker.add_node_state(voted(2, 6, 1));
    checker.add_node_state(voted(2, 6, 2));
    assert_eq!(
        records(&checker.check_vote_safety()),
        vec![
            "MultipleVotesInTerm { voter: 2, term: 6, candidates: [1, 2] }".to_string(),
            "MultipleVotesInTerm { voter: 3, term: 7, candidates: [1, 5] }".to_string(),
        ]
    );
}

#[test]
fn all_checks_are_made_and_report_once() {
    let mut checker = InvariantChecker::new();
    checker.record_leader(4, 1);
    checker.record_leader(4, 2);
    checker.add_node_state(recorded(1, &[1, 5], 2));
    let mut other = recorded(2, &[1, 6], 2);
    other.state_machine.data.insert("a".to_string(), "x".to_string());
    other.voted_for = Some(1);
    checker.add_node_state(other.clone());
    other.voted_for = Some(2);
    checker.add_node_state(other);
    assert_eq!(
        records(&checker.check_all().violations),
        vec![
            "MultipleLeadersInTerm { term: 4, leaders: [1, 2] }".to_string(),
            "LogMismatch { index: 2, node_a: 1, node_b: 2, term_a: 5, term_b: 6 }".to_string(),
            "StateMachineDivergence { index: 2, nodes: [1, 2] }".to_string(),
            "MultipleVotesInTerm { voter: 2, term: 9, candidates: [1, 2] }".to_string(),
        ]
    );
}

#[test]
fn results_pass_without_violations() {
    assert!(InvariantCheckResult::ok().passed);
    assert!(InvariantCheckResult::with_violations(Vec::new()).passed);
    let violation = InvariantViolation::LeaderMissingCommitted { term: 2, leader: 7, missing_index: 125 };
    let result = InvariantCheckResult::with_violations(vec![violation]);
    assert!(!result.passed);
    assert_eq!(result.violations.len(), 1);
}

#[test]
fn violations_as_text() {
    let missing = InvariantViolation::LeaderMissingCommitted { term: 2, leader: 7, missing_index: 125 };
    assert_eq!(
        missing.to_record(),
        "LeaderMissingCommitted { term: 2, leader: 7, missing_index: 125 }"
    );
    assert_eq!(missing.to_record(), format!("{:?}", missing));
    let others = vec![
        InvariantViolation::MultipleLeadersInTerm { term: 5, leaders: vec![1, 3] },
        InvariantViolation::LogMismatch { index: 9, node_a: 1, node_b: 2, term_a: 3, term_b: 4 },
        InvariantViolation::StateMachineDivergence { index: 17, nodes: vec![4, 2] },
        InvariantViolation::MultipleVotesInTerm { voter: 1, term: 2, candidates: vec![] },
    ];
    for violation in &others {
        assert_eq!(violation.to_record(), format!("{:?}", violation));
        assert!(!violation.to_string().is_empty());
    }
}

/// What a node reports: its role, the terms of its log from index 1 on, what it has
/// committed and purged.
fn snapshot(
    role: ServerState,
    term: u64,
    terms: &[u64],
    committed: Option<u64>,
    purged: Option<u64>,
) -> FullNodeSnapshot {
    let mut by_index = BTreeMap::new();
    for (i, t) in terms.iter().enumerate() {
        let index = i as u64 + 1;
        by_index.insert(index, LogId { term: *t, node_id: 1, index });
    }
    FullNodeSnapshot {
        raft: RaftStateSnapshot {
            server_state: role,
            vote: Vote { term, node_id: 1 },
            committed: committed.map(|index| LogId { term: 1, node_id: 1, index }),
            log_ids: LogIds { purged: purged.map(|index| LogId { term: 1, node_id: 1, index }), by_index },
        },
        sm: StateMachineData::default(),
    }
}

fn follower(terms: &[u64], committed: u64) -> FullNodeSnapshot {
    snapshot(ServerState::Follower, 1, terms, Some(committed), None)
}

#[test]
fn leaders_of_one_term_are_rivals() {
    let leader = |term: u64| snapshot(ServerState::Leader, term, &[1], None, None);
    let snapshots = vec![(1, leader(3)), (2, leader(4)), (3, leader(3)), (4, follower(&[], 0))];
    let result = check_state_invariants(&snapshots);
    assert!(!result.passed);
    assert_eq!(result.violations.len(), 1);
    assert_eq!(
        result.violations[0].to_record(),
        "MultipleLeadersInTerm { term: 3, leaders: [1, 3] }"
    );
}

#[test]
fn committed_logs_are_compared_by_term() {
    let snapshots = vec![(1, follower(&[1, 1, 2], 3)), (2, follower(&[1, 2, 3], 2))];
    let result = check_state_invariants(&snapshots);
    assert_eq!(result.violations.len(), 1);
    assert_eq!(
        result.violations[0].to_record(),
        "LogMismatch { index: 2, node_a: 1, node_b: 2, term_a: 1, term_b: 2 }"
    );
}

#[test]
fn purged_entries_are_not_compared() {
    let a = snapshot(ServerState::Follower, 1, &[1, 1, 1], Some(3), Some(3));
    let b = follower(&[1, 2, 1], 3);
    assert!(check_state_invariants(&[(1, a), (2, b)]).passed);
}

#[test]
fn nothing_is_compared_with_a_node_that_has_committed_nothing() {
    let mut a = snapshot(ServerState::Follower, 1, &[], None, None);
    a.raft.log_ids.by_index.insert(0, LogId { term: 1, node_id: 1, index: 0 });
    let mut b = snapshot(ServerState::Follower, 1, &[], None, None);
    b.raft.log_ids.by_index.insert(0, LogId { term: 2, node_id: 2, index: 0 });
    assert!(check_state_invariants(&[(1, a), (2, b)]).passed);
}

#[test]
fn machines_that_have_applied_up_to_the_same_index_must_agree() {
    let applied = LogId { term: 1, node_id: 1, index: 17 };
    let with_value = |value: &str| {
        let mut data = StringMap::new();
        data.insert("k".to_string(), value.to_string());
        let mut s = follower(&[], 0);
        s.sm = StateMachineData { last_applied: Some(applied), data };
        s
    };
    assert!(check_state_invariants(&[(1, with_value("v")), (2, with_value("v"))]).passed);
    let result = check_state_invariants(&[(1, with_value("v")), (2, with_value("w"))]);
    assert_eq!(result.violations.len(), 1);
    assert_eq!(
        result.violations[0].to_record(),
        "StateMachineDivergence { index: 17, nodes: [1, 2] }"
    );
    let mut later = with_value("w");
    later.sm.last_applied = Some(LogId { term: 1, node_id: 1, index: 18 });
    assert!(check_state_invariants(&[(1, with_value("v")), (2, later)]).passed);
    let mut other_leader = with_value("w");
    other_leader.sm.last_applied = Some(LogId { term: 2, node_id: 3, index: 17 });
    assert_eq!(
        records(&check_state_invariants(&[(4, with_value("v")), (2, other_leader)]).violations),
        vec!["StateMachineDivergence { index: 17, nodes: [4, 2] }".to_string()]
    );
    let mut nothing = with_value("w");
    nothing.sm.last_applied = None;
    assert!(check_state_invariants(&[(1, nothing.clone()), (2, with_value("v"))]).passed);
    assert!(check_state_invariants(&[(1, with_value("v")), (2, nothing)]).passed);
}

#[test]
fn logs_of_leaders_reach_to_what_was_committed_before_their_term() {
    let committed = follower(&[1, 1, 1], 3);
    let short = snapshot(ServerState::Leader, 2, &[1], None, None);
    let result = check_state_invariants(&[(5, committed.clone()), (7, short)]);
    assert!(!result.passed);
    assert_eq!(
        records(&result.violations),
        vec!["LeaderMissingCommitted { term: 2, leader: 7, missing_index: 2 }".to_string()]
    );

    let empty = snapshot(ServerState::Leader, 2, &[], None, None);
    let two = [(7, empty), (5, committed.clone()), (6, follower(&[1, 1], 2))];
    assert_eq!(
        records(&check_state_invariants(&two).violations),
        vec!["LeaderMissingCommitted { term: 2, leader: 7, missing_index: 0 }".to_string()]
    );

    let complete = snapshot(ServerState::Leader, 2, &[1, 1, 1], None, None);
    let purged = snapshot(ServerState::Leader, 2, &[], None, Some(3));
    let candidate = snapshot(ServerState::Candidate, 2, &[1], None, None);
    let same_term = snapshot(ServerState::Leader, 1, &[1], None, None);
    for leader in [complete, purged, candidate, same_term] {
        assert!(check_state_invariants(&[(5, committed.clone()), (7, leader)]).passed);
    }
}

#[test]
fn leaders_hold_no_other_entries_than_were_committed() {
    let committed = follower(&[1, 1, 1], 3);
    let missing = |leader: FullNodeSnapshot, other: FullNodeSnapshot| {
        records(&check_state_invariants(&[(5, other), (7, leader)]).violations)
    };
    let at = |index: u64| vec![format!("LeaderMissingCommitted {{ term: 2, leader: 7, missing_index: {} }}", index)];
    let leader = |terms: &[u64]| snapshot(ServerState::Leader, 2, terms, None, None);

    // One entry was lost, and the leader's first entry stands in its place.
    assert_eq!(missing(leader(&[1, 1, 2]), committed.clone()), at(3));
    // Two were lost: the leader's log ends before the last one.
    assert_eq!(missing(leader(&[1, 2]), committed.clone()), at(2));
    // Or it goes on beyond it.
    assert_eq!(missing(leader(&[1, 2, 2, 2]), committed.clone()), at(2));
    // An earlier entry was lost.
    assert_eq!(missing(leader(&[2, 1, 1]), committed.clone()), at(1));
    // The other node has dropped what it has committed.
    let dropped = snapshot(ServerState::Follower, 1, &[], Some(3), Some(3));
    assert_eq!(missing(leader(&[1, 1, 2]), dropped), at(3));
    // What is not committed may be lost.
    assert!(missing(leader(&[1, 1, 2]), follower(&[1, 1, 1], 2)).is_empty());
    assert!(missing(leader(&[1, 1, 1, 2]), committed.clone()).is_empty());
    // The leader's term is over: the other node knows of a later one.
    let mut later = committed;
    later.raft.vote.term = 3;
    assert!(missing(leader(&[1, 1, 2]), later.clone()).is_empty());
    later.raft.vote.term = 2;
    assert_eq!(missing(leader(&[1, 1, 2]), later), at(3));
}

#[test]
fn the_first_lost_index_of_all_nodes_is_reported() {
    let leader = snapshot(ServerState::Leader, 2, &[1, 2, 2, 2], None, None);
    let nodes = [(4, follower(&[1, 1, 1, 1], 4)), (7, leader), (9, follower(&[1, 1, 1], 3))];
    assert_eq!(
        records(&check_state_invariants(&nodes).violations),
        vec!["LeaderMissingCommitted { term: 2, leader: 7, missing_index: 2 }".to_string()]
    );
    let dropped = snapshot(ServerState::Follower, 1, &[], Some(3), Some(3));
    let leader = snapshot(ServerState::Leader, 2, &[1, 2, 2, 2], None, None);
    let nodes = [(4, dropped), (7, leader), (9, follower(&[1, 1], 2))];
    assert_eq!(
        records(&check_state_invariants(&nodes).violations),
        vec!["LeaderMissingCommitted { term: 2, leader: 7, missing_index: 2 }".to_string()]
    );
}

#[test]
fn last_index_of_a_log() {
    let log = |terms: &[u64], purged: Option<u64>| {
        snapshot(ServerState::Follower, 1, terms, None, purged).raft.log_ids
    };
    assert_eq!(log(&[], None).last(), None);
    assert_eq!(log(&[1, 1], None).last(), Some(2));
    assert_eq!(log(&[], Some(9)).last(), Some(9));
    assert_eq!(log(&[1, 1], Some(1)).last(), Some(2));
    assert_eq!(log(&[1, 1], Some(9)).last(), Some(9));
}
