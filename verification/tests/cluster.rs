//! Tests of the cluster's names, its state, and of text and maps.

use tests_turmoil::cluster::boot_step;
use tests_turmoil::cluster::may_initialize;
use tests_turmoil::cluster::node_addresses;
use tests_turmoil::cluster::node_seed;
use tests_turmoil::cluster::register_node_storage;
use tests_turmoil::cluster::BootStep;
use tests_turmoil::cluster::ClusterConfig;
use tests_turmoil::cluster::ClusterInfo;
use tests_turmoil::cluster::ClusterState;
use tests_turmoil::cluster::RaftTiming;
use tests_turmoil::store::StateMachineData;
use tests_turmoil::strmap::StringMap;
use tests_turmoil::text::append_bracketed;
use tests_turmoil::text::contains_text;
use tests_turmoil::text::decimal_text;
use tests_turmoil::text::first_lines;
use tests_turmoil::text::parse_u64;
use tests_turmoil::text::same_text;
use tests_turmoil::typ::LogId;
use tests_turmoil::typ::LogIds;
use tests_turmoil::typ::RaftMetrics;
use tests_turmoil::typ::RaftStateSnapshot;
use tests_turmoil::typ::ServerState;
use tests_turmoil::typ::Vote;

#[test]
fn nodes_are_named_and_reached_by_number() {
    assert_eq!(ClusterInfo::host_name(1), "node-1");
    assert_eq!(ClusterInfo::host_name(u64::MAX), "node-18446744073709551615");
    let cluster = ClusterInfo::numbered(3);
    assert_eq!(cluster.node_ids, vec![1, 2, 3]);
    assert_eq!(cluster.addr(2), "node-2:9000");
    assert!(cluster.knows_all());
    let targets = cluster.targets();
    assert_eq!(targets.len(), 3);
    assert_eq!(targets[2], (3, "node-3:9000".to_string()));
    let nodes = node_addresses(10);
    assert_eq!(nodes.len(), 10);
    assert_eq!(nodes[&10].addr, "node-10:9000");
}

#[test]
fn no_two_nodes_share_a_name_or_an_address() {
    let cluster = ClusterInfo::numbered(120);
    for a in 1..=120u64 {
        for b in (a + 1)..=120u64 {
            assert_ne!(ClusterInfo::host_name(a), ClusterInfo::host_name(b));
            assert_ne!(cluster.addr(a), cluster.addr(b));
        }
    }
}

#[test]
fn nodes_without_an_address_are_noticed() {
    let mut cluster = ClusterInfo::numbered(2);
    cluster.node_ids.push(9);
    assert!(!cluster.knows_all());
}

#[test]
fn default_cluster() {
    let config = ClusterConfig::<RaftTiming>::default();
    assert_eq!(config.num_nodes, 5);
    assert_eq!(config.raft_config.heartbeat_interval, 50);
    assert_eq!(config.raft_config.election_timeout_min, 150);
    assert_eq!(config.raft_config.election_timeout_max, 300);
}

#[test]
fn default_timing_is_that_of_openraft() {
    let config = ClusterConfig::<RaftTiming>::default().raft_config;
    let theirs = openraft::Config::default();
    assert_eq!(config.heartbeat_interval, theirs.heartbeat_interval);
    assert_eq!(config.election_timeout_min, theirs.election_timeout_min);
    assert_eq!(config.election_timeout_max, theirs.election_timeout_max);
}

#[test]
fn cluster_carries_any_raft_configuration() {
    let theirs = openraft::Config { max_payload_entries: 7, ..Default::default() };
    let mut config = ClusterConfig::<RaftTiming>::default().with_raft_config(theirs);
    config.seed = 9;
    assert_eq!(config.num_nodes, 5);
    assert_eq!(config.raft_config.max_payload_entries, 7);
    assert_eq!(config.raft_config.heartbeat_interval, 50);
    assert_eq!(config.with_raft_config(()).seed, 9);
}

#[test]
fn node_seeds_wrap() {
    assert_eq!(node_seed(100, 3), 103);
    assert_eq!(node_seed(u64::MAX, 3), 2);
    assert_ne!(node_seed(7, 1), node_seed(7, 2));
}

#[test]
fn only_the_first_node_initializes_an_empty_cluster() {
    let entry = LogId { term: 1, node_id: 1, index: 0 };
    assert!(may_initialize(1));
    assert!(!may_initialize(2));
    assert_eq!(boot_step(1, None), BootStep::Initialize { delay_ms: 100 });
    assert_eq!(boot_step(1, Some(entry)), BootStep::Serve);
    assert_eq!(boot_step(2, None), BootStep::Serve);
}

#[test]
fn storage_is_kept_over_restarts() {
    let mut state: ClusterState<&str, u32, u32> = ClusterState::new();
    register_node_storage(1, &mut state, || (10, 11));
    register_node_storage(2, &mut state, || (20, 21));
    register_node_storage(1, &mut state, || (30, 31));
    assert_eq!(state.log_stores[&1], 10);
    assert_eq!(state.state_machines[&1], 11);
    assert_eq!(state.log_stores[&2], 20);
    assert!(state.rafts.is_empty());
}

#[test]
fn nodes_are_read_in_order() {
    let mut state: ClusterState<u64, (), u64> = ClusterState::default();
    for id in [3u64, 1, 2] {
        state.rafts.insert(id, id * 10);
        state.state_machines.insert(id, id * 100);
    }
    let metrics = state.get_all_metrics(|raft: &u64| RaftMetrics {
        id: *raft,
        state: ServerState::Follower,
        vote: Vote { term: 1, node_id: 1 },
    });
    let read: Vec<(u64, u64)> = metrics.iter().map(|(id, m)| (*id, m.id)).collect();
    assert_eq!(read, vec![(1, 10), (2, 20), (3, 30)]);

    let snapshots = state.get_all_full_snapshots(
        |raft: &u64| RaftStateSnapshot {
            server_state: ServerState::Follower,
            vote: Vote { term: *raft, node_id: 1 },
            committed: None,
            log_ids: LogIds { purged: None, by_index: Default::default() },
        },
        |machine: &u64| StateMachineData {
            last_applied: Some(LogId { term: 1, node_id: 1, index: *machine }),
            data: StringMap::new(),
        },
    );
    let read: Vec<(u64, u64, u64)> =
        snapshots.iter().map(|(id, s)| (*id, s.raft.vote.term, s.sm.last_applied.unwrap().index)).collect();
    assert_eq!(read, vec![(1, 10, 100), (2, 20, 200), (3, 30, 300)]);
}

#[test]
fn numbers_as_text() {
    for n in [0u64, 9, 10, 99, 100, 1234567890, u64::MAX] {
        assert_eq!(decimal_text(n), n.to_string());
        assert_eq!(parse_u64(&decimal_text(n)), Some(n));
    }
    let mut text = String::from("x=");
    append_bracketed(&mut text, &vec![1, 20, 3]);
    append_bracketed(&mut text, &vec![]);
    assert_eq!(text, "x=[1, 20, 3][]");
}

#[test]
fn text_as_numbers() {
    for text in ["", "+", "-1", " 1", "1 ", "1_000", "0x10", "18446744073709551616", "99999999999999999999", "++1"] {
        assert_eq!(parse_u64(text), None);
        assert!(text.parse::<u64>().is_err());
    }
    for text in ["0", "+5", "007", "18446744073709551615", "000018446744073709551615"] {
        assert_eq!(parse_u64(text), text.parse::<u64>().ok());
    }
}

#[test]
fn texts_are_searched_and_compared() {
    assert!(contains_text("a duration b", "duration"));
    assert!(contains_text("x", ""));
    assert!(!contains_text("durat", "duration"));
    assert!(same_text(&"ab".to_string(), "ab"));
    assert!(!same_text(&"ab".to_string(), "abc"));
}

#[test]
fn lines_are_split_as_in_std() {
    for text in ["", "a", "a\n", "a\nb", "a\r\nb\r", "\n\n", "x\ry\n\r\nz", "\r\n"] {
        let expected: Vec<String> = text.lines().take(3).map(String::from).collect();
        assert_eq!(first_lines(text, 3), expected);
    }
    assert_eq!(first_lines("1\n2\n3\n4", 2), vec!["1".to_string(), "2".to_string()]);
    assert!(first_lines("1\n2", 0).is_empty());
}

#[test]
fn string_maps_hold_one_value_per_key() {
    let key = |k: &str| k.to_string();
    let mut map: StringMap<u32> = StringMap::new();
    map.insert(key("a"), 1);
    map.insert(key("b"), 2);
    map.insert(key("a"), 3);
    assert_eq!(map.get(&key("a")), Some(&3));
    assert_eq!(map.get(&key("c")), None);
    let copy = map.clone();
    assert_eq!(map.remove(&key("a")), Some(3));
    assert_eq!(map.remove(&key("a")), None);
    assert_eq!(map.keys(), vec![key("b")]);
    let mut keys = copy.keys();
    keys.sort();
    assert_eq!(keys, vec![key("a"), key("b")]);
}

#[test]
fn string_maps_are_compared_by_text() {
    let pair = |a: &str, b: &str| {
        let mut map = StringMap::new();
        map.insert("k1".to_string(), a.to_string());
        map.insert("k2".to_string(), b.to_string());
        map
    };
    let mut turned = StringMap::new();
    turned.insert("k2".to_string(), "y".to_string());
    turned.insert("k1".to_string(), "x".to_string());
    assert!(pair("x", "y").same_as(&turned));
    assert!(!pair("x", "z").same_as(&turned));
    turned.insert("k3".to_string(), "w".to_string());
    assert!(!pair("x", "y").same_as(&turned));
    assert!(!turned.same_as(&pair("x", "y")));
}
