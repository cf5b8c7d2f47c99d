//! Tests of the random client and of the record of its operations.

use rand::rngs::StdRng;
use rand::Rng;
use rand::SeedableRng;

use tests_turmoil::client::ClientError;
use tests_turmoil::client::ClientWriteRequest;
use tests_turmoil::client::ClientWriteResponse;
use tests_turmoil::client::ForwardToLeader;
use tests_turmoil::client::OperationHistory;
use tests_turmoil::client::OperationResult;
use tests_turmoil::client::RandomClient;
use tests_turmoil::client::SendStep;
use tests_turmoil::client::WriteFailure;
use tests_turmoil::client::MAX_ATTEMPTS;
use tests_turmoil::cluster::ClusterInfo;
use tests_turmoil::history::ChaosRun;
use tests_turmoil::typ::Request;
use tests_turmoil::typ::Response;

fn request(serial: u64, key: &str, value: &str) -> Request {
    Request { client_id: "c".to_string(), serial, key: key.to_string(), value: value.to_string() }
}

fn response() -> Response {
    Response { value: Some("v".to_string()) }
}

#[test]
fn requests_follow_the_generator() {
    let seed = 77u64;
    let mut client = RandomClient::new(seed, ClusterInfo::numbered(3));
    let mut rng = StdRng::seed_from_u64(seed);
    for serial in 1..=20u64 {
        let request = client.gen_request();
        assert_eq!(request.client_id, "client-77");
        assert_eq!(request.serial, serial);
        assert_eq!(request.key, format!("key-{}", rng.gen::<u32>() % 100));
        assert_eq!(request.value, format!("value-{}", rng.gen::<u64>()));
    }
    assert_eq!(client.draw_pause(), rng.gen_range(10..100u64));
}

#[test]
fn the_first_attempt_goes_to_node_one() {
    let mut client = RandomClient::new(1, ClusterInfo::numbered(3));
    assert!(client.can_attempt());
    let attempt = client.next_attempt(0).unwrap();
    assert_eq!(attempt.node_id, 1);
    assert_eq!(attempt.addr, "node-1:9000");
    assert!(matches!(
        client.after_attempt(Ok(ClientWriteResponse::Success(response()))),
        SendStep::Done(done) if done == response()
    ));
}

#[test]
fn redirects_lead_to_the_named_node() {
    let mut client = RandomClient::new(1, ClusterInfo::numbered(3));
    client.next_attempt(0).unwrap();
    let step = client.after_attempt(Ok(ClientWriteResponse::NotLeader { leader_id: Some(3) }));
    assert!(matches!(step, SendStep::Retry { delay_ms: 10 }));
    assert_eq!(client.next_attempt(1).unwrap().addr, "node-3:9000");
}

#[test]
fn unreachable_nodes_are_left_for_a_drawn_one() {
    let seed = 5u64;
    let mut client = RandomClient::new(seed, ClusterInfo::numbered(7));
    let mut rng = StdRng::seed_from_u64(seed);
    client.next_attempt(0).unwrap();
    let step = client.after_attempt(Err(ClientError::ConnectionFailed("refused".to_string())));
    assert!(matches!(step, SendStep::Retry { delay_ms: 50 }));
    let at = rng.gen::<usize>() % 7;
    assert_eq!(client.next_attempt(1).unwrap().node_id, at as u64 + 1);
    client.after_attempt(Ok(ClientWriteResponse::NotLeader { leader_id: None }));
    let at = rng.gen::<usize>() % 7;
    assert_eq!(client.next_attempt(2).unwrap().node_id, at as u64 + 1);
}

#[test]
fn errors_of_the_node_end_the_sending() {
    let mut client = RandomClient::new(1, ClusterInfo::numbered(3));
    client.next_attempt(0).unwrap();
    let step = client.after_attempt(Ok(ClientWriteResponse::Error("fatal".to_string())));
    assert!(matches!(step, SendStep::Fail(ClientError::RaftError(text)) if text == "fatal"));
}

#[test]
fn five_attempts_are_made() {
    assert_eq!(MAX_ATTEMPTS, 5);
    let mut client = RandomClient::new(1, ClusterInfo::numbered(3));
    for attempts in 0..5 {
        assert!(client.next_attempt(attempts).is_ok());
        client.after_attempt(Ok(ClientWriteResponse::NotLeader { leader_id: Some(2) }));
    }
    assert!(matches!(client.next_attempt(5), Err(ClientError::TooManyRedirects)));
}

#[test]
fn attempts_need_somewhere_to_go() {
    let mut client = RandomClient::new(1, ClusterInfo::numbered(0));
    assert!(!client.can_attempt());
    client.after_attempt(Err(ClientError::Io("closed".to_string())));
    assert!(!client.can_attempt());
    let mut client = RandomClient::new(1, ClusterInfo::numbered(2));
    client.after_attempt(Ok(ClientWriteResponse::NotLeader { leader_id: Some(9) }));
    assert!(!client.can_attempt());
    client.after_attempt(Err(ClientError::Io("closed".to_string())));
    assert!(client.can_attempt());
}

#[test]
fn answers_to_writes() {
    assert!(matches!(
        ClientWriteResponse::from_result(Ok(response())),
        ClientWriteResponse::Success(done) if done == response()
    ));
    let failure = |forward| WriteFailure { forward, message: "no".to_string() };
    assert!(matches!(
        ClientWriteResponse::from_result(Err(failure(Some(ForwardToLeader { leader_id: Some(4) })))),
        ClientWriteResponse::NotLeader { leader_id: Some(4) }
    ));
    assert!(matches!(
        ClientWriteResponse::from_result(Err(failure(Some(ForwardToLeader { leader_id: None })))),
        ClientWriteResponse::NotLeader { leader_id: None }
    ));
    assert!(matches!(
        ClientWriteResponse::from_result(Err(failure(None))),
        ClientWriteResponse::Error(text) if text == "no"
    ));
}

#[test]
fn client_errors_as_text() {
    let reason = || "r".to_string();
    assert_eq!(ClientError::ConnectionFailed(reason()).to_string(), "Connection failed: r");
    assert_eq!(ClientError::SerializationError(reason()).to_string(), "Serialization error: r");
    assert_eq!(ClientError::Io(reason()).to_string(), "IO error: r");
    assert_eq!(ClientError::TooManyRedirects.to_string(), "Too many redirects");
    assert_eq!(ClientError::RaftError(reason()).to_string(), "Raft error: r");
}

#[test]
fn requests_as_text() {
    let write = ClientWriteRequest { request: request(3, "k", "v") };
    assert_eq!(write.request.to_string(), "Request{client:c, serial:3, key:k, value:v}");
    assert_eq!(write.request.copy().value, "v");
}

#[test]
fn history_counts_what_ended() {
    let mut history = OperationHistory::new();
    assert_eq!(history.record_start(&request(1, "a", "x"), 1), 0);
    assert_eq!(history.record_start(&request(2, "a", "y"), 2), 1);
    assert_eq!(history.record_start(&request(3, "b", "z"), 3), 2);
    assert_eq!(history.success_count(), 0);
    assert_eq!(history.failure_count(), 0);
    history.record_success(1, response(), 4);
    history.record_failure(0, "lost".to_string(), 5);
    assert_eq!(history.success_count(), 1);
    assert_eq!(history.failure_count(), 1);
    history.record_success(2, Response { value: None }, 6);
    assert_eq!(history.success_count(), 2);
    assert_eq!(history.operations[1].end_time, Some(4));
    assert_eq!(history.operations[1].start_time, 2);
    assert!(matches!(&history.operations[0].result, OperationResult::Failed(text) if text == "lost"));
    assert!(matches!(&history.operations[2].result, OperationResult::Success(_)));
    assert_eq!(history.committed_values.get(&"a".to_string()), Some(&vec![(2, "y".to_string())]));
    assert_eq!(history.committed_values.get(&"b".to_string()), Some(&vec![(3, "z".to_string())]));
}

#[test]
fn history_accounts_for_every_operation() {
    let mut history = OperationHistory::new();
    for serial in 1..=6u64 {
        history.record_start(&request(serial, "k", "v"), serial);
    }
    history.record_success(0, response(), 7);
    history.record_success(3, response(), 8);
    history.record_failure(4, "lost".to_string(), 9);
    let pending = history.operations.iter().filter(|op| matches!(op.result, OperationResult::Pending)).count();
    assert_eq!(pending, 3);
    assert_eq!(history.success_count() + history.failure_count() + pending, history.operations.len());
    let commits = history.committed_values.get(&"k".to_string()).unwrap();
    assert_eq!(commits.len(), history.success_count());
}

#[test]
fn history_keeps_the_order_of_commits() {
    let mut history = OperationHistory::default();
    for serial in 1..=3u64 {
        history.record_start(&request(serial, "k", &format!("v{}", serial)), serial);
    }
    for idx in [2usize, 0, 1] {
        history.record_success(idx, response(), 10);
    }
    assert_eq!(
        history.committed_values.get(&"k".to_string()),
        Some(&vec![(3, "v3".to_string()), (1, "v1".to_string()), (2, "v2".to_string())])
    );
}

#[test]
fn history_ignores_places_without_a_record() {
    let mut history = OperationHistory::new();
    history.record_success(0, response(), 1);
    history.record_failure(7, "x".to_string(), 1);
    assert!(history.operations.is_empty());
    assert!(history.committed_values.keys().is_empty());
}

#[test]
fn chaos_run_records_and_paces_its_requests() {
    let seed = 9u64;
    let mut rng = StdRng::seed_from_u64(seed);
    let mut history = OperationHistory::new();
    let mut run = ChaosRun::new(seed, ClusterInfo::numbered(3), 2);

    let first = run.begin(&mut history).unwrap();
    assert_eq!(first.idx, 0);
    assert_eq!(first.request.key, format!("key-{}", rng.gen::<u32>() % 100));
    assert_eq!(first.request.value, format!("value-{}", rng.gen::<u64>()));
    assert_eq!(run.finish(&mut history, first.idx, Ok(response())), rng.gen_range(10..100u64));

    let second = run.begin(&mut history).unwrap();
    assert_eq!(second.idx, 1);
    run.finish(&mut history, second.idx, Err(ClientError::TooManyRedirects));
    assert!(run.begin(&mut history).is_none());

    assert_eq!(history.operations[0].start_time, 1);
    assert_eq!(history.operations[0].end_time, Some(2));
    assert_eq!(history.operations[1].start_time, 3);
    assert_eq!(history.operations[1].end_time, Some(4));
    assert_eq!(history.success_count(), 1);
    assert!(matches!(
        &history.operations[1].result,
        OperationResult::Failed(text) if text == "Too many redirects"
    ));
}
