//! Tests of the wire protocol.

use tests_turmoil::network::dispatch;
use tests_turmoil::network::read_request_header;
use tests_turmoil::network::read_response_header;
use tests_turmoil::network::request_frame;
use tests_turmoil::network::response_frame;
use tests_turmoil::network::RpcErrorKind;
use tests_turmoil::network::RpcFailure;
use tests_turmoil::network::RpcType;
use tests_turmoil::network::StateQueryResponse;
use tests_turmoil::network::TurmoilNetwork;
use tests_turmoil::typ::Node;
use tests_turmoil::typ::RaftMetrics;
use tests_turmoil::typ::ServerState;
use tests_turmoil::typ::Vote;

const ALL: [(RpcType, u8); 5] = [
    (RpcType::AppendEntries, 1),
    (RpcType::Vote, 2),
    (RpcType::InstallSnapshot, 3),
    (RpcType::ClientWrite, 100),
    (RpcType::StateQuery, 101),
];

#[test]
fn rpc_types_have_their_bytes() {
    for (rpc_type, code) in ALL {
        assert_eq!(rpc_type.code(), code);
        assert_eq!(RpcType::from_code(code), Some(rpc_type));
        assert_eq!(dispatch(code).unwrap(), rpc_type);
    }
    let known: Vec<u8> = (0..=255u8).filter(|code| RpcType::from_code(*code).is_some()).collect();
    assert_eq!(known, vec![1, 2, 3, 100, 101]);
}

#[test]
fn request_bytes() {
    assert_eq!(request_frame(RpcType::ClientWrite, &vec![7, 8, 9]), vec![100, 0, 0, 0, 3, 7, 8, 9]);
    assert_eq!(request_frame(RpcType::Vote, &vec![]), vec![2, 0, 0, 0, 0]);
    let long = vec![1u8; 66051];
    assert_eq!(&request_frame(RpcType::AppendEntries, &long)[..5], &[1, 0, 1, 2, 3]);
}

#[test]
fn response_bytes() {
    assert_eq!(response_frame(&vec![5]), vec![0, 0, 0, 1, 5]);
    assert_eq!(response_frame(&vec![]), vec![0, 0, 0, 0]);
}

#[test]
fn frames_are_read_back() {
    for (rpc_type, code) in ALL {
        for len in [0usize, 1, 255, 256, 70000] {
            let payload: Vec<u8> = (0..len).map(|i| i as u8).collect();
            let request = request_frame(rpc_type, &payload);
            let header = read_request_header(&request).unwrap();
            assert_eq!(header.rpc_type, code);
            assert_eq!(header.payload_len as usize, len);
            assert_eq!(&request[5..], &payload[..]);
            let response = response_frame(&payload);
            assert_eq!(read_response_header(&response), Some(len as u32));
            assert_eq!(&response[4..], &payload[..]);
        }
    }
}

#[test]
fn headers_have_to_be_whole() {
    assert!(read_request_header(&[1, 0, 0, 0]).is_none());
    assert!(read_response_header(&[0, 0, 0]).is_none());
    assert_eq!(read_response_header(&[0xff, 0xff, 0xff, 0xfe]), Some(4294967294));
    let header = read_request_header(&[42, 1, 0, 0, 0, 9]).unwrap();
    assert_eq!(header.rpc_type, 42);
    assert_eq!(header.payload_len, 16777216);
}

#[test]
fn failures_of_requests() {
    let unknown = dispatch(77).unwrap_err();
    assert!(matches!(unknown, RpcFailure::UnknownType(77)));
    assert_eq!(unknown.kind(), RpcErrorKind::InvalidData);
    assert_eq!(unknown.to_string(), "Unknown RPC type: 77");
    let decode = RpcFailure::Decode("bad".to_string());
    assert_eq!(decode.kind(), RpcErrorKind::InvalidData);
    assert_eq!(decode.to_string(), "bad");
    let execute = RpcFailure::Execute("raft".to_string());
    assert_eq!(execute.kind(), RpcErrorKind::Other);
    assert_eq!(execute.to_string(), "raft");
    let encode = RpcFailure::Encode("full".to_string());
    assert_eq!(encode.kind(), RpcErrorKind::InvalidData);
    assert_eq!(encode.to_string(), "full");
}

#[test]
fn connections_name_their_target() {
    let node = Node { addr: "node-4:9000".to_string() };
    let connection = TurmoilNetwork.new_client(4, &node);
    assert_eq!(connection.target(), 4);
    assert_eq!(connection.addr(), "node-4:9000");
    assert_eq!(node.to_string(), "node-4:9000");
    assert_eq!(Node::default().addr, "");
}

#[test]
fn state_queries_are_answered_from_the_metrics() {
    let metrics = RaftMetrics { id: 6, state: ServerState::Leader, vote: Vote { term: 2, node_id: 6 } };
    let response = StateQueryResponse::from_metrics(metrics);
    assert_eq!(response.node_id, 6);
    assert_eq!(response.metrics.vote, Vote { term: 2, node_id: 6 });
}
