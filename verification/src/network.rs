//! The wire protocol between nodes and clients.
//!
//! A request is `[rpc_type: u8][len: u32][payload]` and a response is
//! `[len: u32][payload]`, both lengths with the most significant byte first.

use vstd::prelude::*;
use vstd::string::*;

use crate::text;
use crate::text::append_decimal;
use crate::typ::Node;
use crate::typ::NodeId;
use crate::typ::RaftMetrics;

verus! {

// ---------------------------------------------------------------------------
// RPC types
// ---------------------------------------------------------------------------

/// RPC message types for the wire protocol.
#[derive(Debug, Clone, Copy, PartialEq, Eq, Structural)]
pub enum RpcType {
    AppendEntries,
    Vote,
    InstallSnapshot,
    ClientWrite,
    /// Query node state for invariant checking.
    StateQuery,
}

/// The byte that stands for an RPC type on the wire.
pub open spec fn rpc_code(rpc_type: RpcType) -> u8 {
    match rpc_type {
        RpcType::AppendEntries => 1,
        RpcType::Vote => 2,
        RpcType::InstallSnapshot => 3,
        RpcType::ClientWrite => 100,
        RpcType::StateQuery => 101,
    }
}

/// The RPC type that a byte stands for.
pub open spec fn rpc_of_code(code: u8) -> Option<RpcType> {
    if code == 1 {
        Some(RpcType::AppendEntries)
    } else if code == 2 {
        Some(RpcType::Vote)
    } else if code == 3 {
        Some(RpcType::InstallSnapshot)
    } else if code == 100 {
        Some(RpcType::ClientWrite)
    } else if code == 101 {
        Some(RpcType::StateQuery)
    } else {
        None
    }
}

impl RpcType {
    /// The byte for this type.
    pub fn code(self) -> (code: u8)
        ensures
            code == rpc_code(self),
    {
        match self {
            RpcType::AppendEntries => 1,
            RpcType::Vote => 2,
            RpcType::InstallSnapshot => 3,
            RpcType::ClientWrite => 100,
            RpcType::StateQuery => 101,
        }
    }

    /// The type for a byte.
    pub fn from_code(code: u8) -> (rpc_type: Option<RpcType>)
        ensures
            rpc_type == rpc_of_code(code),
    {
        match code {
            1 => Some(RpcType::AppendEntries),
            2 => Some(RpcType::Vote),
            3 => Some(RpcType::InstallSnapshot),
            100 => Some(RpcType::ClientWrite),
            101 => Some(RpcType::StateQuery),
            _ => None,
        }
    }
}

// ---------------------------------------------------------------------------
// Frames
// ---------------------------------------------------------------------------

/// A number below 2^32 as four bytes, the most significant first.
pub open spec fn be32(n: int) -> Seq<u8> {
    seq![
        (n / 16777216 % 256) as u8,
        (n / 65536 % 256) as u8,
        (n / 256 % 256) as u8,
        (n % 256) as u8,
    ]
}

/// The number that four bytes stand for, the most significant first.
pub open spec fn be32_value(bytes: Seq<u8>) -> int {
    bytes[0] * 16777216 + bytes[1] * 65536 + bytes[2] * 256 + bytes[3]
}

/// How a length is written: the lowest 32 bits of it.
pub open spec fn length_bytes(len: nat) -> Seq<u8> {
    be32(len as int % 4294967296)
}

/// The bytes of a request.
pub open spec fn request_bytes(rpc_type: RpcType, payload: Seq<u8>) -> Seq<u8> {
    seq![rpc_code(rpc_type)] + length_bytes(payload.len()) + payload
}

/// The bytes of a response.
pub open spec fn response_bytes(payload: Seq<u8>) -> Seq<u8> {
    length_bytes(payload.len()) + payload
}

/// How many bytes stand before the payload of a request.
pub const REQUEST_HEADER: usize = 5;

/// How many bytes stand before the payload of a response.
pub const RESPONSE_HEADER: usize = 4;

/// What the header of a request says.
#[derive(Debug, Clone, Copy, PartialEq, Eq, Structural)]
pub struct RequestHeader {
    pub rpc_type: u8,
    pub payload_len: u32,
}

/// Appends a length.
fn append_length(bytes: &mut Vec<u8>, len: usize)
    ensures
        final(bytes)@ == old(bytes)@ + length_bytes(len as nat),
{
    let n: u64 = len as u64 % 4294967296;
    bytes.push((n / 16777216 % 256) as u8);
    bytes.push((n / 65536 % 256) as u8);
    bytes.push((n / 256 % 256) as u8);
    bytes.push((n % 256) as u8);
    assert(bytes@ =~= old(bytes)@ + length_bytes(len as nat));
}

/// Reads a length that stands at `at`.
fn read_length(bytes: &[u8], at: usize) -> (len: u32)
    requires
        at + 4 <= bytes@.len(),
    ensures
        len == be32_value(bytes@.subrange(at as int, at + 4)),
{
    assert(bytes@.subrange(at as int, at + 4) =~= seq![
        bytes@[at as int],
        bytes@[at + 1],
        bytes@[at + 2],
        bytes@[at + 3],
    ]);
    bytes[at] as u32 * 16777216 + bytes[at + 1] as u32 * 65536 + bytes[at + 2] as u32 * 256 + bytes[at + 3] as u32
}

/// The bytes of a request with a payload.
pub fn request_frame(rpc_type: RpcType, payload: &Vec<u8>) -> (bytes: Vec<u8>)
    ensures
        bytes@ == request_bytes(rpc_type, payload@),
{
    let mut bytes: Vec<u8> = Vec::new();
    bytes.push(rpc_type.code());
    append_length(&mut bytes, payload.len());
    bytes.extend_from_slice(payload.as_slice());
    assert(bytes@ =~= request_bytes(rpc_type, payload@));
    bytes
}

/// The bytes of a response with a payload.
pub fn response_frame(payload: &Vec<u8>) -> (bytes: Vec<u8>)
    ensures
        bytes@ == response_bytes(payload@),
{
    let mut bytes: Vec<u8> = Vec::new();
    append_length(&mut bytes, payload.len());
    bytes.extend_from_slice(payload.as_slice());
    assert(bytes@ =~= response_bytes(payload@));
    bytes
}

/// Reads the header of a request, once all of it has arrived.
pub fn read_request_header(bytes: &[u8]) -> (header: Option<RequestHeader>)
    ensures
        header is Some <==> bytes@.len() >= REQUEST_HEADER,
        header matches Some(h) ==> h.rpc_type == bytes@[0] && h.payload_len == be32_value(bytes@.subrange(1, 5)),
{
    if bytes.len() < REQUEST_HEADER {
        return None;
    }
    Some(RequestHeader { rpc_type: bytes[0], payload_len: read_length(bytes, 1) })
}

/// Reads the header of a response, the length of its payload, once all of it
/// has arrived.
pub fn read_response_header(bytes: &[u8]) -> (payload_len: Option<u32>)
    ensures
        payload_len is Some <==> bytes@.len() >= RESPONSE_HEADER,
        payload_len matches Some(n) ==> n == be32_value(bytes@.subrange(0, 4)),
{
    if bytes.len() < RESPONSE_HEADER {
        return None;
    }
    Some(read_length(bytes, 0))
}

// ---------------------------------------------------------------------------
// Handling a request
// ---------------------------------------------------------------------------

/// Why a request could not be answered.
#[derive(Debug, Clone)]
pub enum RpcFailure {
    /// No RPC type has this byte.
    UnknownType(u8),
    /// The payload does not hold a request; with the reason.
    Decode(String),
    /// The node failed to execute the request; with the reason.
    Execute(String),
    /// The answer could not be written down; with the reason.
    Encode(String),
}

/// The kinds of I/O error that a failure is passed on as.
#[derive(Debug, Clone, Copy, PartialEq, Eq, Structural)]
pub enum RpcErrorKind {
    InvalidData,
    Other,
}

impl RpcFailure {
    /// The kind of I/O error.
    pub open spec fn spec_kind(self) -> RpcErrorKind {
        match self {
            RpcFailure::Execute(_) => RpcErrorKind::Other,
            _ => RpcErrorKind::InvalidData,
        }
    }

    /// The kind of I/O error: what the node itself failed at is `Other`, all
    /// else is invalid data.
    pub fn kind(&self) -> (kind: RpcErrorKind)
        ensures
            kind == self.spec_kind(),
            kind == if *self is Execute {
                RpcErrorKind::Other
            } else {
                RpcErrorKind::InvalidData
            },
    {
        match self {
            RpcFailure::Execute(_) => RpcErrorKind::Other,
            _ => RpcErrorKind::InvalidData,
        }
    }

    /// The failure as text.
    pub fn to_string(&self) -> (message: String)
        ensures
            message@ == match *self {
                RpcFailure::UnknownType(code) => "Unknown RPC type: "@ + text::decimal(code as nat),
                RpcFailure::Decode(reason) => reason@,
                RpcFailure::Execute(reason) => reason@,
                RpcFailure::Encode(reason) => reason@,
            },
    {
        match self {
            RpcFailure::UnknownType(code) => {
                let mut message = String::from_str("Unknown RPC type: ");
                append_decimal(&mut message, *code as u64);
                message
            },
            RpcFailure::Decode(reason) => reason.clone(),
            RpcFailure::Execute(reason) => reason.clone(),
            RpcFailure::Encode(reason) => reason.clone(),
        }
    }
}

/// Which RPC to perform for a request with this type byte.
pub fn dispatch(code: u8) -> (rpc_type: Result<RpcType, RpcFailure>)
    ensures
        rpc_type == match rpc_of_code(code) {
            Some(t) => Ok::<RpcType, RpcFailure>(t),
            None => Err(RpcFailure::UnknownType(code)),
        },
{
    match RpcType::from_code(code) {
        Some(t) => Ok(t),
        None => Err(RpcFailure::UnknownType(code)),
    }
}

/// State query request for invariant checking.
#[derive(Debug, Clone, Copy)]
pub struct StateQueryRequest;

/// State query response: node state for invariant checking.
#[derive(Debug, Clone, Copy)]
pub struct StateQueryResponse {
    pub node_id: NodeId,
    pub metrics: RaftMetrics,
}

impl StateQueryResponse {
    /// The answer of the node that published these metrics.
    pub fn from_metrics(metrics: RaftMetrics) -> (response: Self)
        ensures
            response.node_id == metrics.id,
            response.metrics == metrics,
    {
        StateQueryResponse { node_id: metrics.id, metrics }
    }
}

// ---------------------------------------------------------------------------
// Connections
// ---------------------------------------------------------------------------

/// Network factory that names the connections to other nodes.
#[derive(Debug, Clone, Copy)]
pub struct TurmoilNetwork;

/// A single connection to a target node.
#[derive(Debug, Clone)]
pub struct TurmoilConnection {
    target: NodeId,
    addr: String,
}

impl TurmoilNetwork {
    /// The connection to a node.
    pub fn new_client(&self, target: NodeId, node: &Node) -> (connection: TurmoilConnection)
        ensures
            connection.spec_target() == target,
            connection.spec_addr() == node.addr@,
    {
        TurmoilConnection { target, addr: node.addr.clone() }
    }
}

impl TurmoilConnection {
    /// The node at the other end.
    pub closed spec fn spec_target(self) -> NodeId {
        self.target
    }

    /// The address of the node at the other end.
    pub closed spec fn spec_addr(self) -> Seq<char> {
        self.addr@
    }

    /// The node at the other end.
    pub fn target(&self) -> (target: NodeId)
        ensures
            target == self.spec_target(),
    {
        self.target
    }

    /// The address of the node at the other end.
    pub fn addr(&self) -> (addr: &str)
        ensures
            addr@ == self.spec_addr(),
    {
        self.addr.as_str()
    }
}

// ---------------------------------------------------------------------------
// Laws
// ---------------------------------------------------------------------------

/// A type byte names its RPC type, and no other byte does.
pub proof fn rpc_code_reads_back(rpc_type: RpcType, code: u8)
    ensures
        rpc_of_code(rpc_code(rpc_type)) == Some(rpc_type),
        rpc_of_code(code) == Some(rpc_type) ==> code == rpc_code(rpc_type),
{
}

/// Four bytes give back the number that was written into them.
pub proof fn be32_reads_back(n: int)
    requires
        0 <= n < 4294967296,
    ensures
        be32(n).len() == 4,
        be32_value(be32(n)) == n,
{
}

/// A request is read back as it was written: from its bytes, whatever follows
/// them, the header gives the type byte and the length of the payload, and the
/// bytes of that length after the header are the payload. A payload of 2^32
/// bytes or more does not fit the length field.
pub proof fn request_reads_back(rpc_type: RpcType, payload: Seq<u8>, follows: Seq<u8>)
    requires
        payload.len() < 4294967296,
    ensures
        ({
            let bytes = request_bytes(rpc_type, payload) + follows;
            &&& bytes.len() >= REQUEST_HEADER
            &&& rpc_of_code(bytes[0]) == Some(rpc_type)
            &&& be32_value(bytes.subrange(1, 5)) == payload.len()
            &&& bytes.subrange(5, 5 + be32_value(bytes.subrange(1, 5))) == payload
        }),
{
    let bytes = request_bytes(rpc_type, payload) + follows;
    be32_reads_back(payload.len() as int);
    assert(bytes.subrange(1, 5) =~= length_bytes(payload.len()));
    assert(bytes.subrange(5, 5 + payload.len() as int) =~= payload);
}

/// A response is read back as it was written: from its bytes, whatever follows
/// them, the header gives the length of the payload, and the bytes of that
/// length after the header are the payload. A payload of 2^32 bytes or more does
/// not fit the length field.
pub proof fn response_reads_back(payload: Seq<u8>, follows: Seq<u8>)
    requires
        payload.len() < 4294967296,
    ensures
        ({
            let bytes = response_bytes(payload) + follows;
            &&& bytes.len() >= RESPONSE_HEADER
            &&& be32_value(bytes.subrange(0, 4)) == payload.len()
            &&& bytes.subrange(4, 4 + be32_value(bytes.subrange(0, 4))) == payload
        }),
{
    let bytes = response_bytes(payload) + follows;
    be32_reads_back(payload.len() as int);
    assert(bytes.subrange(0, 4) =~= length_bytes(payload.len()));
    assert(bytes.subrange(4, 4 + payload.len() as int) =~= payload);
}

/// On the wire the requests between nodes are numbered from 1, and those of clients and
/// observers from 100.
pub proof fn wire_codes(code: u8)
    ensures
        rpc_of_code(code) is Some <==> 1 <= code <= 3 || 100 <= code <= 101,
        rpc_of_code(1) == Some(RpcType::AppendEntries),
        rpc_of_code(2) == Some(RpcType::Vote),
        rpc_of_code(3) == Some(RpcType::InstallSnapshot),
        rpc_of_code(100) == Some(RpcType::ClientWrite),
        rpc_of_code(101) == Some(RpcType::StateQuery),
        forall|rpc_type: RpcType| rpc_of_code(#[trigger] rpc_code(rpc_type)) == Some(rpc_type),
{
}

/// Four bytes stand for a number with the most significant byte first.
pub proof fn lengths_are_big_endian(bytes: Seq<u8>, n: int)
    requires
        bytes.len() == 4,
        0 <= n < 4294967296,
    ensures
        be32_value(bytes) == ((bytes[0] * 256 + bytes[1]) * 256 + bytes[2]) * 256 + bytes[3],
        be32(n) == bytes <==> n == ((bytes[0] * 256 + bytes[1]) * 256 + bytes[2]) * 256 + bytes[3],
{
    let (a, b, c, d) = (bytes[0] as int, bytes[1] as int, bytes[2] as int, bytes[3] as int);
    if n == ((a * 256 + b) * 256 + c) * 256 + d {
        lemma_digits_of_256(n, a, b, c, d);
        assert(be32(n) =~= bytes);
    }
    if be32(n) == bytes {
        be32_reads_back(n);
    }
}

/// The four bytes of a number, taken apart.
proof fn lemma_digits_of_256(n: int, a: int, b: int, c: int, d: int)
    requires
        0 <= a < 256,
        0 <= b < 256,
        0 <= c < 256,
        0 <= d < 256,
        n == ((a * 256 + b) * 256 + c) * 256 + d,
    ensures
        n / 16777216 % 256 == a,
        n / 65536 % 256 == b,
        n / 256 % 256 == c,
        n % 256 == d,
{
    let x = a * 256 + b;
    let y = x * 256 + c;
    assert(n == y * 256 + d);
    assert(n / 256 == y);
    assert(n / 65536 == x);
    assert(n / 16777216 == a);
}

/// A frame is its header and its payload and nothing else: a request has a header of five
/// bytes, the code and the length, and a response one of four, the length.
pub proof fn frames_are_header_and_payload(rpc_type: RpcType, payload: Seq<u8>)
    requires
        payload.len() < 4294967296,
    ensures
        request_bytes(rpc_type, payload).len() == 5 + payload.len(),
        rpc_of_code(request_bytes(rpc_type, payload)[0]) == Some(rpc_type),
        request_bytes(rpc_type, payload).skip(5) == payload,
        response_bytes(payload).len() == 4 + payload.len(),
        response_bytes(payload).skip(4) == payload,
        request_bytes(rpc_type, payload).skip(1) == response_bytes(payload),
        ({
            let r = response_bytes(payload);
            payload.len() == ((r[0] * 256 + r[1]) * 256 + r[2]) * 256 + r[3]
        }),
{
    let request = request_bytes(rpc_type, payload);
    let response = response_bytes(payload);
    be32_reads_back(payload.len() as int);
    assert(response.take(4) =~= length_bytes(payload.len()));
    assert(request.skip(5) =~= payload);
    assert(response.skip(4) =~= payload);
    assert(request.skip(1) =~= response);
    lengths_are_big_endian(length_bytes(payload.len()), payload.len() as int);
    assert(response[0] == response.take(4)[0] && response[1] == response.take(4)[1]);
    assert(response[2] == response.take(4)[2] && response[3] == response.take(4)[3]);
}

/// A failure to execute is the node's own; a request that cannot be understood and an answer
/// that cannot be written are invalid data.
pub proof fn kinds_of_failures(code: u8, reason: String)
    ensures
        RpcFailure::Execute(reason).spec_kind() == RpcErrorKind::Other,
        RpcFailure::UnknownType(code).spec_kind() == RpcErrorKind::InvalidData,
        RpcFailure::Decode(reason).spec_kind() == RpcErrorKind::InvalidData,
        RpcFailure::Encode(reason).spec_kind() == RpcErrorKind::InvalidData,
{
}

} // verus!
