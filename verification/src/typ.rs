//! The values that a simulation handles: nodes, client requests and what is
//! known of a node's Raft state.

use std::collections::BTreeMap;
use vstd::prelude::*;
use vstd::string::*;

use crate::ordered;
use crate::text::append_decimal;
use crate::text;

verus! {

broadcast use vstd::laws_cmp::group_laws_cmp;

/// The number of a node in the cluster.
pub type NodeId = u64;

/// Node information: the network address.
#[derive(Debug, Clone, PartialEq, Eq)]
pub struct Node {
    pub addr: String,
}

impl Node {
    /// The address, as text.
    pub fn to_string(&self) -> (text: String)
        ensures
            text@ == self.addr@,
    {
        self.addr.clone()
    }
}

impl Default for Node {
    fn default() -> (node: Self)
        ensures
            node.addr@ == Seq::<char>::empty(),
    {
        Node { addr: String::new() }
    }
}

/// Client request: a simple key-value write operation.
#[derive(Debug, Clone)]
pub struct Request {
    pub client_id: String,
    pub serial: u64,
    pub key: String,
    pub value: String,
}

/// A request with text in place of strings.
pub struct RequestView {
    pub client_id: Seq<char>,
    pub serial: u64,
    pub key: Seq<char>,
    pub value: Seq<char>,
}

impl View for Request {
    type V = RequestView;

    open spec fn view(&self) -> RequestView {
        RequestView {
            client_id: self.client_id@,
            serial: self.serial,
            key: self.key@,
            value: self.value@,
        }
    }
}

/// How a request is written in messages.
pub open spec fn request_text(request: RequestView) -> Seq<char> {
    "Request{client:"@ + request.client_id + ", serial:"@ + text::decimal(request.serial as nat) + ", key:"@ + request.key
        + ", value:"@ + request.value + "}"@
}

impl Request {
    /// The request as text.
    pub fn to_string(&self) -> (text: String)
        ensures
            text@ == request_text(self@),
    {
        let mut text = String::from_str("Request{client:");
        text.append(self.client_id.as_str());
        text.append(", serial:");
        append_decimal(&mut text, self.serial);
        text.append(", key:");
        text.append(self.key.as_str());
        text.append(", value:");
        text.append(self.value.as_str());
        text.append("}");
        text
    }

    /// The same request once more.
    pub fn copy(&self) -> (request: Self)
        ensures
            request == *self,
    {
        Request {
            client_id: self.client_id.clone(),
            serial: self.serial,
            key: self.key.clone(),
            value: self.value.clone(),
        }
    }
}

/// Client response.
#[derive(Debug, Clone, PartialEq, Eq)]
pub struct Response {
    pub value: Option<String>,
}

/// The role that a node plays.
#[derive(Debug, Clone, Copy, PartialEq, Eq, Structural)]
pub enum ServerState {
    Learner,
    Follower,
    Candidate,
    Leader,
    Shutdown,
}

/// The vote that a node has seen last: for which term, and for which node.
#[derive(Debug, Clone, Copy, PartialEq, Eq, Structural)]
pub struct Vote {
    pub term: u64,
    pub node_id: NodeId,
}

/// The identity of a log entry: its index and the leader that proposed it.
#[derive(Debug, Clone, Copy, PartialEq, Eq, Structural)]
pub struct LogId {
    pub term: u64,
    pub node_id: NodeId,
    pub index: u64,
}

/// The identities of the entries in a node's log.
#[derive(Debug, Clone)]
pub struct LogIds {
    /// The last entry that was dropped from the log.
    pub purged: Option<LogId>,
    /// The identity of the entry at each index.
    pub by_index: BTreeMap<u64, LogId>,
}

impl LogIds {
    /// The identity of the entry at an index.
    pub open spec fn spec_get(self, index: u64) -> Option<LogId> {
        if self.by_index@.contains_key(index) {
            Some(self.by_index@[index])
        } else {
            None
        }
    }

    /// The identity of the entry at an index.
    pub fn get(&self, index: u64) -> (id: Option<LogId>)
        ensures
            id == self.spec_get(index),
    {
        match self.by_index.get(&index) {
            Some(id) => Some(*id),
            None => None,
        }
    }

    /// The last index of the log, also where its entry was dropped.
    pub open spec fn spec_last(self) -> Option<u64> {
        let held = ordered::ascending(self.by_index@.dom());
        match self.purged {
            Some(id) => if held.len() > 0 && held.last() > id.index {
                Some(held.last())
            } else {
                Some(id.index)
            },
            None => if held.len() > 0 {
                Some(held.last())
            } else {
                None
            },
        }
    }

    /// The last index of the log, also where its entry was dropped.
    pub fn last(&self) -> (last: Option<u64>)
        ensures
            last == self.spec_last(),
    {
        let held = ordered::ascending_keys(&self.by_index);
        let last_held: Option<u64> = if held.len() > 0 {
            Some(held[held.len() - 1])
        } else {
            None
        };
        match (&self.purged, last_held) {
            (Some(id), Some(last)) => if last > id.index {
                Some(last)
            } else {
                Some(id.index)
            },
            (Some(id), None) => Some(id.index),
            (None, last) => last,
        }
    }
}

/// What a node's Raft core reports of itself.
#[derive(Debug, Clone)]
pub struct RaftStateSnapshot {
    pub server_state: ServerState,
    pub vote: Vote,
    /// The last entry known to be committed.
    pub committed: Option<LogId>,
    pub log_ids: LogIds,
}

/// What a node publishes of itself.
#[derive(Debug, Clone, Copy)]
pub struct RaftMetrics {
    pub id: NodeId,
    pub state: ServerState,
    pub vote: Vote,
}

/// The last index of a log is the highest of those that it holds and of the one that it has
/// dropped last; only a log without any has none.
pub proof fn last_index_is_the_highest(log: LogIds)
    ensures
        log.spec_last() is None <==> log.purged is None && forall|k: u64| !(#[trigger] log.by_index@.contains_key(k)),
        log.spec_last() matches Some(last) ==> {
            &&& log.by_index@.contains_key(last) || (log.purged matches Some(p) && p.index == last)
            &&& forall|k: u64| #[trigger] log.by_index@.contains_key(k) ==> k <= last
            &&& log.purged matches Some(p) ==> p.index <= last
        },
{
    let held = log.by_index@.dom();
    ordered::lemma_ascending(held);
    let listed = ordered::ascending(held);
    if listed.len() > 0 {
        assert(listed.contains(listed.last()));
        assert(log.by_index@.contains_key(listed.last()));
    }
    assert forall|k: u64| #[trigger] log.by_index@.contains_key(k) implies listed.len() > 0 && k <= listed.last() by {
        assert(held.contains(k));
        assert(listed.contains(k));
        let at = choose|at: int| 0 <= at < listed.len() && listed[at] == k;
        assert(listed[at] <= listed.last());
    }
}

/// The entry at an index is the one that the log holds there.
pub proof fn entries_are_found_by_index(log: LogIds, index: u64)
    ensures
        log.by_index@.contains_key(index) ==> log.spec_get(index) == Some(log.by_index@[index]),
        !log.by_index@.contains_key(index) ==> log.spec_get(index) is None,
{
}

/// A request is shown with its client, serial number, key and value, in this order.
pub proof fn requests_show_all_their_parts(request: RequestView)
    ensures
        request_text(request) == "Request{client:"@ + request.client_id + ", serial:"@ + text::decimal(
            request.serial as nat,
        ) + ", key:"@ + request.key + ", value:"@ + request.value + "}"@,
{
}

} // verus!
