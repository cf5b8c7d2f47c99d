//! Clients that write to the cluster at random, and the record of what they did.

use rand::rngs::StdRng;
use vstd::prelude::*;
use vstd::string::*;

use crate::cluster::ClusterInfo;
use crate::rng;
use crate::rng::draw_range64;
use crate::rng::draw_word32;
use crate::rng::draw_word64;
use crate::rng::seed_rng;
use crate::text;
use crate::text::append_decimal;
use crate::typ::NodeId;
use crate::typ::Request;
use crate::typ::RequestView;
use crate::typ::Response;

pub use crate::history::Operation;
pub use crate::history::OperationHistory;
pub use crate::history::OperationResult;

verus! {

// ---------------------------------------------------------------------------
// Messages
// ---------------------------------------------------------------------------

/// Client request to be sent to a Raft node.
#[derive(Debug, Clone)]
pub struct ClientWriteRequest {
    pub request: Request,
}

/// Client response from a Raft node.
#[derive(Debug, Clone)]
pub enum ClientWriteResponse {
    Success(Response),
    NotLeader { leader_id: Option<NodeId> },
    Error(String),
}

/// Where a node that does not lead sends its clients.
#[derive(Debug, Clone, Copy)]
pub struct ForwardToLeader {
    pub leader_id: Option<NodeId>,
}

/// How a node failed to execute a write: the reason as text, and where to go
/// instead if the node does not lead.
#[derive(Debug, Clone)]
pub struct WriteFailure {
    pub forward: Option<ForwardToLeader>,
    pub message: String,
}

/// The answer to a write that a node tried to execute.
pub open spec fn answer_to(result: Result<Response, WriteFailure>) -> ClientWriteResponse {
    match result {
        Ok(done) => ClientWriteResponse::Success(done),
        Err(failure) => match failure.forward {
            Some(forward) => ClientWriteResponse::NotLeader { leader_id: forward.leader_id },
            None => ClientWriteResponse::Error(failure.message),
        },
    }
}

impl ClientWriteResponse {
    /// The answer to a write that a node tried to execute.
    pub fn from_result(result: Result<Response, WriteFailure>) -> (response: Self)
        ensures
            response == answer_to(result),
            response == match result {
                Ok(done) => ClientWriteResponse::Success(done),
                Err(failure) => match failure.forward {
                    Some(forward) => ClientWriteResponse::NotLeader { leader_id: forward.leader_id },
                    None => ClientWriteResponse::Error(failure.message),
                },
            },
    {
        match result {
            Ok(done) => ClientWriteResponse::Success(done),
            Err(failure) => match failure.forward {
                Some(forward) => ClientWriteResponse::NotLeader { leader_id: forward.leader_id },
                None => ClientWriteResponse::Error(failure.message),
            },
        }
    }
}

/// Why a client got no answer to its request.
#[derive(Debug, Clone)]
pub enum ClientError {
    ConnectionFailed(String),
    SerializationError(String),
    Io(String),
    TooManyRedirects,
    RaftError(String),
}

/// How an error is written in messages.
pub open spec fn error_text(error: ClientError) -> Seq<char> {
    match error {
        ClientError::ConnectionFailed(reason) => "Connection failed: "@ + reason@,
        ClientError::SerializationError(reason) => "Serialization error: "@ + reason@,
        ClientError::Io(reason) => "IO error: "@ + reason@,
        ClientError::TooManyRedirects => "Too many redirects"@,
        ClientError::RaftError(reason) => "Raft error: "@ + reason@,
    }
}

impl ClientError {
    /// The error as text.
    pub fn to_string(&self) -> (message: String)
        ensures
            message@ == error_text(*self),
    {
        match self {
            ClientError::ConnectionFailed(reason) => String::from_str("Connection failed: ").concat(reason.as_str()),
            ClientError::SerializationError(reason) => String::from_str("Serialization error: ").concat(reason.as_str()),
            ClientError::Io(reason) => String::from_str("IO error: ").concat(reason.as_str()),
            ClientError::TooManyRedirects => String::from_str("Too many redirects"),
            ClientError::RaftError(reason) => String::from_str("Raft error: ").concat(reason.as_str()),
        }
    }
}

// ---------------------------------------------------------------------------
// Sending requests
// ---------------------------------------------------------------------------

/// A random client that sends requests to the cluster.
pub struct RandomClient {
    rng: StdRng,
    client_id: String,
    serial: u64,
    cluster: ClusterInfo,
    /// Track which node we think is leader.
    leader_hint: Option<NodeId>,
}

/// What a client is made of, with the state of its generator and text in place
/// of the generator and the strings.
pub struct RandomClientView {
    pub rng: Seq<u32>,
    pub client_id: Seq<char>,
    pub serial: u64,
    pub cluster: ClusterInfo,
    pub leader_hint: Option<NodeId>,
}

impl View for RandomClient {
    type V = RandomClientView;

    closed spec fn view(&self) -> RandomClientView {
        RandomClientView {
            rng: rng::rng_state(self.rng),
            client_id: self.client_id@,
            serial: self.serial,
            cluster: self.cluster,
            leader_hint: self.leader_hint,
        }
    }
}

/// How many times a request is sent before the client gives up.
pub const MAX_ATTEMPTS: u32 = 5;

/// Where the next attempt of a client goes.
#[derive(Debug, Clone)]
pub struct Attempt {
    pub node_id: NodeId,
    pub addr: String,
}

/// What a client does once an attempt has ended.
#[derive(Debug, Clone)]
pub enum SendStep {
    /// Return the response.
    Done(Response),
    /// Return the error.
    Fail(ClientError),
    /// Wait, then try again.
    Retry { delay_ms: u64 },
}

impl RandomClientView {
    /// Whether the next attempt has somewhere to go: the node that is thought to
    /// lead has an address, or, without such a node, the cluster has nodes and
    /// each has an address.
    pub open spec fn can_attempt(self) -> bool {
        match self.leader_hint {
            Some(id) => self.cluster.nodes@.contains_key(id),
            None => self.cluster.node_ids@.len() > 0 && self.cluster.all_known(),
        }
    }

    /// The next request of the client, and the client after it.
    pub open spec fn with_request(self) -> (RequestView, RandomClientView) {
        let (key, middle) = rng::word32_draw(self.rng);
        let (value, after) = rng::word64_draw(middle);
        let serial = (self.serial + 1) as u64;
        (
            RequestView {
                client_id: self.client_id,
                serial,
                key: "key-"@ + text::decimal(key as nat % 100),
                value: "value-"@ + text::decimal(value as nat),
            },
            RandomClientView { rng: after, serial, ..self },
        )
    }

    /// The node that the next attempt goes to: the one that is thought to lead,
    /// else one drawn from the cluster.
    pub open spec fn next_node(self) -> NodeId {
        match self.leader_hint {
            Some(id) => id,
            None => self.cluster.node_ids@[(rng::word64_draw(self.rng).0 as nat % self.cluster.node_ids@.len()) as int],
        }
    }

    /// The client once the next attempt is on its way.
    pub open spec fn attempted(self) -> RandomClientView {
        match self.leader_hint {
            Some(_) => self,
            None => RandomClientView { rng: rng::word64_draw(self.rng).1, ..self },
        }
    }

    /// The client once an attempt has ended: a node that does not lead tells who
    /// does, and a node that cannot be reached is not asked again.
    pub open spec fn answered(self, reply: Result<ClientWriteResponse, ClientError>) -> RandomClientView {
        match reply {
            Ok(ClientWriteResponse::NotLeader { leader_id }) => RandomClientView { leader_hint: leader_id, ..self },
            Ok(_) => self,
            Err(_) => RandomClientView { leader_hint: None, ..self },
        }
    }
}

/// What a client does once an attempt has ended.
pub open spec fn step_after(reply: Result<ClientWriteResponse, ClientError>) -> SendStep {
    match reply {
        Ok(ClientWriteResponse::Success(response)) => SendStep::Done(response),
        Ok(ClientWriteResponse::NotLeader { leader_id }) => SendStep::Retry { delay_ms: 10 },
        Ok(ClientWriteResponse::Error(message)) => SendStep::Fail(ClientError::RaftError(message)),
        Err(_) => SendStep::Retry { delay_ms: 50 },
    }
}

impl RandomClient {
    /// The client for a seed. It starts with node 1 as its guess at the leader.
    pub fn new(seed: u64, cluster: ClusterInfo) -> (client: Self)
        ensures
            client@ == (RandomClientView {
                rng: rng::seeded_state(seed),
                client_id: "client-"@ + text::decimal(seed as nat),
                serial: 0,
                cluster,
                leader_hint: Some(1),
            }),
    {
        let mut client_id = String::from_str("client-");
        append_decimal(&mut client_id, seed);
        RandomClient { rng: seed_rng(seed), client_id, serial: 0, cluster, leader_hint: Some(1) }
    }

    /// Generate a random write request.
    pub fn gen_request(&mut self) -> (request: Request)
        requires
            old(self)@.serial < u64::MAX,
        ensures
            (request@, final(self)@) == old(self)@.with_request(),
            ({
                let (key, middle) = rng::word32_draw(old(self)@.rng);
                let (value, after) = rng::word64_draw(middle);
                let serial = (old(self)@.serial + 1) as u64;
                &&& request@ == (RequestView {
                    client_id: old(self)@.client_id,
                    serial,
                    key: "key-"@ + text::decimal(key as nat % 100),
                    value: "value-"@ + text::decimal(value as nat),
                })
                &&& final(self)@ == (RandomClientView { rng: after, serial, ..old(self)@ })
            }),
    {
        self.serial = self.serial + 1;
        let mut key = String::from_str("key-");
        append_decimal(&mut key, (draw_word32(&mut self.rng) % 100) as u64);
        let mut value = String::from_str("value-");
        append_decimal(&mut value, draw_word64(&mut self.rng));
        Request { client_id: self.client_id.clone(), serial: self.serial, key, value }
    }

    /// Whether the next attempt has somewhere to go.
    pub fn can_attempt(&self) -> (yes: bool)
        ensures
            yes == self@.can_attempt(),
    {
        match self.leader_hint {
            Some(id) => self.cluster.nodes.contains_key(&id),
            None => self.cluster.node_ids.len() > 0 && self.cluster.knows_all(),
        }
    }

    /// Begins an attempt to send a request, after `attempts` earlier ones: the
    /// error says that there were too many.
    pub fn next_attempt(&mut self, attempts: u32) -> (attempt: Result<Attempt, ClientError>)
        requires
            attempts < MAX_ATTEMPTS ==> old(self)@.can_attempt(),
        ensures
            match attempt {
                Ok(a) => {
                    &&& attempts < MAX_ATTEMPTS
                    &&& a.node_id == old(self)@.next_node()
                    &&& a.addr@ == old(self)@.cluster.nodes@[a.node_id].addr@
                    &&& final(self)@ == old(self)@.attempted()
                },
                Err(e) => {
                    &&& attempts >= MAX_ATTEMPTS
                    &&& e == ClientError::TooManyRedirects
                    &&& final(self)@ == old(self)@
                },
            },
    {
        if attempts >= MAX_ATTEMPTS {
            return Err(ClientError::TooManyRedirects);
        }
        let node_id: NodeId = match self.leader_hint {
            Some(id) => id,
            None => {
                let at: u64 = draw_word64(&mut self.rng) % (self.cluster.node_ids.len() as u64);
                self.cluster.node_ids[at as usize]
            },
        };
        Ok(Attempt { node_id, addr: String::from_str(self.cluster.addr(node_id)) })
    }

    /// Ends an attempt, with the reply or with the error in reaching the node.
    pub fn after_attempt(&mut self, reply: Result<ClientWriteResponse, ClientError>) -> (step: SendStep)
        ensures
            step == step_after(reply),
            final(self)@ == old(self)@.answered(reply),
    {
        match reply {
            Ok(ClientWriteResponse::Success(response)) => SendStep::Done(response),
            Ok(ClientWriteResponse::NotLeader { leader_id }) => {
                self.leader_hint = leader_id;
                SendStep::Retry { delay_ms: 10 }
            },
            Ok(ClientWriteResponse::Error(message)) => SendStep::Fail(ClientError::RaftError(message)),
            Err(_) => {
                self.leader_hint = None;
                SendStep::Retry { delay_ms: 50 }
            },
        }
    }

    /// How long the client waits between two requests, in milliseconds.
    pub fn draw_pause(&mut self) -> (delay_ms: u64)
        ensures
            10 <= delay_ms < 100,
            (delay_ms, final(self)@.rng) == rng::range64_draw(old(self)@.rng, 10, 99),
            final(self)@ == (RandomClientView { rng: final(self)@.rng, ..old(self)@ }),
    {
        draw_range64(&mut self.rng, 10, 99)
    }
}

// ---------------------------------------------------------------------------
// Laws
// ---------------------------------------------------------------------------

/// What comes of sending a request when the attempts end as the replies say, in
/// their order; nothing if the replies run out first.
pub open spec fn outcome(
    attempts: nat,
    replies: Seq<Result<ClientWriteResponse, ClientError>>,
) -> Option<Result<Response, ClientError>>
    decreases replies.len(),
{
    if attempts >= MAX_ATTEMPTS {
        Some(Err(ClientError::TooManyRedirects))
    } else if replies.len() == 0 {
        None
    } else {
        match step_after(replies[0]) {
            SendStep::Done(response) => Some(Ok(response)),
            SendStep::Fail(error) => Some(Err(error)),
            SendStep::Retry { .. } => outcome(attempts + 1, replies.drop_first()),
        }
    }
}

/// A request is decided after five attempts at the latest, whatever the replies.
pub proof fn sending_ends(attempts: nat, replies: Seq<Result<ClientWriteResponse, ClientError>>)
    requires
        attempts + replies.len() >= MAX_ATTEMPTS,
    ensures
        outcome(attempts, replies) is Some,
    decreases replies.len(),
{
    if attempts < MAX_ATTEMPTS {
        sending_ends(attempts + 1, replies.drop_first());
    }
}

/// A request is given up for too many redirects exactly if all five attempts were
/// redirected or did not reach the node.
pub proof fn giving_up_means_five_retries(replies: Seq<Result<ClientWriteResponse, ClientError>>)
    ensures
        outcome(0, replies) == Some(Err::<Response, ClientError>(ClientError::TooManyRedirects)) <==> {
            &&& replies.len() >= MAX_ATTEMPTS
            &&& forall|i: int| 0 <= i < MAX_ATTEMPTS ==> step_after(#[trigger] replies[i]) is Retry
        },
{
    lemma_giving_up(0, replies);
}

/// The same after some attempts.
proof fn lemma_giving_up(attempts: nat, replies: Seq<Result<ClientWriteResponse, ClientError>>)
    requires
        attempts <= MAX_ATTEMPTS,
    ensures
        outcome(attempts, replies) == Some(Err::<Response, ClientError>(ClientError::TooManyRedirects)) <==> {
            &&& replies.len() >= MAX_ATTEMPTS - attempts
            &&& forall|i: int| 0 <= i < MAX_ATTEMPTS - attempts ==> step_after(#[trigger] replies[i]) is Retry
        },
    decreases replies.len(),
{
    if attempts < MAX_ATTEMPTS && replies.len() > 0 {
        let rest = replies.drop_first();
        let left = MAX_ATTEMPTS - attempts;
        lemma_giving_up(attempts + 1, rest);
        if replies.len() >= left && forall|i: int| 0 <= i < left ==> step_after(#[trigger] replies[i]) is Retry {
            assert forall|i: int| 0 <= i < left - 1 implies step_after(#[trigger] rest[i]) is Retry by {
                assert(rest[i] == replies[i + 1]);
            }
            assert(step_after(replies[0]) is Retry);
        }
        if replies.len() >= left && step_after(replies[0]) is Retry && forall|i: int|
            0 <= i < left - 1 ==> step_after(#[trigger] rest[i]) is Retry {
            assert forall|i: int| 0 <= i < left implies step_after(#[trigger] replies[i]) is Retry by {
                if i > 0 {
                    assert(rest[i - 1] == replies[i]);
                }
            }
        }
    }
}

/// A client follows a redirect: after a node has named the leader, the next
/// attempt goes there. After a node has named none, or could not be reached, it
/// goes to a node of the cluster.
pub proof fn redirects_are_followed(client: RandomClientView, reply: Result<ClientWriteResponse, ClientError>)
    requires
        client.cluster.node_ids@.len() > 0,
    ensures
        reply matches Ok(ClientWriteResponse::NotLeader { leader_id: Some(leader) })
            ==> client.answered(reply).next_node() == leader,
        reply matches Ok(ClientWriteResponse::NotLeader { leader_id: None })
            ==> client.cluster.node_ids@.contains(client.answered(reply).next_node()),
        reply is Err ==> client.cluster.node_ids@.contains(client.answered(reply).next_node()),
{
    let after = client.answered(reply);
    if after.leader_hint is None {
        let at = (rng::word64_draw(after.rng).0 as nat % after.cluster.node_ids@.len()) as int;
        assert(client.cluster.node_ids@[at] == after.next_node());
    }
}

/// A node that cannot be reached, for whatever reason, is given up for another attempt
/// after 50 ms, with no node thought to lead.
pub proof fn unreached_nodes_are_retried(client: RandomClientView, error: ClientError)
    ensures
        step_after(Err(error)) == (SendStep::Retry { delay_ms: 50 }),
        client.answered(Err(error)) == (RandomClientView { leader_hint: None, ..client }),
{
}

/// A redirect is followed after 10 ms, to the node that it names, if it names one.
pub proof fn redirects_are_retried(client: RandomClientView, leader_id: Option<NodeId>)
    ensures
        step_after(Ok(ClientWriteResponse::NotLeader { leader_id })) == (SendStep::Retry { delay_ms: 10 }),
        client.answered(Ok(ClientWriteResponse::NotLeader { leader_id })) == (RandomClientView {
            leader_hint: leader_id,
            ..client
        }),
{
}

/// An answer of a node that leads is final: a response is returned as it is, and a refusal
/// is returned as an error with its text. The client goes on thinking that this node leads.
pub proof fn answers_are_final(client: RandomClientView, response: Response, message: String)
    ensures
        step_after(Ok(ClientWriteResponse::Success(response))) == SendStep::Done(response),
        step_after(Ok(ClientWriteResponse::Error(message))) == SendStep::Fail(ClientError::RaftError(message)),
        client.answered(Ok(ClientWriteResponse::Success(response))) == client,
        client.answered(Ok(ClientWriteResponse::Error(message))) == client,
{
}

/// Whether a reply decides nothing: the node could not be reached, or does not lead.
spec fn is_undecided(reply: Result<ClientWriteResponse, ClientError>) -> bool {
    reply is Err || reply->Ok_0 is NotLeader
}

proof fn lemma_outcome(attempts: nat, replies: Seq<Result<ClientWriteResponse, ClientError>>, k: int)
    requires
        0 <= k <= replies.len(),
        attempts + k <= 5,
        forall|i: int| 0 <= i < k ==> is_undecided(#[trigger] replies[i]),
    ensures
        outcome(attempts, replies) == outcome((attempts + k) as nat, replies.skip(k)),
    decreases k,
{
    if k == 0 {
        assert(replies.skip(0) =~= replies);
    } else {
        let rest = replies.drop_first();
        assert(is_undecided(replies[0]));
        assert forall|i: int| 0 <= i < k - 1 implies is_undecided(#[trigger] rest[i]) by {
            assert(rest[i] == replies[i + 1]);
        }
        lemma_outcome(attempts + 1, rest, k - 1);
        assert(rest.skip(k - 1) =~= replies.skip(k));
    }
}

/// A write is decided by the first of the first five replies in which a node that leads
/// answers: `k` is its place. A response makes the write succeed with it, a refusal makes
/// it fail with the text of the refusal.
pub proof fn first_answer_decides(replies: Seq<Result<ClientWriteResponse, ClientError>>, k: int)
    requires
        0 <= k < replies.len(),
        k < 5,
        forall|i: int|
            0 <= i < k ==> (#[trigger] replies[i] is Err || replies[i]->Ok_0 is NotLeader),
    ensures
        replies[k] matches Ok(ClientWriteResponse::Success(response)) ==> outcome(0, replies) == Some(
            Ok::<Response, ClientError>(response),
        ),
        replies[k] matches Ok(ClientWriteResponse::Error(message)) ==> outcome(0, replies) == Some(
            Err::<Response, ClientError>(ClientError::RaftError(message)),
        ),
{
    assert forall|i: int| 0 <= i < k implies is_undecided(#[trigger] replies[i]) by {
        assert(replies[i] is Err || replies[i]->Ok_0 is NotLeader);
    }
    lemma_outcome(0, replies, k);
    assert(replies.skip(k)[0] == replies[k]);
}

/// A write is given up for too many redirects if five attempts were redirected or did not
/// reach the node, whatever the errors were, and not before the fifth.
pub proof fn five_attempts_are_made(replies: Seq<Result<ClientWriteResponse, ClientError>>)
    requires
        forall|i: int|
            0 <= i < replies.len() && i < 5 ==> (#[trigger] replies[i] is Err || replies[i]->Ok_0 is NotLeader),
    ensures
        replies.len() >= 5 ==> outcome(0, replies) == Some(
            Err::<Response, ClientError>(ClientError::TooManyRedirects),
        ),
        replies.len() < 5 ==> outcome(0, replies) is None,
{
    let k: int = if replies.len() >= 5 {
        5
    } else {
        replies.len() as int
    };
    assert forall|i: int| 0 <= i < k implies is_undecided(#[trigger] replies[i]) by {
        assert(replies[i] is Err || replies[i]->Ok_0 is NotLeader);
    }
    lemma_outcome(0, replies, k);
}

/// A write fails with another error than too many redirects only if a node has refused it,
/// and then with the text of the refusal.
pub proof fn only_refusals_fail(replies: Seq<Result<ClientWriteResponse, ClientError>>, error: ClientError) -> (k: int)
    requires
        outcome(0, replies) == Some(Err::<Response, ClientError>(error)),
        error != ClientError::TooManyRedirects,
    ensures
        0 <= k < replies.len(),
        k < 5,
        replies[k] is Ok,
        replies[k]->Ok_0 is Error,
        error == ClientError::RaftError(replies[k]->Ok_0->Error_0),
{
    lemma_refusal(0, replies, error)
}

proof fn lemma_refusal(
    attempts: nat,
    replies: Seq<Result<ClientWriteResponse, ClientError>>,
    error: ClientError,
) -> (k: int)
    requires
        attempts <= 5,
        outcome(attempts, replies) == Some(Err::<Response, ClientError>(error)),
        error != ClientError::TooManyRedirects,
    ensures
        0 <= k < replies.len(),
        attempts + k < 5,
        replies[k] is Ok,
        replies[k]->Ok_0 is Error,
        error == ClientError::RaftError(replies[k]->Ok_0->Error_0),
    decreases replies.len(),
{
    if replies[0] is Ok && replies[0]->Ok_0 is Error {
        0
    } else {
        lemma_refusal(attempts + 1, replies.drop_first(), error) + 1
    }
}

/// An attempt goes to the node that is thought to lead, and draws nothing; without such a
/// node it goes to the node of the cluster at the place that was drawn.
pub proof fn attempts_go_to_the_leader_or_a_drawn_node(client: RandomClientView)
    ensures
        client.leader_hint matches Some(id) ==> client.next_node() == id && client.attempted() == client,
        client.leader_hint is None && client.cluster.node_ids@.len() > 0 ==> {
            let (word, after) = rng::word64_draw(client.rng);
            let at = word as int % client.cluster.node_ids@.len() as int;
            &&& client.next_node() == client.cluster.node_ids@[at]
            &&& client.attempted() == (RandomClientView { rng: after, ..client })
        },
        client.leader_hint matches Some(id) ==> (client.can_attempt() <==> client.cluster.nodes@.contains_key(id)),
        client.leader_hint is None && client.can_attempt() ==> client.cluster.nodes@.contains_key(client.next_node()),
{
    if client.leader_hint is None && client.can_attempt() {
        let at = (rng::word64_draw(client.rng).0 as nat % client.cluster.node_ids@.len()) as int;
        assert(client.cluster.node_ids@.contains(client.cluster.node_ids@[at]));
    }
}

/// The text of an error ends with its reason.
pub proof fn error_texts_end_with_their_reason(reason: String)
    ensures
        ({
            let n = reason@.len();
            let failed = error_text(ClientError::ConnectionFailed(reason));
            let io = error_text(ClientError::Io(reason));
            let raft = error_text(ClientError::RaftError(reason));
            let serialization = error_text(ClientError::SerializationError(reason));
            &&& failed.len() >= n && failed.skip(failed.len() - n) == reason@
            &&& io.len() >= n && io.skip(io.len() - n) == reason@
            &&& raft.len() >= n && raft.skip(raft.len() - n) == reason@
            &&& serialization.len() >= n && serialization.skip(serialization.len() - n) == reason@
        }),
{
    let n = reason@.len();
    let failed = error_text(ClientError::ConnectionFailed(reason));
    let io = error_text(ClientError::Io(reason));
    let raft = error_text(ClientError::RaftError(reason));
    let serialization = error_text(ClientError::SerializationError(reason));
    assert(failed.skip(failed.len() - n) =~= reason@);
    assert(io.skip(io.len() - n) =~= reason@);
    assert(raft.skip(raft.len() - n) =~= reason@);
    assert(serialization.skip(serialization.len() - n) =~= reason@);
}

/// A node answers a write with what came of it: the response, who leads where it does not
/// lead itself, even if it knows no leader, or else the reason of the failure.
pub proof fn nodes_answer_what_came_of_a_write(
    response: Response,
    failure: WriteFailure,
    forward: ForwardToLeader,
    reply: Result<Response, WriteFailure>,
)
    ensures
        answer_to(Ok(response)) == ClientWriteResponse::Success(response),
        failure.forward == Some(forward) ==> answer_to(Err(failure)) == (ClientWriteResponse::NotLeader {
            leader_id: forward.leader_id,
        }),
        failure.forward is None ==> answer_to(Err(failure)) == ClientWriteResponse::Error(failure.message),
        answer_to(reply) is Success <==> reply is Ok,
{
}

/// What a client asks for next is a write of a drawn value to one of a hundred keys, with the
/// next serial number. The two draws are all that changes in the client besides.
pub proof fn requests_are_drawn(client: RandomClientView)
    requires
        client.serial < u64::MAX,
    ensures
        ({
            let (key, middle) = rng::word32_draw(client.rng);
            let (value, after) = rng::word64_draw(middle);
            let (request, next) = client.with_request();
            &&& request.client_id == client.client_id
            &&& request.serial == client.serial + 1
            &&& request.key.take(4) == "key-"@
            &&& text::parsed_u64(request.key.skip(4)) == Some((key % 100) as u64)
            &&& request.value.take(6) == "value-"@
            &&& text::parsed_u64(request.value.skip(6)) == Some(value)
            &&& next == (RandomClientView { rng: after, serial: (client.serial + 1) as u64, ..client })
        }),
{
    let (key, middle) = rng::word32_draw(client.rng);
    let (value, after) = rng::word64_draw(middle);
    let request = client.with_request().0;
    reveal_strlit("key-");
    reveal_strlit("value-");
    assert(request.key.take(4) =~= "key-"@);
    assert(request.value.take(6) =~= "value-"@);
    assert(request.key.skip(4) =~= text::decimal(key as nat % 100));
    assert(request.value.skip(6) =~= text::decimal(value as nat));
    text::decimal_reads_back((key % 100) as u64);
    text::decimal_reads_back(value);
}

/// An error is told by its kind and, where there is one, the reason. Errors of different
/// kinds are never told in the same words.
pub proof fn errors_are_told_apart(error: ClientError, other: ClientError, reason: String)
    ensures
        error_text(ClientError::ConnectionFailed(reason)) == "Connection failed: "@ + reason@,
        error_text(ClientError::SerializationError(reason)) == "Serialization error: "@ + reason@,
        error_text(ClientError::Io(reason)) == "IO error: "@ + reason@,
        error_text(ClientError::RaftError(reason)) == "Raft error: "@ + reason@,
        error_text(ClientError::TooManyRedirects) == "Too many redirects"@,
        error_text(error) == error_text(other) ==> {
            &&& error is ConnectionFailed <==> other is ConnectionFailed
            &&& error is SerializationError <==> other is SerializationError
            &&& error is Io <==> other is Io
            &&& error is RaftError <==> other is RaftError
            &&& error is TooManyRedirects <==> other is TooManyRedirects
        },
{
    reveal_strlit("Connection failed: ");
    reveal_strlit("Serialization error: ");
    reveal_strlit("IO error: ");
    reveal_strlit("Raft error: ");
    reveal_strlit("Too many redirects");
    assert(error is ConnectionFailed <==> error_text(error)[0] == 'C');
    assert(error is SerializationError <==> error_text(error)[0] == 'S');
    assert(error is Io <==> error_text(error)[0] == 'I');
    assert(error is RaftError <==> error_text(error)[0] == 'R');
    assert(other is ConnectionFailed <==> error_text(other)[0] == 'C');
    assert(other is SerializationError <==> error_text(other)[0] == 'S');
    assert(other is Io <==> error_text(other)[0] == 'I');
    assert(other is RaftError <==> error_text(other)[0] == 'R');
}

} // verus!
