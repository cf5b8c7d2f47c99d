//! The record of client operations, and the client that fills it.

use vstd::prelude::*;

use crate::client;
use crate::client::ClientError;
use crate::client::RandomClient;
use crate::client::RandomClientView;
use crate::cluster::ClusterInfo;
use crate::rng;
use crate::strmap::StringMap;
use crate::text;
use crate::typ::Request;
use crate::typ::RequestView;
use crate::typ::Response;

verus! {

/// Record of a client operation for linearizability checking.
#[derive(Debug, Clone)]
pub struct Operation {
    pub client_id: String,
    pub serial: u64,
    pub request: Request,
    pub start_time: u64,
    pub end_time: Option<u64>,
    pub result: OperationResult,
}

/// How an operation ended.
#[derive(Debug, Clone)]
pub enum OperationResult {
    Pending,
    Success(Response),
    Failed(String),
}

/// History of all operations for invariant checking.
pub struct OperationHistory {
    pub operations: Vec<Operation>,
    /// For each key, the serial numbers and values that were committed.
    pub committed_values: StringMap<Vec<(u64, String)>>,
}

/// The operation that starts with a request.
pub open spec fn started(request: Request, time: u64) -> Operation {
    Operation {
        client_id: request.client_id,
        serial: request.serial,
        request,
        start_time: time,
        end_time: None,
        result: OperationResult::Pending,
    }
}

/// An operation once it has ended.
pub open spec fn ended(operation: Operation, result: OperationResult, time: u64) -> Operation {
    Operation { end_time: Some(time), result, ..operation }
}

/// How many operations of a sequence have succeeded.
pub open spec fn successes(operations: Seq<Operation>) -> nat {
    operations.filter(|op: Operation| op.result is Success).len()
}

/// How many operations of a sequence have failed.
pub open spec fn failures(operations: Seq<Operation>) -> nat {
    operations.filter(|op: Operation| op.result is Failed).len()
}

/// How many operations of a sequence have not ended.
pub open spec fn pending(operations: Seq<Operation>) -> nat {
    operations.filter(|op: Operation| op.result is Pending).len()
}

impl OperationHistory {
    /// What was committed for each key, in the order in which it was recorded.
    pub open spec fn committed(self) -> Map<Seq<char>, Seq<(u64, String)>> {
        self.committed_values@.map_values(|values: Vec<(u64, String)>| values@)
    }

    /// What was committed for one key.
    pub open spec fn committed_to(self, key: Seq<char>) -> Seq<(u64, String)> {
        commits_to(self.committed(), key)
    }

    /// The committed values after a write of an operation.
    pub open spec fn committed_with(self, op: Operation) -> Map<Seq<char>, Seq<(u64, String)>> {
        self.committed().insert(
            op.request.key@,
            self.committed_to(op.request.key@).push((op.serial, op.request.value)),
        )
    }

    /// The empty history.
    pub fn new() -> (history: Self)
        ensures
            history.operations@ == Seq::<Operation>::empty(),
            history.committed() == Map::<Seq<char>, Seq<(u64, String)>>::empty(),
    {
        let history = OperationHistory { operations: Vec::new(), committed_values: StringMap::new() };
        assert(history.committed() =~= Map::<Seq<char>, Seq<(u64, String)>>::empty());
        history
    }

    /// Records that a request is being sent, and returns the place of its record.
    pub fn record_start(&mut self, req: &Request, time: u64) -> (idx: usize)
        ensures
            idx == old(self).operations@.len(),
            final(self).operations@ == old(self).operations@.push(started(*req, time)),
            final(self).committed_values == old(self).committed_values,
    {
        let idx: usize = self.operations.len();
        self.operations.push(
            Operation {
                client_id: req.client_id.clone(),
                serial: req.serial,
                request: req.copy(),
                start_time: time,
                end_time: None,
                result: OperationResult::Pending,
            },
        );
        idx
    }

    /// Records the response to a request. A place without a record is ignored.
    pub fn record_success(&mut self, idx: usize, resp: Response, time: u64)
        ensures
            idx < old(self).operations@.len() ==> final(self).committed() == old(self).committed_with(
                old(self).operations@[idx as int],
            ),
            idx >= old(self).operations@.len() ==> *final(self) == *old(self),
            idx < old(self).operations@.len() ==> {
                let op = old(self).operations@[idx as int];
                &&& final(self).operations@ == old(self).operations@.update(
                    idx as int,
                    ended(op, OperationResult::Success(resp), time),
                )
                &&& final(self).committed() == old(self).committed().insert(
                    op.request.key@,
                    old(self).committed_to(op.request.key@).push((op.serial, op.request.value)),
                )
            },
    {
        if idx < self.operations.len() {
            self.operations[idx].end_time = Some(time);
            self.operations[idx].result = OperationResult::Success(resp);
            let key = self.operations[idx].request.key.clone();
            let value = self.operations[idx].request.value.clone();
            let serial: u64 = self.operations[idx].serial;
            let mut values: Vec<(u64, String)> = match self.committed_values.remove(&key) {
                Some(values) => values,
                None => Vec::new(),
            };
            values.push((serial, value));
            self.committed_values.insert(key, values);
            proof {
                let op = old(self).operations@[idx as int];
                assert(self.committed() =~= old(self).committed().insert(
                    op.request.key@,
                    old(self).committed_to(op.request.key@).push((op.serial, op.request.value)),
                ));
            }
        }
    }

    /// Records that a request failed. A place without a record is ignored.
    pub fn record_failure(&mut self, idx: usize, error: String, time: u64)
        ensures
            idx >= old(self).operations@.len() ==> *final(self) == *old(self),
            idx < old(self).operations@.len() ==> final(self).operations@ == old(self).operations@.update(
                idx as int,
                ended(old(self).operations@[idx as int], OperationResult::Failed(error), time),
            ),
            final(self).committed_values == old(self).committed_values,
    {
        if idx < self.operations.len() {
            self.operations[idx].end_time = Some(time);
            self.operations[idx].result = OperationResult::Failed(error);
        }
    }

    /// Get count of successful operations.
    pub fn success_count(&self) -> (count: usize)
        ensures
            count == successes(self.operations@),
    {
        let mut count: usize = 0;
        let mut i: usize = 0;
        let ghost done = |op: Operation| op.result is Success;
        while i < self.operations.len()
            invariant
                count <= i <= self.operations@.len(),
                done == (|op: Operation| op.result is Success),
                count == self.operations@.take(i as int).filter(done).len(),
            decreases self.operations.len() - i,
        {
            proof {
                lemma_filter_next(self.operations@, i as int, done);
            }
            if matches!(self.operations[i].result, OperationResult::Success(_)) {
                count = count + 1;
            }
            i = i + 1;
        }
        assert(self.operations@.take(i as int) =~= self.operations@);
        count
    }

    /// Get count of failed operations.
    pub fn failure_count(&self) -> (count: usize)
        ensures
            count == failures(self.operations@),
    {
        let mut count: usize = 0;
        let mut i: usize = 0;
        let ghost failed = |op: Operation| op.result is Failed;
        while i < self.operations.len()
            invariant
                count <= i <= self.operations@.len(),
                failed == (|op: Operation| op.result is Failed),
                count == self.operations@.take(i as int).filter(failed).len(),
            decreases self.operations.len() - i,
        {
            proof {
                lemma_filter_next(self.operations@, i as int, failed);
            }
            if matches!(self.operations[i].result, OperationResult::Failed(_)) {
                count = count + 1;
            }
            i = i + 1;
        }
        assert(self.operations@.take(i as int) =~= self.operations@);
        count
    }
}

impl Default for OperationHistory {
    fn default() -> (history: Self)
        ensures
            history.operations@ == Seq::<Operation>::empty(),
            history.committed() == Map::<Seq<char>, Seq<(u64, String)>>::empty(),
    {
        OperationHistory::new()
    }
}

/// One more item of a sequence adds one to the count if it counts.
proof fn lemma_filter_next<A>(s: Seq<A>, i: int, counts: spec_fn(A) -> bool)
    requires
        0 <= i < s.len(),
    ensures
        s.take(i + 1).filter(counts).len() == s.take(i).filter(counts).len() + if counts(s[i]) {
            1int
        } else {
            0int
        },
{
    reveal(Seq::filter);
    assert(s.take(i + 1).drop_last() =~= s.take(i));
}

// ---------------------------------------------------------------------------
// A client that fills the record
// ---------------------------------------------------------------------------

/// A chaos client: it sends a number of random requests, one after the other,
/// and counts the beginnings and ends of its requests as time.
pub struct ChaosRun {
    pub client: RandomClient,
    pub time: u64,
    /// How many requests are still to be sent.
    pub remaining: usize,
}

/// A request on its way, with the place of its record.
#[derive(Debug, Clone)]
pub struct Pending {
    pub request: Request,
    pub idx: usize,
}

impl ChaosRun {
    /// Whether the clock and the serial numbers last for the remaining requests.
    pub open spec fn lasts(self) -> bool {
        &&& self.time + 2 * self.remaining <= u64::MAX
        &&& self.client@.serial + self.remaining <= u64::MAX
    }

    /// Whether they last while one more request is on its way.
    pub open spec fn lasts_in_flight(self) -> bool {
        &&& self.time + 2 * self.remaining + 1 <= u64::MAX
        &&& self.client@.serial + self.remaining <= u64::MAX
    }

    /// The run of the client for a seed.
    pub fn new(seed: u64, cluster: ClusterInfo, num_requests: usize) -> (run: Self)
        requires
            2 * num_requests <= u64::MAX,
        ensures
            run.time == 0,
            run.remaining == num_requests,
            run.client@ == (RandomClientView {
                rng: rng::seeded_state(seed),
                client_id: "client-"@ + text::decimal(seed as nat),
                serial: 0,
                cluster,
                leader_hint: Some(1),
            }),
            run.lasts(),
    {
        ChaosRun { client: RandomClient::new(seed, cluster), time: 0, remaining: num_requests }
    }

    /// The next request, recorded; nothing once all were sent.
    pub fn begin(&mut self, history: &mut OperationHistory) -> (next: Option<Pending>)
        requires
            old(self).lasts(),
        ensures
            match next {
                None => {
                    &&& old(self).remaining == 0
                    &&& *final(self) == *old(self)
                    &&& *final(history) == *old(history)
                },
                Some(p) => {
                    let (key, middle) = rng::word32_draw(old(self).client@.rng);
                    let (value, after) = rng::word64_draw(middle);
                    let serial = (old(self).client@.serial + 1) as u64;
                    let time = (old(self).time + 1) as u64;
                    &&& old(self).remaining > 0
                    &&& final(self).remaining == old(self).remaining - 1
                    &&& final(self).time == time
                    &&& final(self).client@ == (RandomClientView { rng: after, serial, ..old(self).client@ })
                    &&& p.request@ == (RequestView {
                        client_id: old(self).client@.client_id,
                        serial,
                        key: "key-"@ + text::decimal(key as nat % 100),
                        value: "value-"@ + text::decimal(value as nat),
                    })
                    &&& p.idx == old(history).operations@.len()
                    &&& final(history).operations@ == old(history).operations@.push(started(p.request, time))
                    &&& final(history).committed_values == old(history).committed_values
                    &&& final(self).lasts_in_flight()
                },
            },
    {
        if self.remaining == 0 {
            return None;
        }
        let request = self.client.gen_request();
        self.remaining = self.remaining - 1;
        self.time = self.time + 1;
        let idx: usize = history.record_start(&request, self.time);
        Some(Pending { request, idx })
    }

    /// Records how a request ended. The result is how long the client waits before
    /// the next one, in milliseconds.
    pub fn finish(
        &mut self,
        history: &mut OperationHistory,
        idx: usize,
        result: Result<Response, ClientError>,
    ) -> (delay_ms: u64)
        requires
            old(self).lasts_in_flight(),
        ensures
            10 <= delay_ms < 100,
            (delay_ms, final(self).client@.rng) == rng::range64_draw(old(self).client@.rng, 10, 99),
            final(self).client@ == (RandomClientView { rng: final(self).client@.rng, ..old(self).client@ }),
            final(self).remaining == old(self).remaining,
            final(self).time == old(self).time + 1,
            final(self).lasts(),
            idx >= old(history).operations@.len() ==> *final(history) == *old(history),
            idx < old(history).operations@.len() ==> {
                let op = old(history).operations@[idx as int];
                match result {
                    Ok(response) => {
                        &&& final(history).operations@ == old(history).operations@.update(
                            idx as int,
                            ended(op, OperationResult::Success(response), final(self).time),
                        )
                        &&& final(history).committed() == old(history).committed().insert(
                            op.request.key@,
                            old(history).committed_to(op.request.key@).push((op.serial, op.request.value)),
                        )
                    },
                    Err(error) => {
                        &&& final(history).operations@.len() == old(history).operations@.len()
                        &&& final(history).operations@[idx as int].result matches OperationResult::Failed(message)
                            && message@ == client::error_text(error)
                        &&& final(history).operations@ == old(history).operations@.update(
                            idx as int,
                            ended(op, final(history).operations@[idx as int].result, final(self).time),
                        )
                        &&& final(history).committed_values == old(history).committed_values
                    },
                }
            },
    {
        self.time = self.time + 1;
        match result {
            Ok(response) => history.record_success(idx, response, self.time),
            Err(error) => history.record_failure(idx, error.to_string(), self.time),
        }
        self.client.draw_pause()
    }
}

// ---------------------------------------------------------------------------
// Laws
// ---------------------------------------------------------------------------

/// Each operation has succeeded, failed, or not ended.
pub proof fn operations_are_accounted_for(operations: Seq<Operation>)
    ensures
        successes(operations) + failures(operations) + pending(operations) == operations.len(),
    decreases operations.len(),
{
    reveal(Seq::filter);
    if operations.len() > 0 {
        operations_are_accounted_for(operations.drop_last());
    }
}

/// A request that is sent counts as pending and changes no other count.
pub proof fn start_is_counted(operations: Seq<Operation>, request: Request, time: u64)
    ensures
        pending(operations.push(started(request, time))) == pending(operations) + 1,
        successes(operations.push(started(request, time))) == successes(operations),
        failures(operations.push(started(request, time))) == failures(operations),
{
    reveal(Seq::filter);
    assert(operations.push(started(request, time)).drop_last() =~= operations);
}

/// A pending operation that ends moves from the pending ones to those that
/// succeeded or to those that failed.
pub proof fn end_is_counted(operations: Seq<Operation>, idx: int, result: OperationResult, time: u64)
    requires
        0 <= idx < operations.len(),
        operations[idx].result is Pending,
        !(result is Pending),
    ensures
        ({
            let after = operations.update(idx, ended(operations[idx], result, time));
            &&& pending(after) == pending(operations) - 1
            &&& successes(after) == successes(operations) + if result is Success { 1int } else { 0int }
            &&& failures(after) == failures(operations) + if result is Failed { 1int } else { 0int }
        }),
    decreases operations.len(),
{
    reveal(Seq::filter);
    let after = operations.update(idx, ended(operations[idx], result, time));
    if idx == operations.len() - 1 {
        assert(after.drop_last() =~= operations.drop_last());
    } else {
        let front = operations.drop_last();
        end_is_counted(front, idx, result, time);
        assert(after.drop_last() =~= front.update(idx, ended(front[idx], result, time)));
        assert(after.last() == operations.last());
    }
}

/// What was committed to a key, in a record of commits.
pub open spec fn commits_to(committed: Map<Seq<char>, Seq<(u64, String)>>, key: Seq<char>) -> Seq<(u64, String)> {
    if committed.contains_key(key) {
        committed[key]
    } else {
        Seq::empty()
    }
}

/// Whether the record of commits holds what the operations that succeeded have
/// written, and nothing else.
pub open spec fn commits_are_successes(
    operations: Seq<Operation>,
    committed: Map<Seq<char>, Seq<(u64, String)>>,
) -> bool {
    &&& forall|i: int|
        0 <= i < operations.len() && (#[trigger] operations[i]).result is Success ==> commits_to(
            committed,
            operations[i].request.key@,
        ).contains((operations[i].serial, operations[i].request.value))
    &&& forall|key: Seq<char>, commit: (u64, String)| #[trigger]
        commits_to(committed, key).contains(commit) ==> exists|i: int|
            0 <= i < operations.len() && is_commit(#[trigger] operations[i], key, commit)
}

/// Whether an operation has committed this to the key.
pub open spec fn is_commit(operation: Operation, key: Seq<char>, commit: (u64, String)) -> bool {
    &&& operation.result is Success
    &&& operation.request.key@ == key
    &&& commit == (operation.serial, operation.request.value)
}

/// A request that is sent leaves the commits those of the operations that succeeded.
pub proof fn start_keeps_commits(
    operations: Seq<Operation>,
    committed: Map<Seq<char>, Seq<(u64, String)>>,
    request: Request,
    time: u64,
)
    requires
        commits_are_successes(operations, committed),
    ensures
        commits_are_successes(operations.push(started(request, time)), committed),
{
    let after = operations.push(started(request, time));
    assert forall|i: int| 0 <= i < after.len() && (#[trigger] after[i]).result is Success implies commits_to(
        committed,
        after[i].request.key@,
    ).contains((after[i].serial, after[i].request.value)) by {
        assert(after[i] == operations[i]);
    }
    assert forall|key: Seq<char>, commit: (u64, String)| #[trigger]
        commits_to(committed, key).contains(commit) implies exists|i: int|
        0 <= i < after.len() && is_commit(#[trigger] after[i], key, commit) by {
        let i = choose|i: int| 0 <= i < operations.len() && is_commit(#[trigger] operations[i], key, commit);
        assert(after[i] == operations[i]);
    }
}

/// A response that is recorded leaves the commits those of the operations that
/// succeeded.
pub proof fn success_keeps_commits(
    operations: Seq<Operation>,
    committed: Map<Seq<char>, Seq<(u64, String)>>,
    idx: int,
    response: Response,
    time: u64,
)
    requires
        commits_are_successes(operations, committed),
        0 <= idx < operations.len(),
    ensures
        ({
            let op = operations[idx];
            commits_are_successes(
                operations.update(idx, ended(op, OperationResult::Success(response), time)),
                committed.insert(
                    op.request.key@,
                    commits_to(committed, op.request.key@).push((op.serial, op.request.value)),
                ),
            )
        }),
{
    let op = operations[idx];
    let done = ended(op, OperationResult::Success(response), time);
    let after = operations.update(idx, done);
    let commit_now = (op.serial, op.request.value);
    let before_key = commits_to(committed, op.request.key@);
    let recorded = committed.insert(op.request.key@, before_key.push(commit_now));
    assert(before_key.push(commit_now)[before_key.len() as int] == commit_now);
    assert forall|i: int| 0 <= i < after.len() && (#[trigger] after[i]).result is Success implies commits_to(
        recorded,
        after[i].request.key@,
    ).contains((after[i].serial, after[i].request.value)) by {
        let commit = (after[i].serial, after[i].request.value);
        if i != idx {
            assert(after[i] == operations[i]);
            if after[i].request.key@ == op.request.key@ {
                let j = choose|j: int| 0 <= j < before_key.len() && before_key[j] == commit;
                assert(before_key.push(commit_now)[j] == commit);
            }
        }
    }
    assert forall|key: Seq<char>, commit: (u64, String)| #[trigger]
        commits_to(recorded, key).contains(commit) implies exists|i: int|
        0 <= i < after.len() && is_commit(#[trigger] after[i], key, commit) by {
        if key == op.request.key@ && commit == commit_now {
            assert(is_commit(after[idx], key, commit));
        } else {
            if key == op.request.key@ {
                let j = choose|j: int|
                    0 <= j < before_key.push(commit_now).len() && before_key.push(commit_now)[j] == commit;
                assert(before_key[j] == commit);
            }
            assert(commits_to(committed, key).contains(commit));
            let i = choose|i: int| 0 <= i < operations.len() && is_commit(#[trigger] operations[i], key, commit);
            assert(is_commit(after[i], key, commit));
        }
    }
}

/// A failure that is recorded leaves the commits those of the operations that
/// succeeded, unless the operation had succeeded already.
pub proof fn failure_keeps_commits(
    operations: Seq<Operation>,
    committed: Map<Seq<char>, Seq<(u64, String)>>,
    idx: int,
    error: String,
    time: u64,
)
    requires
        commits_are_successes(operations, committed),
        0 <= idx < operations.len(),
        !(operations[idx].result is Success),
    ensures
        commits_are_successes(
            operations.update(idx, ended(operations[idx], OperationResult::Failed(error), time)),
            committed,
        ),
{
    let after = operations.update(idx, ended(operations[idx], OperationResult::Failed(error), time));
    assert forall|i: int| 0 <= i < after.len() && (#[trigger] after[i]).result is Success implies commits_to(
        committed,
        after[i].request.key@,
    ).contains((after[i].serial, after[i].request.value)) by {
        assert(after[i] == operations[i]);
    }
    assert forall|key: Seq<char>, commit: (u64, String)| #[trigger]
        commits_to(committed, key).contains(commit) implies exists|i: int|
        0 <= i < after.len() && is_commit(#[trigger] after[i], key, commit) by {
        let i = choose|i: int| 0 <= i < operations.len() && is_commit(#[trigger] operations[i], key, commit);
        assert(after[i] == operations[i]);
    }
}

/// A request is recorded as it was sent, with the time of its start, as not ended.
pub proof fn starts_are_recorded_as_sent(request: Request, time: u64)
    ensures
        started(request, time).client_id == request.client_id,
        started(request, time).serial == request.serial,
        started(request, time).request == request,
        started(request, time).start_time == time,
        started(request, time).end_time is None,
        started(request, time).result is Pending,
{
}

/// The end of an operation sets its time and its result and leaves all else as it was.
pub proof fn ends_are_recorded(operation: Operation, result: OperationResult, time: u64)
    ensures
        ended(operation, result, time).end_time == Some(time),
        ended(operation, result, time).result == result,
        ended(operation, result, time).client_id == operation.client_id,
        ended(operation, result, time).serial == operation.serial,
        ended(operation, result, time).request == operation.request,
        ended(operation, result, time).start_time == operation.start_time,
{
}

/// One more operation adds one to the count of those that ended as it did, and to no other.
pub proof fn operations_are_counted_by_their_result(operations: Seq<Operation>, operation: Operation)
    ensures
        successes(Seq::empty()) == 0,
        failures(Seq::empty()) == 0,
        successes(operations.push(operation)) == successes(operations) + if operation.result is Success {
            1int
        } else {
            0int
        },
        failures(operations.push(operation)) == failures(operations) + if operation.result is Failed {
            1int
        } else {
            0int
        },
{
    reveal(Seq::filter);
    assert(operations.push(operation).drop_last() =~= operations);
}

/// What was committed to a key is what the record holds for it, and nothing for a key
/// without a record.
pub proof fn commits_are_found_by_key(history: OperationHistory, key: Seq<char>)
    ensures
        history.committed_values@.contains_key(key) ==> history.committed_to(key) == history.committed_values@[key]@,
        !history.committed_values@.contains_key(key) ==> history.committed_to(key).len() == 0,
{
    assert(history.committed().contains_key(key) == history.committed_values@.contains_key(key));
}

/// The clock and the serial numbers last as long as two ticks and one serial number are
/// left for each request, and one tick for a request on its way.
pub proof fn clocks_last_for_the_requests(run: ChaosRun)
    ensures
        run.lasts() <==> run.time + 2 * run.remaining <= u64::MAX && run.client@.serial + run.remaining <= u64::MAX,
        run.lasts_in_flight() <==> run.time + 2 * run.remaining < u64::MAX && run.client@.serial + run.remaining
            <= u64::MAX,
{
}

/// A write that has succeeded is the last one committed to its key, with its serial and its
/// value. What was committed before, to this key and to others, stays.
pub proof fn writes_are_committed_to_their_key(history: OperationHistory, op: Operation, key: Seq<char>)
    ensures
        ({
            let after = history.committed_with(op);
            let own = op.request.key@;
            &&& after.contains_key(own)
            &&& after[own].last() == (op.serial, op.request.value)
            &&& history.committed().contains_key(own) ==> after[own].drop_last() == history.committed()[own]
            &&& !history.committed().contains_key(own) ==> after[own].len() == 1
            &&& key != own ==> (after.contains_key(key) <==> history.committed().contains_key(key))
            &&& key != own && history.committed().contains_key(key) ==> after[key] == history.committed()[key]
        }),
{
    let own = op.request.key@;
    let values = history.committed_to(own);
    assert(values.push((op.serial, op.request.value)).drop_last() =~= values);
}

} // verus!
