//! What runs beside the nodes of a simulation: an agent that disturbs the network,
//! one that changes the membership, and a client that writes.

use rand::rngs::StdRng;
use vstd::prelude::*;
use vstd::string::*;

use crate::iteration;
use crate::listing;
use crate::ordered::IdSet;
use crate::rng;
use crate::rng::draw_range32;
use crate::rng::draw_range64;
use crate::rng::draw_word32;
use crate::rng::seed_rng;
use crate::text;
use crate::text::append_decimal;
use crate::typ::NodeId;
use crate::typ::RaftMetrics;
use crate::typ::Request;
use crate::typ::RequestView;
use crate::typ::ServerState;

verus! {

// ---------------------------------------------------------------------------
// Links between nodes
// ---------------------------------------------------------------------------

/// Two nodes, and the link between them.
pub type Link = (NodeId, NodeId);

/// The links of a node to the other nodes from 1 to `n`.
pub open spec fn links_of(id: NodeId, n: u64) -> Seq<Link>
    decreases n,
{
    if n == 0 {
        Seq::empty()
    } else {
        let before = links_of(id, (n - 1) as u64);
        if n == id {
            before
        } else {
            before.push((id, n))
        }
    }
}

/// The links of a node to the nodes above it, up to `n`.
pub open spec fn links_up(id: NodeId, n: u64) -> Seq<Link>
    decreases n,
{
    if n <= id {
        Seq::empty()
    } else {
        links_up(id, (n - 1) as u64).push((id, n))
    }
}

/// The links between the nodes from 1 to `n`, each once: those of the nodes up to
/// `k` to the nodes above them.
pub open spec fn links_once(k: u64, n: u64) -> Seq<Link>
    decreases k,
{
    if k == 0 {
        Seq::empty()
    } else {
        links_once((k - 1) as u64, n) + links_up(k, n)
    }
}

/// The links between the nodes from 1 to `n`, in both directions: those of the
/// nodes up to `k` to all others.
pub open spec fn links_both_ways(k: u64, n: u64) -> Seq<Link>
    decreases k,
{
    if k == 0 {
        Seq::empty()
    } else {
        links_both_ways((k - 1) as u64, n) + links_of(k, n)
    }
}

/// Appends the links of a node to the other nodes from 1 to `n`.
fn append_links_of(links: &mut Vec<Link>, id: NodeId, n: u64)
    ensures
        final(links)@ == old(links)@ + links_of(id, n),
{
    let mut i: u64 = 0;
    assert(old(links)@ + links_of(id, 0) =~= old(links)@);
    while i < n
        invariant
            i <= n,
            links@ == old(links)@ + links_of(id, i),
        decreases n - i,
    {
        i = i + 1;
        if i != id {
            links.push((id, i));
            assert(links@ =~= old(links)@ + links_of(id, i));
        }
    }
}

/// The links of a node to the other nodes from 1 to `n`.
pub fn node_links(id: NodeId, n: u64) -> (links: Vec<Link>)
    ensures
        links@ == links_of(id, n),
{
    let mut links: Vec<Link> = Vec::new();
    append_links_of(&mut links, id, n);
    assert(links@ =~= links_of(id, n));
    links
}

/// The links between the nodes from 1 to `n`, each once.
pub fn all_links_once(n: u64) -> (links: Vec<Link>)
    ensures
        links@ == links_once(n, n),
{
    let mut links: Vec<Link> = Vec::new();
    let mut i: u64 = 0;
    while i < n
        invariant
            i <= n,
            links@ == links_once(i, n),
        decreases n - i,
    {
        i = i + 1;
        let ghost before = links@;
        let mut j: u64 = i;
        assert(before + links_up(i, i) =~= before);
        while j < n
            invariant
                i <= j <= n,
                links@ == before + links_up(i, j),
            decreases n - j,
        {
            j = j + 1;
            links.push((i, j));
            assert(links@ =~= before + links_up(i, j));
        }
    }
    links
}

/// The links between the nodes from 1 to `n`, in both directions.
pub fn all_links_both_ways(n: u64) -> (links: Vec<Link>)
    ensures
        links@ == links_both_ways(n, n),
{
    let mut links: Vec<Link> = Vec::new();
    let mut i: u64 = 0;
    while i < n
        invariant
            i <= n,
            links@ == links_both_ways(i, n),
        decreases n - i,
    {
        i = i + 1;
        append_links_of(&mut links, i, n);
    }
    links
}

// ---------------------------------------------------------------------------
// The chaos agent
// ---------------------------------------------------------------------------

/// What is done to the network.
#[derive(Debug, Clone)]
pub enum ChaosAction {
    /// Cut these links: a random node is partitioned.
    Partition(Vec<Link>),
    /// Mend these links: all partitions are repaired.
    Repair(Vec<Link>),
    /// Hold the messages between two random nodes. They may be the same node:
    /// [`hold_step`] says what to do then.
    Hold { a: NodeId, b: NodeId },
    /// Release the messages on these links: all holds end.
    Release(Vec<Link>),
    /// Let the system stabilize.
    Rest,
}

/// What follows the draw of two nodes for a hold.
#[derive(Debug, Clone, Copy, PartialEq, Eq, Structural)]
pub enum HoldStep {
    /// Hold the messages between these two nodes, which differ.
    Hold { a: NodeId, b: NodeId },
    /// Draw the second node again.
    DrawAgain { a: NodeId },
}

/// What follows the draw of two nodes for a hold.
pub open spec fn spec_hold_step(a: NodeId, b: NodeId) -> HoldStep {
    if a == b {
        HoldStep::DrawAgain { a }
    } else {
        HoldStep::Hold { a, b }
    }
}

/// What follows the draw of two nodes for a hold: no messages are held between a node
/// and itself.
pub fn hold_step(a: NodeId, b: NodeId) -> (step: HoldStep)
    ensures
        step == spec_hold_step(a, b),
        step matches HoldStep::Hold { a: x, b: y } ==> x == a && y == b && x != y,
        step is DrawAgain <==> a == b,
{
    if a == b {
        HoldStep::DrawAgain { a }
    } else {
        HoldStep::Hold { a, b }
    }
}

/// An agent that disturbs the network between the nodes from 1 to `max_nodes`.
pub struct ChaosAgent {
    pub rng: StdRng,
    pub max_nodes: u64,
}

/// Whether this is the action that a state of the generator gives, and this the
/// state after it.
pub open spec fn is_action(action: ChaosAction, before: Seq<u32>, max_nodes: u64, after: Seq<u32>) -> bool {
    let (kind, s1) = rng::range32_draw(before, 0, 4);
    if kind == 0 {
        let (victim, s2) = rng::range64_draw(s1, 1, max_nodes);
        &&& action matches ChaosAction::Partition(links) && links@ == links_of(victim, max_nodes)
        &&& after == s2
    } else if kind == 1 {
        &&& action matches ChaosAction::Repair(links) && links@ == links_once(max_nodes, max_nodes)
        &&& after == s1
    } else if kind == 2 {
        let (first, s2) = rng::range64_draw(s1, 1, max_nodes);
        let (second, s3) = rng::range64_draw(s2, 1, max_nodes);
        &&& action matches ChaosAction::Hold { a, b } && a == first && b == second
        &&& after == s3
    } else if kind == 3 {
        &&& action matches ChaosAction::Release(links) && links@ == links_both_ways(max_nodes, max_nodes)
        &&& after == s1
    } else {
        action is Rest && after == s1
    }
}

impl ChaosAgent {
    /// The agent of an iteration.
    pub fn new(iteration_seed: u64, max_nodes: u64) -> (agent: Self)
        ensures
            rng::rng_state(agent.rng) == rng::seeded_state(iteration::offset_seed(iteration_seed, 1000)),
            agent.max_nodes == max_nodes,
    {
        ChaosAgent { rng: seed_rng(iteration_seed.wrapping_add(1000)), max_nodes }
    }

    /// How long the agent waits before it acts, in milliseconds.
    pub fn draw_delay(&mut self) -> (delay_ms: u64)
        ensures
            1000 <= delay_ms < 5000,
            (delay_ms, rng::rng_state(final(self).rng)) == rng::range64_draw(
                rng::rng_state(old(self).rng),
                1000,
                4999,
            ),
            final(self).max_nodes == old(self).max_nodes,
    {
        draw_range64(&mut self.rng, 1000, 4999)
    }

    /// What the agent does next.
    pub fn draw_action(&mut self) -> (action: ChaosAction)
        requires
            old(self).max_nodes >= 1,
        ensures
            is_action(
                action,
                rng::rng_state(old(self).rng),
                old(self).max_nodes,
                rng::rng_state(final(self).rng),
            ),
            action matches ChaosAction::Hold { a, b } ==> 1 <= a <= old(self).max_nodes && 1 <= b <= old(self).max_nodes,
            final(self).max_nodes == old(self).max_nodes,
    {
        let kind: u32 = draw_range32(&mut self.rng, 0, 4);
        if kind == 0 {
            let victim: NodeId = draw_range64(&mut self.rng, 1, self.max_nodes);
            ChaosAction::Partition(node_links(victim, self.max_nodes))
        } else if kind == 1 {
            ChaosAction::Repair(all_links_once(self.max_nodes))
        } else if kind == 2 {
            let a: NodeId = draw_range64(&mut self.rng, 1, self.max_nodes);
            let b: NodeId = draw_range64(&mut self.rng, 1, self.max_nodes);
            ChaosAction::Hold { a, b }
        } else if kind == 3 {
            ChaosAction::Release(all_links_both_ways(self.max_nodes))
        } else {
            ChaosAction::Rest
        }
    }

    /// Draws the second node of a hold again.
    pub fn draw_again(&mut self, a: NodeId) -> (step: HoldStep)
        requires
            old(self).max_nodes >= 1,
        ensures
            ({
                let (b, after) = rng::range64_draw(rng::rng_state(old(self).rng), 1, old(self).max_nodes);
                &&& step == spec_hold_step(a, b)
                &&& rng::rng_state(final(self).rng) == after
            }),
            step matches HoldStep::Hold { a: x, b } ==> x == a && x != b && 1 <= b <= old(self).max_nodes,
            final(self).max_nodes == old(self).max_nodes,
    {
        let b: NodeId = draw_range64(&mut self.rng, 1, self.max_nodes);
        hold_step(a, b)
    }
}

// ---------------------------------------------------------------------------
// The membership agent
// ---------------------------------------------------------------------------

/// The first node of a list.
pub open spec fn first(ids: Seq<NodeId>) -> Option<NodeId> {
    if ids.len() == 0 {
        None
    } else {
        Some(ids[0])
    }
}

/// The first node that says that it leads.
pub fn find_leader(metrics: &Vec<(NodeId, RaftMetrics)>) -> (leader: Option<NodeId>)
    ensures
        leader == first(iteration::leaders(metrics@)),
{
    let mut leader: Option<NodeId> = None;
    let mut i: usize = 0;
    while i < metrics.len()
        invariant
            i <= metrics@.len(),
            leader == first(iteration::leaders(metrics@.take(i as int))),
        decreases metrics.len() - i,
    {
        assert(metrics@.take(i + 1).drop_last() =~= metrics@.take(i as int));
        if leader.is_none() && metrics[i].1.state == ServerState::Leader {
            leader = Some(metrics[i].0);
        }
        i = i + 1;
    }
    assert(metrics@.take(i as int) =~= metrics@);
    leader
}

/// What the membership agent does when it wakes up.
pub enum MembershipStep {
    /// Nothing was requested.
    Wait,
    /// Ask the leader for this membership.
    Change { leader: NodeId, voters: IdSet },
    /// Nobody leads: put the request back and wait longer.
    Requeue { voters: IdSet, delay_ms: u64 },
}

/// How long the membership agent sleeps, in milliseconds.
pub const MEMBERSHIP_PAUSE: u64 = 100;

/// What the membership agent does with the membership that was requested, if any,
/// when this node leads.
pub open spec fn spec_membership_step(requested: Option<IdSet>, leader: Option<NodeId>) -> MembershipStep {
    match requested {
        None => MembershipStep::Wait,
        Some(voters) => match leader {
            Some(leader) => MembershipStep::Change { leader, voters },
            None => MembershipStep::Requeue { voters, delay_ms: 500 },
        },
    }
}

/// What the membership agent does with the membership that was requested, if any,
/// when this node leads.
pub fn membership_step(requested: Option<IdSet>, leader: Option<NodeId>) -> (step: MembershipStep)
    ensures
        step == spec_membership_step(requested, leader),
        match requested {
            None => step is Wait,
            Some(set) => match leader {
                Some(id) => step == (MembershipStep::Change { leader: id, voters: set }),
                None => step == (MembershipStep::Requeue { voters: set, delay_ms: 500 }),
            },
        },
{
    match requested {
        None => MembershipStep::Wait,
        Some(voters) => match leader {
            Some(leader) => MembershipStep::Change { leader, voters },
            None => MembershipStep::Requeue { voters, delay_ms: 500 },
        },
    }
}

/// What a slot holds once a request was put back.
pub open spec fn requeued(slot: Option<IdSet>, voters: IdSet) -> Option<IdSet> {
    if slot is Some {
        slot
    } else {
        Some(voters)
    }
}

/// Puts a request back, unless there is a newer one.
pub fn requeue(slot: &mut Option<IdSet>, voters: IdSet)
    ensures
        *final(slot) == requeued(*old(slot), voters),
        *final(slot) == match *old(slot) {
            Some(newer) => Some(newer),
            None => Some(voters),
        },
{
    if slot.is_none() {
        *slot = Some(voters);
    }
}

// ---------------------------------------------------------------------------
// The workload
// ---------------------------------------------------------------------------

/// The next write after `count` successful ones, and the state of the generator after it.
pub open spec fn next_write(count: u64, rng_state: Seq<u32>) -> (RequestView, Seq<u32>) {
    let (word, after) = rng::word32_draw(rng_state);
    let request = RequestView {
        client_id: "workload"@,
        serial: count,
        key: "key-"@ + text::decimal(count as nat % 1000),
        value: "value-"@ + text::decimal(count as nat) + "-"@ + text::decimal(word as nat),
    };
    (request, after)
}

/// How many writes have succeeded after one more.
pub open spec fn writes_after(count: u64, succeeded: bool) -> int {
    if succeeded {
        count + 1
    } else {
        count as int
    }
}

/// A client that writes to whichever node leads.
pub struct Workload {
    pub rng: StdRng,
    /// How many writes have succeeded.
    pub write_count: u64,
}

impl Workload {
    /// The workload of an iteration.
    pub fn new(iteration_seed: u64) -> (workload: Self)
        ensures
            rng::rng_state(workload.rng) == rng::seeded_state(iteration::offset_seed(iteration_seed, 2000)),
            workload.write_count == 0,
    {
        Workload { rng: seed_rng(iteration_seed.wrapping_add(2000)), write_count: 0 }
    }

    /// How long the client waits before it looks for a leader, in milliseconds.
    pub fn draw_delay(&mut self) -> (delay_ms: u64)
        ensures
            10 <= delay_ms < 50,
            (delay_ms, rng::rng_state(final(self).rng)) == rng::range64_draw(rng::rng_state(old(self).rng), 10, 49),
            final(self).write_count == old(self).write_count,
    {
        draw_range64(&mut self.rng, 10, 49)
    }

    /// The next write.
    pub fn next_request(&mut self) -> (request: Request)
        ensures
            (request@, rng::rng_state(final(self).rng)) == next_write(
                old(self).write_count,
                rng::rng_state(old(self).rng),
            ),
            ({
                let (word, after) = rng::word32_draw(rng::rng_state(old(self).rng));
                let count = old(self).write_count;
                &&& request@ == (RequestView {
                    client_id: "workload"@,
                    serial: count,
                    key: "key-"@ + text::decimal(count as nat % 1000),
                    value: "value-"@ + text::decimal(count as nat) + "-"@ + text::decimal(word as nat),
                })
                &&& rng::rng_state(final(self).rng) == after
                &&& final(self).write_count == count
            }),
    {
        let mut key = String::from_str("key-");
        append_decimal(&mut key, self.write_count % 1000);
        let mut value = String::from_str("value-");
        append_decimal(&mut value, self.write_count);
        value.append("-");
        append_decimal(&mut value, draw_word32(&mut self.rng) as u64);
        Request { client_id: String::from_str("workload"), serial: self.write_count, key, value }
    }

    /// Counts a write, if it has succeeded.
    pub fn record(&mut self, succeeded: bool)
        requires
            succeeded ==> old(self).write_count < u64::MAX,
        ensures
            final(self).rng == old(self).rng,
            final(self).write_count == writes_after(old(self).write_count, succeeded),
            final(self).write_count == if succeeded {
                old(self).write_count + 1
            } else {
                old(self).write_count as int
            },
    {
        if succeeded {
            self.write_count = self.write_count + 1;
        }
    }
}

// ---------------------------------------------------------------------------
// Laws
// ---------------------------------------------------------------------------

/// A sequence with one more item holds that item and what it held before.
proof fn lemma_push_contains(links: Seq<Link>, link: Link, other: Link)
    ensures
        links.push(link).contains(other) <==> links.contains(other) || other == link,
{
    let after = links.push(link);
    assert(after[links.len() as int] == link);
    if links.contains(other) {
        let i = choose|i: int| 0 <= i < links.len() && links[i] == other;
        assert(after[i] == other);
    }
    if after.contains(other) && other != link {
        let i = choose|i: int| 0 <= i < after.len() && after[i] == other;
        assert(links[i] == other);
    }
}

/// Two sequences put together hold what each of them holds.
proof fn lemma_sum_contains(a: Seq<Link>, b: Seq<Link>, link: Link)
    ensures
        (a + b).contains(link) <==> a.contains(link) || b.contains(link),
{
    let sum = a + b;
    if a.contains(link) {
        let i = choose|i: int| 0 <= i < a.len() && a[i] == link;
        assert(sum[i] == link);
    }
    if b.contains(link) {
        let i = choose|i: int| 0 <= i < b.len() && b[i] == link;
        assert(sum[a.len() + i] == link);
    }
    if sum.contains(link) {
        let i = choose|i: int| 0 <= i < sum.len() && sum[i] == link;
        if i < a.len() {
            assert(a[i] == link);
        } else {
            assert(b[i - a.len()] == link);
        }
    }
}

/// A partition cuts a node off from every other node, and cuts nothing else.
pub proof fn partition_isolates(id: NodeId, n: u64, link: Link)
    ensures
        links_of(id, n).contains(link) <==> link.0 == id && 1 <= link.1 <= n && link.1 != id,
    decreases n,
{
    if n > 0 {
        let m = (n - 1) as u64;
        partition_isolates(id, m, link);
        if n != id {
            lemma_push_contains(links_of(id, m), (id, n), link);
        }
    }
}

/// The links of a node to the nodes above it.
proof fn lemma_links_up(id: NodeId, n: u64, link: Link)
    ensures
        links_up(id, n).contains(link) <==> link.0 == id && id < link.1 <= n,
    decreases n,
{
    if n > id {
        let m = (n - 1) as u64;
        lemma_links_up(id, m, link);
        lemma_push_contains(links_up(id, m), (id, n), link);
    }
}

/// The links of the nodes up to `k` to the nodes above them.
proof fn lemma_links_once(k: u64, n: u64, link: Link)
    ensures
        links_once(k, n).contains(link) <==> 1 <= link.0 <= k && link.0 < link.1 <= n,
    decreases k,
{
    if k > 0 {
        let m = (k - 1) as u64;
        lemma_links_once(m, n, link);
        lemma_links_up(k, n, link);
        lemma_sum_contains(links_once(m, n), links_up(k, n), link);
    }
}

/// The links of the nodes up to `k` to all others.
proof fn lemma_links_both_ways(k: u64, n: u64, link: Link)
    ensures
        links_both_ways(k, n).contains(link) <==> 1 <= link.0 <= k && 1 <= link.1 <= n && link.0 != link.1,
    decreases k,
{
    if k > 0 {
        let m = (k - 1) as u64;
        lemma_links_both_ways(m, n, link);
        partition_isolates(k, n, link);
        lemma_sum_contains(links_both_ways(m, n), links_of(k, n), link);
    }
}

/// A repair mends every link between two nodes, from the lower to the higher one,
/// and so all that a partition has cut, in either direction.
pub proof fn repair_mends_every_link(n: u64, a: NodeId, b: NodeId)
    ensures
        links_once(n, n).contains((a, b)) <==> 1 <= a < b <= n,
        1 <= a <= n && links_of(a, n).contains((a, b)) ==> links_once(n, n).contains((a, b)) || links_once(
            n,
            n,
        ).contains((b, a)),
{
    lemma_links_once(n, n, (a, b));
    lemma_links_once(n, n, (b, a));
    partition_isolates(a, n, (a, b));
}

/// A release frees every link between two nodes, in both directions.
pub proof fn release_frees_every_link(n: u64, a: NodeId, b: NodeId)
    ensures
        links_both_ways(n, n).contains((a, b)) <==> 1 <= a <= n && 1 <= b <= n && a != b,
{
    lemma_links_both_ways(n, n, (a, b));
}

/// A partition, a repair and a release name no link twice.
pub proof fn links_are_named_once(id: NodeId, n: u64)
    ensures
        links_of(id, n).no_duplicates(),
        links_once(n, n).no_duplicates(),
        links_both_ways(n, n).no_duplicates(),
{
    lemma_links_of_once(id, n);
    lemma_links_once_once(n, n);
    lemma_links_both_ways_once(n, n);
}

proof fn lemma_links_of_once(id: NodeId, n: u64)
    ensures
        links_of(id, n).no_duplicates(),
    decreases n,
{
    if n > 0 {
        let m = (n - 1) as u64;
        lemma_links_of_once(id, m);
        if n != id {
            partition_isolates(id, m, (id, n));
            let before = links_of(id, m);
            assert forall|i: int| 0 <= i < before.len() implies before[i] != (id, n) by {
                assert(before.contains(before[i]));
            }
        }
    }
}

proof fn lemma_links_up_once(id: NodeId, n: u64)
    ensures
        links_up(id, n).no_duplicates(),
    decreases n,
{
    if n > id {
        let m = (n - 1) as u64;
        lemma_links_up_once(id, m);
        lemma_links_up(id, m, (id, n));
        let before = links_up(id, m);
        assert forall|i: int| 0 <= i < before.len() implies before[i] != (id, n) by {
            assert(before.contains(before[i]));
        }
    }
}

proof fn lemma_links_once_once(k: u64, n: u64)
    ensures
        links_once(k, n).no_duplicates(),
    decreases k,
{
    if k > 0 {
        let m = (k - 1) as u64;
        lemma_links_once_once(m, n);
        lemma_links_up_once(k, n);
        assert forall|link: Link| !(#[trigger] links_once(m, n).contains(link) && links_up(k, n).contains(link)) by {
            lemma_links_once(m, n, link);
            lemma_links_up(k, n, link);
        }
        listing::lemma_concat_once(links_once(m, n), links_up(k, n));
    }
}

proof fn lemma_links_both_ways_once(k: u64, n: u64)
    ensures
        links_both_ways(k, n).no_duplicates(),
    decreases k,
{
    if k > 0 {
        let m = (k - 1) as u64;
        lemma_links_both_ways_once(m, n);
        lemma_links_of_once(k, n);
        assert forall|link: Link| !(#[trigger] links_both_ways(m, n).contains(link) && links_of(k, n).contains(
            link,
        )) by {
            lemma_links_both_ways(m, n, link);
            partition_isolates(k, n, link);
        }
        listing::lemma_concat_once(links_both_ways(m, n), links_of(k, n));
    }
}

/// What the agent does is drawn as one of five: it cuts all links of a drawn node, mends all
/// links, holds the messages between two drawn nodes, frees all links, or rests.
pub proof fn actions_do_what_was_drawn(
    action: ChaosAction,
    before: Seq<u32>,
    max_nodes: u64,
    after: Seq<u32>,
    a: NodeId,
    b: NodeId,
)
    requires
        is_action(action, before, max_nodes, after),
    ensures
        ({
            let (kind, drawn) = rng::range32_draw(before, 0, 4);
            let (first, second_state) = rng::range64_draw(drawn, 1, max_nodes);
            let (second, third_state) = rng::range64_draw(second_state, 1, max_nodes);
            &&& kind == 0 ==> after == second_state && (action matches ChaosAction::Partition(links) && (
            links@.contains((a, b)) <==> a == first && 1 <= b <= max_nodes && b != first))
            &&& kind == 1 ==> after == drawn && (action matches ChaosAction::Repair(links) && (links@.contains((a, b))
                <==> 1 <= a < b <= max_nodes))
            &&& kind == 2 ==> after == third_state && action == (ChaosAction::Hold { a: first, b: second })
            &&& kind == 3 ==> after == drawn && (action matches ChaosAction::Release(links) && (links@.contains((a, b))
                <==> 1 <= a <= max_nodes && 1 <= b <= max_nodes && a != b))
            &&& kind >= 4 ==> after == drawn && action is Rest
        }),
{
    let (kind, drawn) = rng::range32_draw(before, 0, 4);
    let first = rng::range64_draw(drawn, 1, max_nodes).0;
    partition_isolates(first, max_nodes, (a, b));
    repair_mends_every_link(max_nodes, a, b);
    release_frees_every_link(max_nodes, a, b);
}

/// Messages are held exactly between nodes that differ.
pub proof fn holds_are_between_two_nodes(a: NodeId, b: NodeId)
    ensures
        a != b ==> spec_hold_step(a, b) == (HoldStep::Hold { a, b }),
        a == b ==> spec_hold_step(a, b) == (HoldStep::DrawAgain { a }),
{
}

/// The leader is the first node in the list that says that it leads; there is none only if
/// no node says so.
pub proof fn first_leader_is_found(metrics: Seq<(NodeId, RaftMetrics)>)
    ensures
        first(iteration::leaders(metrics)) is None <==> forall|i: int|
            0 <= i < metrics.len() ==> (#[trigger] metrics[i]).1.state != ServerState::Leader,
        first(iteration::leaders(metrics)) matches Some(id) ==> exists|i: int|
            0 <= i < metrics.len() && (#[trigger] metrics[i]).0 == id && metrics[i].1.state == ServerState::Leader && (
            forall|k: int| 0 <= k < i ==> (#[trigger] metrics[k]).1.state != ServerState::Leader),
    decreases metrics.len(),
{
    if metrics.len() > 0 {
        let rest = metrics.drop_last();
        let last = metrics.len() - 1;
        first_leader_is_found(rest);
        assert forall|i: int| 0 <= i < rest.len() implies #[trigger] rest[i] == metrics[i] by {}
        if first(iteration::leaders(rest)) is Some {
            let i = choose|i: int|
                0 <= i < rest.len() && (#[trigger] rest[i]).0 == first(iteration::leaders(rest))->0 && rest[i].1.state
                    == ServerState::Leader && (forall|k: int|
                    0 <= k < i ==> (#[trigger] rest[k]).1.state != ServerState::Leader);
            assert(metrics[i] == rest[i]);
            assert forall|k: int| 0 <= k < i implies (#[trigger] metrics[k]).1.state != ServerState::Leader by {
                assert(rest[k] == metrics[k]);
            }
        } else {
            assert forall|k: int| 0 <= k < last implies (#[trigger] metrics[k]).1.state != ServerState::Leader by {
                assert(rest[k] == metrics[k]);
            }
            assert(metrics[last] == metrics.last());
        }
    }
}

/// A membership that was requested is never dropped: it is asked of the leader, or put back
/// for 500 ms where nobody leads. Nothing is asked for that was not requested.
pub proof fn requested_memberships_are_not_dropped(voters: IdSet, leader: NodeId, someone: Option<NodeId>)
    ensures
        spec_membership_step(Some(voters), Some(leader)) == (MembershipStep::Change { leader, voters }),
        spec_membership_step(Some(voters), None) == (MembershipStep::Requeue { voters, delay_ms: 500 }),
        spec_membership_step(None, someone) is Wait,
{
}

/// A request that is put back fills an empty slot, and gives way to a newer one.
pub proof fn newer_requests_win(slot: Option<IdSet>, newer: IdSet, voters: IdSet)
    ensures
        requeued(None, voters) == Some(voters),
        requeued(Some(newer), voters) == Some(newer),
        requeued(slot, voters) is Some,
        requeued(requeued(slot, voters), newer) == requeued(slot, voters),
{
}

/// Every write is the workload's, has the number of the writes before it as its serial, and
/// draws one word from the generator. Writes have the same key exactly when their numbers
/// agree modulo 1000.
pub proof fn writes_are_numbered(count: u64, other: u64, state: Seq<u32>, elsewhere: Seq<u32>)
    ensures
        next_write(count, state).0.client_id == "workload"@,
        next_write(count, state).0.serial == count,
        next_write(count, state).1 == rng::word32_draw(state).1,
        next_write(count, state).0.key == "key-"@ + text::decimal((count % 1000) as nat),
        next_write(count, state).0.key == next_write(other, elsewhere).0.key <==> count % 1000 == other % 1000,
        next_write(count, state).0.value == "value-"@ + text::decimal(count as nat) + "-"@ + text::decimal(
            rng::word32_draw(state).0 as nat,
        ),
{
    let a = text::decimal((count % 1000) as nat);
    let b = text::decimal((other % 1000) as nat);
    let prefix = "key-"@;
    if prefix + a == prefix + b {
        assert((prefix + a).skip(prefix.len() as int) =~= a);
        assert((prefix + b).skip(prefix.len() as int) =~= b);
        text::decimal_is_injective((count % 1000) as nat, (other % 1000) as nat);
    }
}

/// Only writes that have succeeded are counted, each of them once.
pub proof fn successful_writes_are_counted(count: u64)
    ensures
        writes_after(count, true) == count + 1,
        writes_after(count, false) == count,
{
}

} // verus!
