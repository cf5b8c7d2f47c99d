//! The nodes of a cluster: how they are named and reached, and what is kept and
//! read of each of them.

use std::collections::BTreeMap;
use vstd::prelude::*;
use vstd::string::*;

use crate::ordered;
use crate::ordered::ascending_keys;
use crate::store::StateMachineData;
use crate::text;
use crate::text::append_decimal;
use crate::typ::LogId;
use crate::typ::Node;
use crate::typ::NodeId;
use crate::typ::RaftMetrics;
use crate::typ::RaftStateSnapshot;

verus! {

broadcast use vstd::laws_cmp::group_laws_cmp;

// ---------------------------------------------------------------------------
// Names and addresses
// ---------------------------------------------------------------------------

/// The host name of a node.
pub open spec fn host_text(id: NodeId) -> Seq<char> {
    "node-"@ + text::decimal(id as nat)
}

/// The address of a node: its host name and the port that every node uses.
pub open spec fn addr_text(id: NodeId) -> Seq<char> {
    host_text(id) + ":9000"@
}

/// Whether a map gives exactly the nodes from 1 to `count` their addresses.
pub open spec fn numbered_nodes(nodes: Map<NodeId, Node>, count: nat) -> bool {
    &&& forall|id: NodeId| #[trigger] nodes.contains_key(id) <==> 1 <= id <= count
    &&& forall|id: NodeId| 1 <= id <= count ==> (#[trigger] nodes[id]).addr@ == addr_text(id)
}

/// The numbers from 1 to `count`.
pub open spec fn numbers_to(count: nat) -> Seq<NodeId> {
    Seq::new(count, |i: int| (i + 1) as u64)
}

/// Information about a running cluster.
#[derive(Debug, Clone)]
pub struct ClusterInfo {
    /// Node IDs in the cluster.
    pub node_ids: Vec<NodeId>,
    /// Mapping from node ID to address.
    pub nodes: BTreeMap<NodeId, Node>,
}

impl ClusterInfo {
    /// Whether every node of the list has an address.
    pub open spec fn all_known(self) -> bool {
        forall|i: int| 0 <= i < self.node_ids@.len() ==> self.nodes@.contains_key(#[trigger] self.node_ids@[i])
    }

    /// Get the host name for a node.
    pub fn host_name(id: NodeId) -> (name: String)
        ensures
            name@ == host_text(id),
    {
        let mut name = String::from_str("node-");
        append_decimal(&mut name, id);
        name
    }

    /// Get the address for a node.
    pub fn addr(&self, id: NodeId) -> (addr: &str)
        requires
            self.nodes@.contains_key(id),
        ensures
            addr@ == self.nodes@[id].addr@,
    {
        self.nodes.get(&id).unwrap().addr.as_str()
    }

    /// Whether every node of the list has an address.
    pub fn knows_all(&self) -> (yes: bool)
        ensures
            yes == self.all_known(),
    {
        let mut i: usize = 0;
        while i < self.node_ids.len()
            invariant
                i <= self.node_ids@.len(),
                forall|j: int| 0 <= j < i ==> self.nodes@.contains_key(#[trigger] self.node_ids@[j]),
            decreases self.node_ids.len() - i,
        {
            let id: NodeId = self.node_ids[i];
            if !self.nodes.contains_key(&id) {
                return false;
            }
            i = i + 1;
        }
        true
    }

    /// The cluster of the nodes from 1 to `num_nodes`.
    pub fn numbered(num_nodes: usize) -> (cluster: Self)
        ensures
            cluster.node_ids@ == numbers_to(num_nodes as nat),
            numbered_nodes(cluster.nodes@, num_nodes as nat),
            cluster.all_known(),
    {
        let mut node_ids: Vec<NodeId> = Vec::new();
        let mut i: usize = 0;
        while i < num_nodes
            invariant
                i <= num_nodes,
                node_ids@ =~= numbers_to(i as nat),
            decreases num_nodes - i,
        {
            i = i + 1;
            node_ids.push(i as u64);
        }
        ClusterInfo { node_ids, nodes: node_addresses(num_nodes as u64) }
    }

    /// The nodes of the list, each with its address.
    pub fn targets(&self) -> (targets: Vec<(NodeId, String)>)
        requires
            self.all_known(),
        ensures
            targets@.len() == self.node_ids@.len(),
            forall|i: int|
                0 <= i < targets@.len() ==> (#[trigger] targets@[i]).0 == self.node_ids@[i] && targets@[i].1@
                    == self.nodes@[self.node_ids@[i]].addr@,
    {
        let mut targets: Vec<(NodeId, String)> = Vec::new();
        let mut i: usize = 0;
        while i < self.node_ids.len()
            invariant
                i <= self.node_ids@.len(),
                self.all_known(),
                targets@.len() == i,
                forall|j: int|
                    0 <= j < i ==> (#[trigger] targets@[j]).0 == self.node_ids@[j] && targets@[j].1@
                        == self.nodes@[self.node_ids@[j]].addr@,
            decreases self.node_ids.len() - i,
        {
            let id: NodeId = self.node_ids[i];
            targets.push((id, String::from_str(self.addr(id))));
            i = i + 1;
        }
        targets
    }
}

/// The addresses of the nodes from 1 to `count`.
pub fn node_addresses(count: u64) -> (nodes: BTreeMap<NodeId, Node>)
    ensures
        numbered_nodes(nodes@, count as nat),
{
    let mut nodes: BTreeMap<NodeId, Node> = BTreeMap::new();
    let mut id: u64 = 0;
    while id < count
        invariant
            id <= count,
            numbered_nodes(nodes@, id as nat),
        decreases count - id,
    {
        id = id + 1;
        let mut addr = ClusterInfo::host_name(id);
        addr.append(":9000");
        nodes.insert(id, Node { addr });
    }
    nodes
}

// ---------------------------------------------------------------------------
// Configuration
// ---------------------------------------------------------------------------

/// The timing of a Raft node, in milliseconds.
#[derive(Debug, Clone, Copy, PartialEq, Eq, Structural)]
pub struct RaftTiming {
    pub heartbeat_interval: u64,
    pub election_timeout_min: u64,
    pub election_timeout_max: u64,
}

/// Configuration for spawning a cluster. `R` is the configuration of its Raft nodes:
/// their timing, or all that can be set of them.
#[derive(Debug, Clone, Copy)]
pub struct ClusterConfig<R> {
    pub num_nodes: usize,
    pub raft_config: R,
    pub seed: u64,
}

impl Default for RaftTiming {
    fn default() -> (timing: Self)
        ensures
            timing == (RaftTiming { heartbeat_interval: 50, election_timeout_min: 150, election_timeout_max: 300 }),
    {
        RaftTiming { heartbeat_interval: 50, election_timeout_min: 150, election_timeout_max: 300 }
    }
}

impl Default for ClusterConfig<RaftTiming> {
    fn default() -> (config: Self)
        ensures
            config.num_nodes == 5,
            config.raft_config == (RaftTiming {
                heartbeat_interval: 50,
                election_timeout_min: 150,
                election_timeout_max: 300,
            }),
            config.seed == 0,
    {
        ClusterConfig { num_nodes: 5, raft_config: RaftTiming::default(), seed: 0 }
    }
}

impl<R> ClusterConfig<R> {
    /// The configuration with another one of the Raft nodes.
    pub fn with_raft_config<S>(self, raft_config: S) -> (config: ClusterConfig<S>)
        ensures
            config == (ClusterConfig { num_nodes: self.num_nodes, raft_config, seed: self.seed }),
    {
        ClusterConfig { num_nodes: self.num_nodes, raft_config, seed: self.seed }
    }
}

/// The seed of a node's own generator: the seed of the simulation and the
/// number of the node, added up modulo 2^64.
pub open spec fn spec_node_seed(seed: u64, node_id: NodeId) -> u64 {
    ((seed + node_id) % 0x1_0000_0000_0000_0000) as u64
}

/// The seed of a node's own generator.
pub fn node_seed(seed: u64, node_id: NodeId) -> (node_seed: u64)
    ensures
        node_seed == spec_node_seed(seed, node_id),
{
    seed.wrapping_add(node_id)
}

// ---------------------------------------------------------------------------
// Starting a node
// ---------------------------------------------------------------------------

/// What a node does before it serves requests.
#[derive(Debug, Clone, Copy, PartialEq, Eq, Structural)]
pub enum BootStep {
    /// Nothing.
    Serve,
    /// Wait, then initialize the cluster.
    Initialize { delay_ms: u64 },
}

/// Whether a node may have to initialize the cluster: only the first one.
pub fn may_initialize(node_id: NodeId) -> (yes: bool)
    ensures
        yes == (node_id == 1),
{
    node_id == 1
}

/// What a node does once its log was read.
pub open spec fn spec_boot_step(node_id: NodeId, last_log_id: Option<LogId>) -> BootStep {
    if node_id == 1 && last_log_id is None {
        BootStep::Initialize { delay_ms: 100 }
    } else {
        BootStep::Serve
    }
}

/// What a node does once its log was read: the first node initializes the
/// cluster unless there is a log already.
pub fn boot_step(node_id: NodeId, last_log_id: Option<LogId>) -> (step: BootStep)
    ensures
        step == spec_boot_step(node_id, last_log_id),
        step == if node_id == 1 && last_log_id is None {
            BootStep::Initialize { delay_ms: 100 }
        } else {
            BootStep::Serve
        },
{
    if may_initialize(node_id) && last_log_id.is_none() {
        BootStep::Initialize { delay_ms: 100 }
    } else {
        BootStep::Serve
    }
}

// ---------------------------------------------------------------------------
// Observing nodes
// ---------------------------------------------------------------------------

/// Combined snapshot of both Raft and state machine state.
#[derive(Debug, Clone)]
pub struct FullNodeSnapshot {
    pub raft: RaftStateSnapshot,
    pub sm: StateMachineData,
}

/// Shared state for observing nodes from outside the simulation: a handle of
/// each kind for each node.
pub struct ClusterState<R, L, M> {
    /// Raft instances for each node (keyed by node ID).
    pub rafts: BTreeMap<NodeId, R>,
    /// Log stores for each node.
    pub log_stores: BTreeMap<NodeId, L>,
    /// State machines for each node.
    pub state_machines: BTreeMap<NodeId, M>,
}

impl<R, L, M> ClusterState<R, L, M> {
    /// A state without nodes.
    pub fn new() -> (state: Self)
        ensures
            state.rafts@ == Map::<NodeId, R>::empty(),
            state.log_stores@ == Map::<NodeId, L>::empty(),
            state.state_machines@ == Map::<NodeId, M>::empty(),
    {
        ClusterState { rafts: BTreeMap::new(), log_stores: BTreeMap::new(), state_machines: BTreeMap::new() }
    }

    /// Get metrics from all nodes, in the order of their numbers.
    pub fn get_all_metrics<F: Fn(&R) -> RaftMetrics>(&self, read: F) -> (metrics: Vec<(NodeId, RaftMetrics)>)
        requires
            forall|raft: &R| #[trigger] read.requires((raft,)),
        ensures
            metrics@.len() == self.rafts@.dom().len(),
            metrics@.map_values(|m: (NodeId, RaftMetrics)| m.0) == ordered::ascending(self.rafts@.dom()),
            forall|i: int|
                0 <= i < metrics@.len() ==> #[trigger] read.ensures((&self.rafts@[metrics@[i].0],), metrics@[i].1),
    {
        let ids = ascending_keys(&self.rafts);
        let mut metrics: Vec<(NodeId, RaftMetrics)> = Vec::new();
        let mut i: usize = 0;
        while i < ids.len()
            invariant
                i <= ids@.len(),
                ordered::lists(ids@, self.rafts@.dom()),
                forall|raft: &R| #[trigger] read.requires((raft,)),
                metrics@.len() == i,
                forall|j: int| 0 <= j < i ==> (#[trigger] metrics@[j]).0 == ids@[j],
                forall|j: int|
                    0 <= j < metrics@.len() ==> #[trigger] read.ensures(
                        (&self.rafts@[metrics@[j].0],),
                        metrics@[j].1,
                    ),
            decreases ids.len() - i,
        {
            let id: NodeId = ids[i];
            assert(ids@.contains(id));
            let raft = self.rafts.get(&id).unwrap();
            metrics.push((id, read(raft)));
            i = i + 1;
        }
        assert(metrics@.map_values(|m: (NodeId, RaftMetrics)| m.0) =~= ids@);
        metrics
    }

    /// Get combined Raft and state machine snapshots from all nodes, in the
    /// order of their numbers.
    pub fn get_all_full_snapshots<FR: Fn(&R) -> RaftStateSnapshot, FM: Fn(&M) -> StateMachineData>(
        &self,
        read_raft: FR,
        read_machine: FM,
    ) -> (snapshots: Vec<(NodeId, FullNodeSnapshot)>)
        requires
            forall|id: NodeId| #[trigger] self.rafts@.contains_key(id) ==> self.state_machines@.contains_key(id),
            forall|raft: &R| #[trigger] read_raft.requires((raft,)),
            forall|machine: &M| #[trigger] read_machine.requires((machine,)),
        ensures
            snapshots@.len() == self.rafts@.dom().len(),
            snapshots@.map_values(|s: (NodeId, FullNodeSnapshot)| s.0) == ordered::ascending(self.rafts@.dom()),
            forall|i: int|
                0 <= i < snapshots@.len() ==> #[trigger] read_raft.ensures(
                    (&self.rafts@[snapshots@[i].0],),
                    snapshots@[i].1.raft,
                ),
            forall|i: int|
                0 <= i < snapshots@.len() ==> #[trigger] read_machine.ensures(
                    (&self.state_machines@[snapshots@[i].0],),
                    snapshots@[i].1.sm,
                ),
    {
        let ids = ascending_keys(&self.rafts);
        let mut snapshots: Vec<(NodeId, FullNodeSnapshot)> = Vec::new();
        let mut i: usize = 0;
        while i < ids.len()
            invariant
                i <= ids@.len(),
                ordered::lists(ids@, self.rafts@.dom()),
                forall|id: NodeId| #[trigger] self.rafts@.contains_key(id) ==> self.state_machines@.contains_key(id),
                forall|raft: &R| #[trigger] read_raft.requires((raft,)),
                forall|machine: &M| #[trigger] read_machine.requires((machine,)),
                snapshots@.len() == i,
                forall|j: int| 0 <= j < i ==> (#[trigger] snapshots@[j]).0 == ids@[j],
                forall|j: int|
                    0 <= j < snapshots@.len() ==> #[trigger] read_raft.ensures(
                        (&self.rafts@[snapshots@[j].0],),
                        snapshots@[j].1.raft,
                    ),
                forall|j: int|
                    0 <= j < snapshots@.len() ==> #[trigger] read_machine.ensures(
                        (&self.state_machines@[snapshots@[j].0],),
                        snapshots@[j].1.sm,
                    ),
            decreases ids.len() - i,
        {
            let id: NodeId = ids[i];
            assert(ids@.contains(id));
            assert(self.rafts@.contains_key(id));
            let machine = self.state_machines.get(&id).unwrap();
            let sm = read_machine(machine);
            let handle = self.rafts.get(&id).unwrap();
            let raft = read_raft(handle);
            snapshots.push((id, FullNodeSnapshot { raft, sm }));
            i = i + 1;
        }
        assert(snapshots@.map_values(|s: (NodeId, FullNodeSnapshot)| s.0) =~= ids@);
        snapshots
    }
}

impl<R, L, M> Default for ClusterState<R, L, M> {
    fn default() -> (state: Self)
        ensures
            state.rafts@ == Map::<NodeId, R>::empty(),
            state.log_stores@ == Map::<NodeId, L>::empty(),
            state.state_machines@ == Map::<NodeId, M>::empty(),
    {
        ClusterState::new()
    }
}

/// Register a node's storage in the shared state BEFORE starting it. A node that
/// has a storage keeps it; for another one it is made.
pub fn register_node_storage<R, L, M, F: FnOnce() -> (L, M)>(
    node_id: NodeId,
    cluster_state: &mut ClusterState<R, L, M>,
    new_store: F,
)
    requires
        new_store.requires(()),
    ensures
        final(cluster_state).rafts@ == old(cluster_state).rafts@,
        old(cluster_state).log_stores@.contains_key(node_id) ==> final(cluster_state).log_stores@ == old(
            cluster_state,
        ).log_stores@ && final(cluster_state).state_machines@ == old(cluster_state).state_machines@,
        !old(cluster_state).log_stores@.contains_key(node_id) ==> exists|store: (L, M)| #[trigger]
            new_store.ensures((), store) && final(cluster_state).log_stores@ == old(cluster_state).log_stores@.insert(
                node_id,
                store.0,
            ) && final(cluster_state).state_machines@ == old(cluster_state).state_machines@.insert(node_id, store.1),
{
    if !cluster_state.log_stores.contains_key(&node_id) {
        let (log_store, state_machine) = new_store();
        cluster_state.log_stores.insert(node_id, log_store);
        cluster_state.state_machines.insert(node_id, state_machine);
    }
}

// ---------------------------------------------------------------------------
// Laws
// ---------------------------------------------------------------------------

/// No two nodes share a host name, and no two share an address.
pub proof fn names_differ(a: NodeId, b: NodeId)
    requires
        a != b,
    ensures
        host_text(a) != host_text(b),
        addr_text(a) != addr_text(b),
{
    let prefix = "node-"@;
    let port = ":9000"@;
    let x = text::decimal(a as nat);
    let y = text::decimal(b as nat);
    if host_text(a) == host_text(b) {
        assert(host_text(a).skip(prefix.len() as int) =~= x);
        assert(host_text(b).skip(prefix.len() as int) =~= y);
        text::decimal_is_injective(a as nat, b as nat);
    }
    if addr_text(a) == addr_text(b) {
        let n = addr_text(a).len() - port.len();
        assert(addr_text(a).take(n) =~= host_text(a));
        assert(addr_text(b).take(n) =~= host_text(b));
    }
}

/// Different nodes of one simulation have different seeds.
pub proof fn node_seeds_differ(seed: u64, a: NodeId, b: NodeId)
    requires
        a != b,
    ensures
        spec_node_seed(seed, a) != spec_node_seed(seed, b),
{
}

/// The name of a node gives its number back, behind five characters that all names share,
/// and its address is its name with the port.
pub proof fn names_hold_the_number(id: NodeId)
    ensures
        host_text(id).take(5) == "node-"@,
        text::parsed_u64(host_text(id).skip(5)) == Some(id),
        addr_text(id).len() == host_text(id).len() + 5,
        addr_text(id).take(host_text(id).len() as int) == host_text(id),
        addr_text(id).skip(host_text(id).len() as int) == ":9000"@,
{
    reveal_strlit("node-");
    reveal_strlit(":9000");
    assert(host_text(id).take(5) =~= "node-"@);
    assert(host_text(id).skip(5) =~= text::decimal(id as nat));
    text::decimal_reads_back(id);
    assert(addr_text(id).take(host_text(id).len() as int) =~= host_text(id));
    assert(addr_text(id).skip(host_text(id).len() as int) =~= ":9000"@);
}

/// The nodes of a cluster are numbered from 1 on, without a gap.
pub proof fn clusters_are_numbered_from_one(count: nat, i: int)
    requires
        count <= u64::MAX,
        0 <= i < count,
    ensures
        numbers_to(count).len() == count,
        numbers_to(count)[i] == i + 1,
{
}

/// A map of the numbered nodes has those numbers and no others, and the address of each
/// node leads back to it.
pub proof fn numbered_nodes_have_their_addresses(nodes: Map<NodeId, Node>, count: nat, id: NodeId)
    requires
        numbered_nodes(nodes, count),
    ensures
        nodes.contains_key(id) <==> 1 <= id <= count,
        nodes.contains_key(id) ==> {
            let addr = nodes[id].addr@;
            &&& addr.len() > 10
            &&& addr.take(5) == "node-"@
            &&& text::parsed_u64(addr.subrange(5, addr.len() - 5)) == Some(id)
            &&& addr.skip(addr.len() - 5) == ":9000"@
        },
{
    if nodes.contains_key(id) {
        let addr = nodes[id].addr@;
        names_hold_the_number(id);
        reveal_strlit("node-");
        reveal_strlit(":9000");
        text::decimal_denotes_number(id as nat);
        assert(addr == addr_text(id));
        assert(addr.take(5) =~= host_text(id).take(5));
        assert(addr.subrange(5, addr.len() - 5) =~= host_text(id).skip(5));
    }
}

/// The seed of a node's own generator wraps around at 2^64.
pub proof fn node_seeds_wrap(seed: u64, node_id: NodeId)
    ensures
        seed + node_id <= u64::MAX ==> spec_node_seed(seed, node_id) == seed + node_id,
        seed + node_id > u64::MAX ==> spec_node_seed(seed, node_id) == seed + node_id - 0x1_0000_0000_0000_0000,
{
}

/// A cluster knows all its nodes exactly if none of the list is without an address.
pub proof fn known_nodes_have_addresses(cluster: ClusterInfo)
    ensures
        cluster.all_known() <==> forall|id: NodeId| #[trigger]
            cluster.node_ids@.contains(id) ==> cluster.nodes@.contains_key(id),
{
    if cluster.all_known() {
        assert forall|id: NodeId| #[trigger] cluster.node_ids@.contains(id) implies cluster.nodes@.contains_key(id) by {
            let i = choose|i: int| 0 <= i < cluster.node_ids@.len() && cluster.node_ids@[i] == id;
            assert(cluster.nodes@.contains_key(cluster.node_ids@[i]));
        }
    } else {
        let i = choose|i: int|
            0 <= i < cluster.node_ids@.len() && !cluster.nodes@.contains_key(#[trigger] cluster.node_ids@[i]);
        assert(cluster.node_ids@.contains(cluster.node_ids@[i]));
    }
}

/// The cluster is initialized by its first node alone, after 100 ms, and only once: not by a
/// node that has a log already, such as one that was restarted.
pub proof fn only_a_fresh_first_node_initializes(node_id: NodeId, last_log_id: Option<LogId>)
    ensures
        spec_boot_step(1, None) == (BootStep::Initialize { delay_ms: 100 }),
        node_id != 1 ==> spec_boot_step(node_id, last_log_id) == BootStep::Serve,
        last_log_id is Some ==> spec_boot_step(node_id, last_log_id) == BootStep::Serve,
{
}

} // verus!
