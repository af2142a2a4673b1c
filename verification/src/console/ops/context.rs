//! What all operations of the console work on.

use vstd::prelude::*;

use crate::console::config::{ConsoleConfig, NodeEntry, NodeId, Registry, ServerEntry};
use crate::console::error::Error;
use crate::diskdb::responses::{DiskType, HwStatus};
#[allow(unused_imports)]
use crate::lists;
use crate::protocol::DiskId;
#[allow(unused_imports)]
use crate::scan;
#[allow(unused_imports)]
use crate::text;
use crate::text::decimal_text;

verus! {

/// A disk as the cluster's metadata describes it.
#[derive(Debug, Clone, PartialEq, Eq)]
pub struct DiskValue {
    pub status: HwStatus,
    pub disk_type: DiskType,
    pub capacity_units: u64,
    pub zone_size_units: u64,
    pub unit_size_bytes: u32,
    pub zone_count: u32,
    pub device_path: String,
}

/// A change that the cluster's metadata is to follow. What is added is up and
/// has no parts yet; what is removed goes with all its parts.
#[derive(Debug, Clone, PartialEq, Eq)]
pub enum SysdataUpdate {
    AddRack { rack_id: u64 },
    RemoveRack { rack_id: u64 },
    AddNode { rack_id: u64, node_id: u64 },
    RemoveNode { rack_id: u64, node_id: u64 },
    AddDiskGroup { rack_id: u64, node_id: u64, dg_id: u64 },
    RemoveDiskGroup { rack_id: u64, node_id: u64, dg_id: u64 },
    AddDisk { rack_id: u64, node_id: u64, dg_id: u64, disk_id: DiskId, value: DiskValue },
    RemoveDisk { rack_id: u64, node_id: u64, dg_id: u64, disk_id: DiskId },
    SetDiskStatus { rack_id: u64, node_id: u64, dg_id: u64, disk_id: DiskId, status: HwStatus },
    SetDiskGroupStatus { rack_id: u64, node_id: u64, dg_id: u64, status: HwStatus },
}

/// What the client of the cluster is told.
#[derive(Debug, Clone, PartialEq, Eq)]
pub struct ClientSettings {
    /// Where the cluster's layout is asked for; nothing leaves the client's
    /// own list in place.
    pub mgmt_seeds: Option<Vec<String>>,
    /// The leader of the metadata group; nothing leaves the client's own
    /// knowledge in place.
    pub group0_leader: Option<String>,
}

/// The lookup of living service instances through the client.
#[derive(Debug, Clone, Copy, PartialEq, Eq, Structural)]
pub struct Discovery {}

/// What all operations of the console work on: the registry, what the client
/// is told, and the changes that the cluster's metadata is to follow.
#[derive(Debug, Clone, PartialEq, Eq)]
pub struct OpContext {
    pub registry: ConsoleConfig,
    pub client: ClientSettings,
    pub pending: Vec<SysdataUpdate>,
    pub discovery: Option<Discovery>,
    /// There is no cluster, on purpose.
    pub test_scenario: bool,
}

/// The seeds, with `endpoint` among them.
pub open spec fn with_endpoint(seeds: Seq<Seq<char>>, endpoint: Seq<char>) -> Seq<Seq<char>> {
    if seeds.contains(endpoint) {
        seeds
    } else {
        seeds.push(endpoint)
    }
}

fn build(
    group0_endpoint: String,
    mgmt_seeds: Vec<String>,
    config: ConsoleConfig,
    test_scenario: bool,
) -> (c: OpContext)
    ensures
        c.registry == config,
        c.client.mgmt_seeds matches Some(s) && scan::texts(s@) == with_endpoint(
            scan::texts(mgmt_seeds@),
            group0_endpoint@,
        ),
        c.client.group0_leader == Some(group0_endpoint),
        c.pending@ == Seq::<SysdataUpdate>::empty(),
        c.discovery is Some,
        c.test_scenario == test_scenario,
{
    let mut seeds = mgmt_seeds;
    let accepts = |s: &String| -> (b: bool)
        ensures
            b == (s@ == group0_endpoint@)
    { *s == group0_endpoint };
    let known = lists::position(&seeds, accepts, Ghost(|s: String| s@ == group0_endpoint@));
    let ghost before = scan::texts(seeds@);
    match known {
        Some(i) => {
            assert(before[i as int] == group0_endpoint@);
        },
        None => {
            assert forall|j: int| 0 <= j < before.len() implies before[j] != group0_endpoint@ by {
                assert(before[j] == seeds@[j]@);
            }
            seeds.push(group0_endpoint.clone());
            assert(scan::texts(seeds@) =~= before.push(group0_endpoint@));
        },
    }
    OpContext {
        registry: config,
        client: ClientSettings { mgmt_seeds: Some(seeds), group0_leader: Some(group0_endpoint) },
        pending: Vec::new(),
        discovery: Some(Discovery {  }),
        test_scenario,
    }
}

fn given_seeds(mgmt_seeds: Vec<String>) -> (r: Option<Vec<String>>)
    ensures
        r == (if mgmt_seeds@.len() > 0 {
            Some(mgmt_seeds)
        } else {
            None
        }),
{
    if mgmt_seeds.len() > 0 {
        Some(mgmt_seeds)
    } else {
        None
    }
}

impl OpContext {
    /// What the registry records.
    pub open spec fn records(self) -> Registry {
        self.registry@
    }

    /// A context for the cluster whose metadata group is led by
    /// `group0_endpoint`, which also counts as a seed.
    pub fn new(group0_endpoint: String, mgmt_seeds: Vec<String>, config: ConsoleConfig) -> (c: Self)
        ensures
            c.registry == config,
            c.client.mgmt_seeds matches Some(s) && scan::texts(s@) == with_endpoint(
                scan::texts(mgmt_seeds@),
                group0_endpoint@,
            ),
            c.client.group0_leader == Some(group0_endpoint),
            c.pending@ == Seq::<SysdataUpdate>::empty(),
            c.discovery is Some,
            !c.test_scenario,
    {
        build(group0_endpoint, mgmt_seeds, config, false)
    }

    /// A context without cluster: nothing is to follow its changes.
    pub fn new_for_test(
        group0_endpoint: String,
        mgmt_seeds: Vec<String>,
        config: ConsoleConfig,
    ) -> (c: Self)
        ensures
            c.registry == config,
            c.client.mgmt_seeds matches Some(s) && scan::texts(s@) == with_endpoint(
                scan::texts(mgmt_seeds@),
                group0_endpoint@,
            ),
            c.client.group0_leader == Some(group0_endpoint),
            c.pending@ == Seq::<SysdataUpdate>::empty(),
            c.discovery is Some,
            c.test_scenario,
    {
        build(group0_endpoint, mgmt_seeds, config, true)
    }

    /// A context for a client that is there already. It is told the leader,
    /// and the seeds where there are any.
    pub fn with_shared_client(
        group0_endpoint: String,
        mgmt_seeds: Vec<String>,
        config: ConsoleConfig,
    ) -> (c: Self)
        ensures
            c.registry == config,
            c.client.mgmt_seeds == (if mgmt_seeds@.len() > 0 {
                Some(mgmt_seeds)
            } else {
                None
            }),
            c.client.group0_leader == Some(group0_endpoint),
            c.pending@ == Seq::<SysdataUpdate>::empty(),
            c.discovery is Some,
            !c.test_scenario,
    {
        OpContext {
            registry: config,
            client: ClientSettings {
                mgmt_seeds: given_seeds(mgmt_seeds),
                group0_leader: Some(group0_endpoint),
            },
            pending: Vec::new(),
            discovery: Some(Discovery {  }),
            test_scenario: false,
        }
    }

    /// A context for a client that is there already and may know a better
    /// leader: it is told the seeds alone, where there are any.
    pub fn with_shared_client_preserving_hint(
        mgmt_seeds: Vec<String>,
        config: ConsoleConfig,
    ) -> (c: Self)
        ensures
            c.registry == config,
            c.client.mgmt_seeds == (if mgmt_seeds@.len() > 0 {
                Some(mgmt_seeds)
            } else {
                None
            }),
            c.client.group0_leader is None,
            c.pending@ == Seq::<SysdataUpdate>::empty(),
            c.discovery is Some,
            !c.test_scenario,
    {
        OpContext {
            registry: config,
            client: ClientSettings { mgmt_seeds: given_seeds(mgmt_seeds), group0_leader: None },
            pending: Vec::new(),
            discovery: Some(Discovery {  }),
            test_scenario: false,
        }
    }

    pub fn is_test_scenario(&self) -> (r: bool)
        ensures
            r == self.test_scenario,
    {
        self.test_scenario
    }

    /// Tells the client another leader of the metadata group.
    pub fn seed_group0_leader(&mut self, endpoint: String)
        ensures
            *final(self) == (OpContext {
                client: ClientSettings {
                    mgmt_seeds: old(self).client.mgmt_seeds,
                    group0_leader: Some(endpoint),
                },
                ..*old(self)
            }),
    {
        self.client.group0_leader = Some(endpoint);
    }

    pub fn config(&self) -> (r: &ConsoleConfig)
        ensures
            *r == self.registry,
    {
        &self.registry
    }

    pub fn config_mut(&mut self) -> (r: &mut ConsoleConfig)
        ensures
            *r == old(self).registry,
            *final(self) == (OpContext { registry: *final(r), ..*old(self) }),
    {
        &mut self.registry
    }

    /// The node with the id `node_id`.
    pub fn node_entry(&self, node_id: NodeId) -> (r: Result<NodeEntry, Error>)
        ensures
            match self.records().node_index(node_id) {
                Some(i) => r == Ok::<NodeEntry, Error>(self.records().nodes[i]),
                None => r matches Err(e) && e.is_not_found("node"@, text::decimal(node_id as nat)),
            },
    {
        match self.registry.node(node_id) {
            Some(n) => Ok(n.clone()),
            None => Err(Error::not_found("node", decimal_text(node_id))),
        }
    }

    /// The key-value server of node `node_id`.
    pub fn server_for_node(&self, node_id: NodeId) -> (r: Result<ServerEntry, Error>)
        ensures
            match self.records().kv_index(node_id) {
                Some(i) => r == Ok::<ServerEntry, Error>(self.records().servers[i]),
                None => r matches Err(e) && e.is_not_found(
                    "server"@,
                    text::decimal(node_id as nat),
                ),
            },
    {
        match self.registry.server_for_node(node_id) {
            Some(s) => Ok(s.clone()),
            None => Err(Error::not_found("server", decimal_text(node_id))),
        }
    }

    /// Where the key-value server of node `node_id` is managed.
    pub fn node_mgmt_url(&self, node_id: NodeId) -> (r: Result<String, Error>)
        ensures
            match self.records().kv_index(node_id) {
                Some(i) => r == Ok::<String, Error>(self.records().servers[i].url),
                None => r matches Err(e) && e.is_not_found(
                    "server"@,
                    text::decimal(node_id as nat),
                ),
            },
    {
        match self.server_for_node(node_id) {
            Ok(s) => Ok(s.url),
            Err(e) => Err(e),
        }
    }

    pub fn discovery(&self) -> (r: Option<Discovery>)
        ensures
            r == self.discovery,
    {
        self.discovery
    }

    /// The lookup of service instances, where there is one.
    pub fn discovery_or_error(&self) -> (r: Result<Discovery, Error>)
        ensures
            match self.discovery {
                Some(d) => r == Ok::<Discovery, Error>(d),
                None => r matches Err(e) && e.is_not_implemented(
                    "service discovery is not configured — this context was built without a ServiceDiscoveryClient (unit test?). Pass an explicit address instead."@,
                ),
            },
    {
        match self.discovery {
            Some(d) => Ok(d),
            None => Err(
                Error::NotImplemented(
                    "service discovery is not configured — this context was built without a ServiceDiscoveryClient (unit test?). Pass an explicit address instead.".to_owned(),
                ),
            ),
        }
    }

    /// Lets the cluster's metadata follow a change, unless there is no
    /// cluster.
    pub fn follow(&mut self, update: SysdataUpdate)
        ensures
            final(self).registry == old(self).registry,
            final(self).client == old(self).client,
            final(self).discovery == old(self).discovery,
            final(self).test_scenario == old(self).test_scenario,
            final(self).pending@ == old(self).followed(seq![update]),
    {
        if !self.test_scenario {
            self.pending.push(update);
            assert(self.pending@ =~= old(self).followed(seq![update]));
        }
    }

    /// The changes to follow, with `updates` behind them.
    pub open spec fn followed(self, updates: Seq<SysdataUpdate>) -> Seq<SysdataUpdate> {
        if self.test_scenario {
            self.pending@
        } else {
            self.pending@ + updates
        }
    }

    /// Nothing but the registry and the changes to follow differs.
    pub open spec fn same_setup(self, other: OpContext) -> bool {
        self.client == other.client && self.discovery == other.discovery && self.test_scenario
            == other.test_scenario
    }
}

/// The seeds keep their order, hold the endpoint, and gain it only where it was
/// not among them.
pub proof fn lemma_endpoint_among_seeds(seeds: Seq<Seq<char>>, endpoint: Seq<char>, i: int)
    ensures
        with_endpoint(seeds, endpoint).contains(endpoint),
        0 <= i < seeds.len() ==> with_endpoint(seeds, endpoint)[i] == seeds[i],
        seeds.contains(endpoint) ==> with_endpoint(seeds, endpoint).len() == seeds.len(),
        !seeds.contains(endpoint) ==> with_endpoint(seeds, endpoint).len() == seeds.len() + 1,
        with_endpoint(with_endpoint(seeds, endpoint), endpoint) == with_endpoint(seeds, endpoint),
{
    if !seeds.contains(endpoint) {
        assert(seeds.push(endpoint)[seeds.len() as int] == endpoint);
    }
}

/// Changes follow in order behind the earlier ones; in a test scenario none do.
pub proof fn lemma_changes_follow_in_order(ctx: OpContext, updates: Seq<SysdataUpdate>, i: int)
    ensures
        ctx.test_scenario ==> ctx.followed(updates) == ctx.pending@,
        !ctx.test_scenario ==> {
            &&& ctx.followed(updates).len() == ctx.pending@.len() + updates.len()
            &&& 0 <= i < ctx.pending@.len() ==> ctx.followed(updates)[i] == ctx.pending@[i]
            &&& 0 <= i < updates.len() ==> ctx.followed(updates)[ctx.pending@.len() + i]
                == updates[i]
        },
        ctx.records() == ctx.registry@,
{
}

/// The same setup means the same client, discovery and scenario.
pub proof fn lemma_same_setup(a: OpContext, b: OpContext)
    ensures
        a.same_setup(b) <==> a.client == b.client && a.discovery == b.discovery && a.test_scenario
            == b.test_scenario,
{
}

} // verus!
