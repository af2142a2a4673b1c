//! The disk databases of a local cluster.

use vstd::prelude::*;

use crate::console::config::{GroupEntry, NodeEntry, ServiceType};
#[allow(unused_imports)]
use crate::console::config;
use crate::console::error::Error;
use crate::console::lifecycle::wait::{Poll, MILLISECOND};
use crate::console::lifecycle::{DeployedDiskdb, DiskdbDeployRequest};
use crate::console::ops::cluster::chunkdb::sorted_nodes;
use crate::console::ops::cluster::kv::record_instance;
#[allow(unused_imports)]
use crate::console::ops::cluster::kv;
use crate::console::ops::cluster::{
    ClusterWrite, LocalDiskdbDeployConfig, LocalDiskdbDeploySummary,
};
use crate::console::ops::context::{OpContext, SysdataUpdate};
use crate::console::ops::hardware::{AddDiskInput, ReadDiskInput};
#[allow(unused_imports)]
use crate::console::ops::hardware;
#[allow(unused_imports)]
use crate::lists;
#[allow(unused_imports)]
use crate::ordered;
#[allow(unused_imports)]
use crate::text;
use crate::text::{decimal_text, hex16_text};

verus! {

/// A group of store 0 is recorded.
pub open spec fn data_group_recorded(r: config::Registry, group_id: u64) -> bool {
    r.group_index(0, group_id) is Some
}

fn has_data_group(groups: &Vec<GroupEntry>, group_id: u64) -> (r: bool)
    ensures
        r == (lists::first_index(
            config::group_records(groups@),
            |g: config::GroupRecord| g.store_id == 0 && g.group_id == group_id,
        ) is Some),
{
    let ghost q = |g: GroupEntry| g.store_id == 0 && g.group_id == group_id;
    let ghost p = |g: config::GroupRecord| g.store_id == 0 && g.group_id == group_id;
    let accepts = |g: &GroupEntry| -> (b: bool)
        ensures
            b == (g.store_id == 0 && g.group_id == group_id)
    { g.store_id == 0 && g.group_id == group_id };
    let found = lists::position(groups, accepts, Ghost(q));
    proof {
        let f = |e: GroupEntry| e@;
        assert forall|x: GroupEntry| p(f(x)) == #[trigger] q(x) by {}
        lists::lemma_map_first_index(groups@, f, q, p);
    }
    found.is_some()
}

/// Decides on disk databases: one on each node, by the nodes' ids. Refuses a
/// layout without disk groups, disks or data groups, then a cluster without
/// nodes, then the first data group that is not recorded.
pub fn validate_diskdb_deploy(ctx: &OpContext, cfg: &LocalDiskdbDeployConfig) -> (r: Result<
    Vec<NodeEntry>,
    Error,
>)
    ensures
        if cfg.disk_groups_per_node == 0 || cfg.disks_per_group == 0 || cfg.data_groups@.len()
            == 0 {
            r matches Err(e) && e.is_validation(
                "diskdb_topology"@,
                "disk groups, disks, and data groups must be non-empty"@,
            )
        } else if ctx.records().nodes.len() == 0 {
            r matches Err(e) && e.is_validation("nodes"@, "deploy the KV cluster before DiskDB"@)
        } else {
            match lists::first_index(
                cfg.data_groups@,
                |g: u64| !data_group_recorded(ctx.records(), g),
            ) {
                Some(i) => r matches Err(e) && e.is_not_found(
                    "kv_group"@,
                    "0:"@ + text::decimal(cfg.data_groups@[i] as nat),
                ),
                None => r matches Ok(nodes) && ordered::is_stable_sort(
                    ctx.records().nodes,
                    nodes@,
                ),
            }
        },
{
    if cfg.disk_groups_per_node == 0 || cfg.disks_per_group == 0 || cfg.data_groups.len() == 0 {
        return Err(
            Error::validation(
                "diskdb_topology",
                "disk groups, disks, and data groups must be non-empty".to_owned(),
            ),
        );
    }
    let nodes = sorted_nodes(ctx);
    if nodes.len() == 0 {
        return Err(
            Error::validation("nodes", "deploy the KV cluster before DiskDB".to_owned()),
        );
    }
    let ghost p = |g: u64| !data_group_recorded(ctx.records(), g);
    let accepts = |g: &u64| -> (b: bool)
        ensures
            b == !data_group_recorded(ctx.records(), *g)
    { !has_data_group(&ctx.registry.groups, *g) };
    match lists::position(&cfg.data_groups, accepts, Ghost(p)) {
        Some(i) => {
            let mut text = "0:".to_owned();
            text.append(decimal_text(cfg.data_groups[i]).as_str());
            Err(Error::not_found("kv_group", text))
        },
        None => Ok(nodes),
    }
}

/// The writes that make a node known to the cluster's metadata: its rack and
/// itself, as far as they are not known.
pub open spec fn hardware_writes(
    rack_id: u64,
    node_id: u64,
    rack_known: bool,
    node_known: bool,
) -> Seq<ClusterWrite> {
    let rack = if rack_known {
        seq![]
    } else {
        seq![ClusterWrite::AddRack { rack_id }]
    };
    let node = if node_known {
        seq![]
    } else {
        seq![ClusterWrite::AddNode { rack_id, node_id }]
    };
    rack + node
}

pub fn ensure_diskdb_hardware(
    rack_id: u64,
    node_id: u64,
    rack_known: bool,
    node_known: bool,
) -> (ws: Vec<ClusterWrite>)
    ensures
        ws@ == hardware_writes(rack_id, node_id, rack_known, node_known),
{
    let mut ws: Vec<ClusterWrite> = Vec::new();
    if !rack_known {
        ws.push(ClusterWrite::AddRack { rack_id });
    }
    if !node_known {
        ws.push(ClusterWrite::AddNode { rack_id, node_id });
    }
    assert(ws@ =~= hardware_writes(rack_id, node_id, rack_known, node_known));
    ws
}

/// When a claim to a disk group ends: an hour from now, in milliseconds.
pub fn lease_expiry(now_ms: u64) -> (t: u64)
    ensures
        t == (if now_ms + 3_600_000 <= u64::MAX {
            (now_ms + 3_600_000) as u64
        } else {
            u64::MAX
        }),
{
    now_ms.saturating_add(3_600_000)
}

/// The id of a node's disk group, by its number on the node.
pub open spec fn disk_group_number(node_id: u64, local: int) -> int {
    node_id * 100 + local + 1
}

pub fn disk_group_id(node_id: u64, local: usize) -> (id: u64)
    requires
        disk_group_number(node_id, local as int) <= u64::MAX,
    ensures
        id == disk_group_number(node_id, local as int),
{
    node_id * 100 + local as u64 + 1
}

/// The name of a disk group.
pub fn disk_group_name(id: u64) -> (s: String)
    ensures
        s@ == "bench-dg-"@ + text::decimal(id as nat),
{
    let mut s = "bench-dg-".to_owned();
    s.append(decimal_text(id).as_str());
    s
}

/// A disk of a disk group. Its id is the group's and the disk's number, from 1
/// on, in sixteen hexadecimal digits each.
pub open spec fn is_bench_disk(
    d: AddDiskInput,
    dg_id: u64,
    number: int,
    cfg: LocalDiskdbDeployConfig,
) -> bool {
    &&& d.disk_id@ == text::hex_padded(dg_id as nat, 16) + text::hex_padded(number as nat, 16)
    &&& d.disk_type@ == "BLOCK_SSD"@
    &&& d.capacity_bytes == cfg.capacity_bytes
    &&& d.zone_size_bytes == cfg.zone_size_bytes
    &&& d.unit_size_bytes == cfg.unit_size_bytes
    &&& d.device_path@ == Seq::<char>::empty()
}

/// The disks of a disk group.
pub fn bench_disks(dg_id: u64, cfg: &LocalDiskdbDeployConfig) -> (ds: Vec<AddDiskInput>)
    ensures
        ds@.len() == cfg.disks_per_group,
        forall|i: int|
            0 <= i < ds@.len() ==> is_bench_disk(#[trigger] ds@[i], dg_id, i + 1, *cfg),
{
    let mut ds: Vec<AddDiskInput> = Vec::new();
    let mut i: usize = 0;
    while i < cfg.disks_per_group
        invariant
            i <= cfg.disks_per_group,
            ds@.len() == i,
            forall|j: int| 0 <= j < i ==> is_bench_disk(#[trigger] ds@[j], dg_id, j + 1, *cfg),
        decreases cfg.disks_per_group - i,
    {
        let mut disk_id = hex16_text(dg_id);
        disk_id.append(hex16_text(i as u64 + 1).as_str());
        let device_path = String::new();
        assert(device_path@ =~= Seq::<char>::empty());
        ds.push(
            AddDiskInput {
                disk_id,
                disk_type: "BLOCK_SSD".to_owned(),
                capacity_bytes: cfg.capacity_bytes,
                zone_size_bytes: cfg.zone_size_bytes,
                unit_size_bytes: cfg.unit_size_bytes,
                device_path,
            },
        );
        i = i + 1;
    }
    ds
}

/// The instance that owns a node's disk groups.
pub open spec fn diskdb_instance(node_id: u64) -> int {
    10_000 + node_id
}

/// The writes that give disk group number `count` to its owner, and bind it to
/// a data group: the groups take turns.
pub fn provision_writes(
    rack_id: u64,
    node_id: u64,
    dg_id: u64,
    count: usize,
    lease_expiry_ms: u64,
    cfg: &LocalDiskdbDeployConfig,
) -> (ws: (ClusterWrite, ClusterWrite))
    requires
        cfg.data_groups@.len() > 0,
        diskdb_instance(node_id) <= u64::MAX,
    ensures
        ws.0 == (ClusterWrite::SetOwner {
            rack_id,
            node_id,
            dg_id,
            instance_id: diskdb_instance(node_id) as u64,
            lease_expiry_ms,
        }),
        ws.1 == (ClusterWrite::SetBind {
            rack_id,
            node_id,
            dg_id,
            store_id: 0,
            group_id: cfg.data_groups@[count as int % cfg.data_groups@.len() as int],
        }),
{
    let owner = ClusterWrite::SetOwner {
        rack_id,
        node_id,
        dg_id,
        instance_id: 10_000 + node_id,
        lease_expiry_ms,
    };
    let k: usize = count % cfg.data_groups.len();
    let bind = ClusterWrite::SetBind {
        rack_id,
        node_id,
        dg_id,
        store_id: 0,
        group_id: cfg.data_groups[k],
    };
    (owner, bind)
}

/// Records a disk group of a node and its disks; the disks all or none.
pub fn provision_group(
    ctx: &mut OpContext,
    node_id: u64,
    dg_id: u64,
    ds: &Vec<ReadDiskInput>,
) -> (r: Result<usize, Error>)
    ensures
        final(ctx).same_setup(*old(ctx)),
        old(ctx).records().well_formed() ==> final(ctx).records().well_formed(),
        match old(ctx).records().node_index(node_id) {
            None => {
                &&& final(ctx).records() == old(ctx).records()
                &&& final(ctx).pending@ == old(ctx).pending@
                &&& r matches Err(e) && e.is_not_found("node"@, text::decimal(node_id as nat))
            },
            Some(i) => if old(ctx).records().disk_group_index(dg_id) is Some {
                &&& final(ctx).records() == old(ctx).records()
                &&& final(ctx).pending@ == old(ctx).pending@
                &&& r matches Err(e) && e.is_conflict("disk_group"@, text::decimal(dg_id as nat))
            } else {
                let groups = final(ctx).records().disk_groups;
                let with_group = config::Registry { disk_groups: groups, ..old(ctx).records() };
                &&& groups.len() == old(ctx).records().disk_groups.len() + 1
                &&& groups.drop_last() == old(ctx).records().disk_groups
                &&& groups.last().id == dg_id && groups.last().node_id == node_id
                    && groups.last().rack_id == old(ctx).records().nodes[i].rack_id
                    && groups.last().name@ == "bench-dg-"@ + text::decimal(dg_id as nat)
                &&& final(ctx).pending@ == old(ctx).followed(
                    seq![
                        SysdataUpdate::AddDiskGroup {
                            rack_id: old(ctx).records().nodes[i].rack_id,
                            node_id,
                            dg_id,
                        },
                    ] + (if r is Ok {
                        hardware::batch_updates(
                            ds@,
                            old(ctx).records().nodes[i].rack_id,
                            node_id,
                            dg_id,
                        )
                    } else {
                        seq![]
                    }),
                )
                &&& match r {
                    Ok(n) => n == ds@.len() && final(ctx).records() == (config::Registry {
                        disks: old(ctx).records().disks + hardware::batch_entries(
                            ds@,
                            old(ctx).records().nodes[i].rack_id,
                            node_id,
                            dg_id,
                        ),
                        ..with_group
                    }),
                    Err(e) => final(ctx).records() == with_group && hardware::is_batch_error(
                        with_group,
                        node_id,
                        dg_id,
                        ds@,
                        e,
                    ),
                }
            },
        },
{
    let ghost before = ctx.records();
    let name = disk_group_name(dg_id);
    match hardware::add_disk_group(ctx, node_id, dg_id, name.as_str()) {
        Err(e) => {
            return Err(e);
        },
        Ok(_) => {},
    }
    let ghost with_group = ctx.records();
    proof {
        let groups = with_group.disk_groups;
        assert(groups.drop_last() =~= before.disk_groups);
        assert(with_group =~= (config::Registry { disk_groups: groups, ..before }));
        let k = before.disk_groups.len() as int;
        let p = |g: config::DiskGroupEntry| g.id == dg_id;
        let q = |g: config::DiskGroupEntry| g.node_id == node_id && g.id == dg_id;
        lists::lemma_first_index(before.disk_groups, p);
        assert forall|j: int| 0 <= j < k implies !q(#[trigger] groups[j]) by {
            assert(!p(before.disk_groups[j]));
        }
        lists::lemma_is_first_index(groups, q, k);
        assert(hardware::group_of_node(with_group, node_id, dg_id) == Some(k));
    }
    match hardware::add_disks_batch(ctx, node_id, dg_id, ds) {
        Err(e) => Err(e),
        Ok(_) => Ok(ds.len()),
    }
}

/// The name of a node's disk database.
pub fn diskdb_server_id(node_id: u64) -> (s: String)
    ensures
        s@ == "diskdb-"@ + text::decimal(node_id as nat),
{
    let mut s = "diskdb-".to_owned();
    s.append(decimal_text(node_id).as_str());
    s
}

/// The request for a node's disk database. It reports every second.
pub fn diskdb_request(
    config: &LocalDiskdbDeployConfig,
    seeds: &Vec<String>,
    node_id: u64,
    listen_port: u16,
    http_port: u16,
    rpc_port: u16,
) -> (req: DiskdbDeployRequest)
    requires
        diskdb_instance(node_id) <= u64::MAX,
    ensures
        req.server_id@ == "diskdb-"@ + text::decimal(node_id as nat),
        req.instance_id == Some(diskdb_instance(node_id) as u64),
        req.metrics_interval == Some(1u64),
        req.rpc_workers == config.rpc_workers,
        req.kv_connections == config.kv_connections,
        req.kv_client_rpc_workers == config.kv_client_rpc_workers,
        req.listen_port == listen_port,
        req.http_port == http_port,
        req.rpc_port == rpc_port,
        req.kv_server_mgmt_seeds@ == seeds@,
{
    let copy = seeds.clone();
    assert(copy@ =~= seeds@);
    DiskdbDeployRequest {
        server_id: diskdb_server_id(node_id),
        instance_id: Some(10_000 + node_id),
        metrics_interval: Some(1),
        rpc_workers: config.rpc_workers,
        kv_connections: config.kv_connections,
        kv_client_rpc_workers: config.kv_client_rpc_workers,
        listen_port,
        http_port,
        rpc_port,
        kv_server_mgmt_seeds: copy,
    }
}

/// Records a disk database that was brought up.
pub fn record_diskdb(
    ctx: &mut OpContext,
    node_id: u64,
    req: &DiskdbDeployRequest,
    d: &DeployedDiskdb,
) -> (r: Result<(), Error>)
    ensures
        final(ctx).same_setup(*old(ctx)),
        final(ctx).pending == old(ctx).pending,
        old(ctx).records().well_formed() ==> final(ctx).records().well_formed(),
        kv::server_added(
            old(ctx).records(),
            req.server_id@,
            d.endpoint@,
            final(ctx).records(),
            r,
        ),
        r is Ok ==> {
            let e = final(ctx).records().servers.last();
            &&& kv::is_service_entry(
                e,
                req.server_id@,
                d.endpoint@,
                d.endpoint@,
                Some(node_id),
                Some(req.http_port),
                req.rpc_port,
                d.pid,
                ServiceType::Diskdb,
            )
            &&& e.auto_start
            &&& e.binary is None
        },
{
    record_instance(
        ctx,
        req.server_id.clone(),
        d.endpoint.as_str(),
        node_id,
        Some(req.http_port),
        req.rpc_port,
        d.pid,
        ServiceType::Diskdb,
    )
}

/// The progress of provisioning: the disk groups are made node by node.
#[derive(Debug, Clone, Copy, PartialEq, Eq, Structural)]
pub struct Provisioning {
    /// How many nodes are done.
    pub nodes: usize,
    /// How many disk groups of the next node are done.
    pub local: usize,
    /// The disk groups and the disks that were made on all nodes.
    pub disk_groups: usize,
    pub disks: usize,
}

/// A disk group that is to be made, with its disks.
#[derive(Debug, Clone, PartialEq, Eq)]
pub struct GroupPlan {
    pub rack_id: u64,
    pub node_id: u64,
    pub dg_id: u64,
    pub disks: Vec<AddDiskInput>,
}

impl Provisioning {
    /// All groups of the nodes that are done, and `local` of the next, were
    /// made, each with all its disks.
    pub open spec fn well_formed(self, cfg: LocalDiskdbDeployConfig) -> bool {
        &&& self.local < cfg.disk_groups_per_node
        &&& self.disk_groups == self.nodes * cfg.disk_groups_per_node + self.local
        &&& self.disks == self.disk_groups * cfg.disks_per_group
    }

    pub fn new() -> (p: Self)
        ensures
            p == (Provisioning { nodes: 0, local: 0, disk_groups: 0, disks: 0 }),
            forall|cfg: LocalDiskdbDeployConfig|
                cfg.disk_groups_per_node > 0 ==> #[trigger] p.well_formed(cfg),
    {
        let p = Provisioning { nodes: 0, local: 0, disk_groups: 0, disks: 0 };
        assert forall|cfg: LocalDiskdbDeployConfig| cfg.disk_groups_per_node > 0 implies #[trigger] p.well_formed(
            cfg,
        ) by {
            assert(0 * cfg.disk_groups_per_node == 0) by (nonlinear_arith);
            assert(0 * cfg.disks_per_group == 0) by (nonlinear_arith);
        }
        p
    }

    /// The disk group to make next, if any is left.
    pub fn next(&self, nodes: &Vec<NodeEntry>, cfg: &LocalDiskdbDeployConfig) -> (r: Option<
        GroupPlan,
    >)
        requires
            self.nodes < nodes@.len() ==> disk_group_number(
                nodes@[self.nodes as int].id,
                self.local as int,
            ) <= u64::MAX,
        ensures
            if self.nodes < nodes@.len() {
                let node = nodes@[self.nodes as int];
                r matches Some(p) && p.rack_id == node.rack_id && p.node_id == node.id && p.dg_id
                    == disk_group_number(node.id, self.local as int) && p.disks@.len()
                    == cfg.disks_per_group && forall|i: int|
                    0 <= i < p.disks@.len() ==> is_bench_disk(
                        #[trigger] p.disks@[i],
                        p.dg_id,
                        i + 1,
                        *cfg,
                    )
            } else {
                r is None
            },
    {
        if self.nodes < nodes.len() {
            let node = &nodes[self.nodes];
            let dg_id: u64 = disk_group_id(node.id, self.local);
            Some(
                GroupPlan {
                    rack_id: node.rack_id,
                    node_id: node.id,
                    dg_id,
                    disks: bench_disks(dg_id, cfg),
                },
            )
        } else {
            None
        }
    }

    /// What is written for a disk group that was made: its owner, and the data
    /// group that it is bound to. The data groups take turns.
    pub fn writes(
        &self,
        p: &GroupPlan,
        lease_expiry_ms: u64,
        cfg: &LocalDiskdbDeployConfig,
    ) -> (ws: (ClusterWrite, ClusterWrite))
        requires
            cfg.data_groups@.len() > 0,
            diskdb_instance(p.node_id) <= u64::MAX,
        ensures
            ws.0 == (ClusterWrite::SetOwner {
                rack_id: p.rack_id,
                node_id: p.node_id,
                dg_id: p.dg_id,
                instance_id: diskdb_instance(p.node_id) as u64,
                lease_expiry_ms,
            }),
            ws.1 == (ClusterWrite::SetBind {
                rack_id: p.rack_id,
                node_id: p.node_id,
                dg_id: p.dg_id,
                store_id: 0,
                group_id: cfg.data_groups@[self.disk_groups as int
                    % cfg.data_groups@.len() as int],
            }),
    {
        provision_writes(p.rack_id, p.node_id, p.dg_id, self.disk_groups, lease_expiry_ms, cfg)
    }

    /// Takes note of a disk group that was made and written.
    pub fn made(&mut self, p: &GroupPlan, cfg: &LocalDiskdbDeployConfig)
        requires
            old(self).local < cfg.disk_groups_per_node,
            old(self).disk_groups < usize::MAX,
            old(self).nodes < usize::MAX,
            old(self).disks + p.disks@.len() <= usize::MAX,
        ensures
            final(self).disk_groups == old(self).disk_groups + 1,
            final(self).disks == old(self).disks + p.disks@.len(),
            if old(self).local + 1 < cfg.disk_groups_per_node {
                final(self).nodes == old(self).nodes && final(self).local == old(self).local + 1
            } else {
                final(self).nodes == old(self).nodes + 1 && final(self).local == 0
            },
            old(self).well_formed(*cfg) && p.disks@.len() == cfg.disks_per_group
                ==> final(self).well_formed(*cfg),
    {
        let ghost g = self.disk_groups as int;
        let ghost n = self.nodes as int;
        proof {
            let d = cfg.disks_per_group as int;
            let m = cfg.disk_groups_per_node as int;
            assert((g + 1) * d == g * d + d) by (nonlinear_arith);
            assert((n + 1) * m == n * m + m) by (nonlinear_arith);
        }
        let count: usize = p.disks.len();
        self.disk_groups = self.disk_groups + 1;
        self.disks = self.disks + count;
        if self.local + 1 < cfg.disk_groups_per_node {
            self.local = self.local + 1;
        } else {
            self.local = 0;
            self.nodes = self.nodes + 1;
        }
    }
}

/// Once all nodes are done, every node has all its disk groups, and every
/// group all its disks.
pub proof fn lemma_all_provisioned(p: Provisioning, nodes: nat, cfg: LocalDiskdbDeployConfig)
    requires
        p.well_formed(cfg),
        p.nodes == nodes,
        p.local == 0,
    ensures
        p.disk_groups == nodes * cfg.disk_groups_per_node,
        p.disks == nodes * cfg.disk_groups_per_node * cfg.disks_per_group,
{
}

/// The wait until the databases are registered: at most half a minute, with a
/// look every 50 milliseconds.
pub fn wait_for_diskdb_registration(now: u64) -> (p: Poll)
    requires
        now + 30_000 * MILLISECOND <= u64::MAX,
    ensures
        p.deadline == now + 30_000 * MILLISECOND,
        p.interval == 50 * MILLISECOND,
{
    Poll::new(now, 30_000 * MILLISECOND, 50 * MILLISECOND)
}

/// What bringing up disk databases came to.
pub fn diskdb_summary(
    instance_count: usize,
    disk_group_count: usize,
    disk_count: usize,
    cfg: &LocalDiskdbDeployConfig,
) -> (s: LocalDiskdbDeploySummary)
    ensures
        s.instance_count == instance_count,
        s.disk_group_count == disk_group_count,
        s.disk_count == disk_count,
        s.data_groups@ == cfg.data_groups@,
{
    let data_groups = cfg.data_groups.clone();
    assert(data_groups@ =~= cfg.data_groups@);
    LocalDiskdbDeploySummary { instance_count, disk_group_count, disk_count, data_groups }
}

/// A data group is one of store 0.
pub proof fn lemma_data_group_recorded(r: config::Registry, group_id: u64)
    ensures
        data_group_recorded(r, group_id) <==> exists|i: int|
            0 <= i < r.groups.len() && (#[trigger] r.groups[i]).store_id == 0
                && r.groups[i].group_id == group_id,
{
    config::lemma_found_in_store(r, 0, group_id);
    if data_group_recorded(r, group_id) {
        let i = r.group_index(0, group_id)->0;
        assert(r.groups[i].store_id == 0);
    }
}

/// A node is made known with its rack before itself, each only where it is not
/// known.
pub proof fn lemma_hardware_made_known(rack_id: u64, node_id: u64)
    ensures
        hardware_writes(rack_id, node_id, false, false) == seq![
            ClusterWrite::AddRack { rack_id },
            ClusterWrite::AddNode { rack_id, node_id },
        ],
        hardware_writes(rack_id, node_id, true, false) == seq![
            ClusterWrite::AddNode { rack_id, node_id },
        ],
        hardware_writes(rack_id, node_id, false, true) == seq![ClusterWrite::AddRack { rack_id }],
        hardware_writes(rack_id, node_id, true, true).len() == 0,
{
    assert(hardware_writes(rack_id, node_id, false, false) =~= seq![
        ClusterWrite::AddRack { rack_id },
        ClusterWrite::AddNode { rack_id, node_id },
    ]);
    assert(hardware_writes(rack_id, node_id, true, false) =~= seq![
        ClusterWrite::AddNode { rack_id, node_id },
    ]);
    assert(hardware_writes(rack_id, node_id, false, true) =~= seq![
        ClusterWrite::AddRack { rack_id },
    ]);
}

/// A node's disk groups are numbered from a hundred times its id and 1 on; up to
/// 99 groups on a node, no two groups of any nodes share a number.
pub proof fn lemma_disk_group_numbers(a: u64, i: int, b: u64, j: int)
    requires
        0 <= i < 99,
        0 <= j < 99,
    ensures
        disk_group_number(a, i) == 100 * a + i + 1,
        disk_group_number(a, i) == disk_group_number(b, j) ==> a == b && i == j,
        diskdb_instance(a) == 10_000 + a,
{
}

/// A disk of a disk group has the group's and its own number in its id, in
/// sixteen hexadecimal digits each, is a block SSD of the sizes that were asked
/// for, and has no path.
pub proof fn lemma_bench_disk(
    d: AddDiskInput,
    dg_id: u64,
    number: int,
    cfg: LocalDiskdbDeployConfig,
)
    requires
        is_bench_disk(d, dg_id, number, cfg),
        0 <= number <= u64::MAX,
    ensures
        d.disk_id@.len() == 32,
        d.disk_id@.take(16) == text::hex_padded(dg_id as nat, 16),
        d.disk_id@.skip(16) == text::hex_padded(number as nat, 16),
        hardware::named_disk_type(d.disk_type@) is Some,
        d.disk_type@ == "BLOCK_SSD"@,
        d.capacity_bytes == cfg.capacity_bytes,
        d.zone_size_bytes == cfg.zone_size_bytes,
        d.unit_size_bytes == cfg.unit_size_bytes,
        d.device_path@.len() == 0,
{
    lemma_hex_width(dg_id as nat, 16);
    lemma_hex_width(number as nat, 16);
    assert(d.disk_id@.take(16) =~= text::hex_padded(dg_id as nat, 16));
    assert(d.disk_id@.skip(16) =~= text::hex_padded(number as nat, 16));
    hardware::lemma_disk_types_by_name(d.disk_type@);
}

proof fn lemma_hex_width(n: nat, width: nat)
    ensures
        text::hex_padded(n, width).len() == width,
    decreases width,
{
    if width > 0 {
        lemma_hex_width(n / 16, (width - 1) as nat);
    }
}

/// As far as disk groups were made: all those of the nodes that are done and
/// some of the next node's, each with all its disks.
pub proof fn lemma_provisioned_so_far(p: Provisioning, cfg: LocalDiskdbDeployConfig)
    requires
        p.well_formed(cfg),
    ensures
        p.local < cfg.disk_groups_per_node,
        p.disk_groups == p.nodes * cfg.disk_groups_per_node + p.local,
        p.disks == p.disk_groups * cfg.disks_per_group,
{
}

} // verus!
