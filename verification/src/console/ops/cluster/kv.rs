//! Local clusters of key-value servers.

use vstd::prelude::*;

use crate::console::config::{
    clone_text, NodeEntry, NodeId, RackEntry, Registry, ServerEntry, ServiceType,
};
#[allow(unused_imports)]
use crate::console::config;
use crate::console::error::Error;
#[allow(unused_imports)]
use crate::console::lifecycle::command;
use crate::console::lifecycle::{DeployRequest, DeployedServer};
use crate::console::ops::cluster::{
    ClusterWrite, InitSummary, KvDeployTunables, LocalCombinedDeploySummary, LocalDeploySummary,
};
use crate::console::ops::context::{ClientSettings, OpContext};
#[allow(unused_imports)]
use crate::lists;
#[allow(unused_imports)]
use crate::rpc::endpoint;
use crate::rpc::endpoint::strip_scheme;
#[allow(unused_imports)]
use crate::text;
use crate::text::decimal_text;

verus! {

/// A local cluster that may be brought up.
#[derive(Debug, Clone, PartialEq, Eq)]
pub struct LocalPlan {
    pub binary: String,
    pub rack_id: u64,
    pub node_ids: Vec<u64>,
}

/// The binary that a service is run from. `found` is what a search gave, and
/// whether it exists. Refuses a binary that was not found or does not exist.
pub fn located_binary(name: &str, found: Option<(String, bool)>) -> (r: Result<String, Error>)
    ensures
        match found {
            None => r matches Err(e) && e.is_not_found("binary"@, name@),
            Some((path, exists)) => if exists {
                r == Ok::<String, Error>(path)
            } else {
                r matches Err(e) && e.is_not_found("binary"@, path@)
            },
        },
{
    match found {
        None => Err(Error::not_found("binary", name.to_owned())),
        Some((path, exists)) => if exists {
            Ok(path)
        } else {
            Err(Error::not_found("binary", path))
        },
    }
}

/// The numbers from 1 to `n`.
pub open spec fn numbers_to(n: nat) -> Seq<u64> {
    Seq::new(n, |i: int| (i + 1) as u64)
}

/// Decides on a local cluster: rack 1 with nodes 1 to `node_count`. Refuses an
/// empty cluster, and one without binary.
pub fn local_deploy(node_count: usize, found: Option<(String, bool)>) -> (r: Result<
    LocalPlan,
    Error,
>)
    ensures
        if node_count == 0 {
            r matches Err(e) && e.is_validation("node_count"@, "node_count must be >= 1"@)
        } else {
            match found {
                None => r matches Err(e) && e.is_not_found("binary"@, "crowdb-kv-server"@),
                Some((path, exists)) => if exists {
                    r matches Ok(p) && p.binary == path && p.rack_id == 1 && p.node_ids@
                        == numbers_to(node_count as nat)
                } else {
                    r matches Err(e) && e.is_not_found("binary"@, path@)
                },
            }
        },
{
    if node_count == 0 {
        return Err(Error::validation("node_count", "node_count must be >= 1".to_owned()));
    }
    let binary = match located_binary("crowdb-kv-server", found) {
        Ok(p) => p,
        Err(e) => {
            return Err(e);
        },
    };
    let mut node_ids: Vec<u64> = Vec::new();
    let mut i: usize = 0;
    while i < node_count
        invariant
            i <= node_count,
            node_ids@ == numbers_to(i as nat),
        decreases node_count - i,
    {
        node_ids.push(i as u64 + 1);
        assert(node_ids@ =~= numbers_to((i + 1) as nat));
        i = i + 1;
    }
    Ok(LocalPlan { binary, rack_id: 1, node_ids })
}

/// A node of a local cluster.
pub open spec fn is_local_node(n: NodeEntry, node_id: NodeId, rack_id: u64) -> bool {
    &&& n.id == node_id
    &&& n.rack_id == rack_id
    &&& n.host@ == "127.0.0.1"@
    &&& n.ssh_port == 22
    &&& n.ssh_user@ == Seq::<char>::empty()
    &&& n.ssh_key is None
    &&& n.ssh_password is None
}

pub fn local_node(node_id: NodeId, rack_id: u64) -> (n: NodeEntry)
    ensures
        is_local_node(n, node_id, rack_id),
{
    let n = NodeEntry {
        id: node_id,
        rack_id,
        host: "127.0.0.1".to_owned(),
        ssh_port: 22,
        ssh_user: String::new(),
        ssh_key: None,
        ssh_password: None,
    };
    assert(n.ssh_user@ =~= Seq::<char>::empty());
    n
}

/// Those of `ids` that are not among the nodes, each once.
pub open spec fn missing(nodes: Seq<NodeEntry>, ids: Seq<u64>) -> Seq<u64>
    decreases ids.len(),
{
    if ids.len() == 0 {
        ids
    } else {
        let before = missing(nodes, ids.drop_last());
        let id = ids.last();
        if lists::first_index(nodes, config::node_numbered(id)) is Some || before.contains(id) {
            before
        } else {
            before.push(id)
        }
    }
}

/// The rack is recorded where it was not, and so are the nodes, in order.
pub open spec fn rack_and_nodes_written(
    before: Registry,
    rack_id: u64,
    ids: Seq<u64>,
    after: Registry,
) -> bool {
    &&& if before.rack_index(rack_id) is Some {
        after.racks == before.racks
    } else {
        &&& after.racks.len() == before.racks.len() + 1
        &&& after.racks.drop_last() == before.racks
        &&& after.racks.last().id == rack_id
        &&& after.racks.last().name@ == "rack-"@ + text::decimal(rack_id as nat)
    }
    &&& {
        let m = missing(before.nodes, ids);
        let k = before.nodes.len() as int;
        &&& after.nodes.len() == k + m.len()
        &&& after.nodes.take(k) == before.nodes
        &&& forall|i: int|
            k <= i < after.nodes.len() ==> is_local_node(#[trigger] after.nodes[i], m[i - k], rack_id)
    }
    &&& after == (Registry { racks: after.racks, nodes: after.nodes, ..before })
}

/// Where a node stands in a list of which the first part was there before and
/// the rest is local nodes.
proof fn lemma_known_node(before: Seq<NodeEntry>, m: Seq<u64>, rack_id: u64, now: Seq<NodeEntry>, id: u64)
    requires
        now.len() == before.len() + m.len(),
        now.take(before.len() as int) == before,
        forall|i: int|
            before.len() <= i < now.len() ==> is_local_node(
                #[trigger] now[i],
                m[i - before.len()],
                rack_id,
            ),
    ensures
        (lists::first_index(now, config::node_numbered(id)) is Some) == (lists::first_index(
            before,
            config::node_numbered(id),
        ) is Some || m.contains(id)),
{
    let p = config::node_numbered(id);
    lists::lemma_first_index(now, p);
    lists::lemma_first_index(before, p);
    if let Some(i) = lists::first_index(before, p) {
        assert(now.take(before.len() as int)[i] == now[i]);
        assert(p(now[i]));
    }
    if m.contains(id) {
        let j = choose|j: int| 0 <= j < m.len() && m[j] == id;
        assert(is_local_node(now[before.len() + j], m[j], rack_id));
        assert(p(now[before.len() + j]));
    }
    if let Some(i) = lists::first_index(now, p) {
        if i < before.len() {
            assert(now.take(before.len() as int)[i] == now[i]);
            assert(p(before[i]));
        } else {
            assert(is_local_node(now[i], m[i - before.len()], rack_id));
            assert(m[i - before.len()] == id);
        }
    }
}

/// Records the rack and the nodes of a local cluster, as far as they are not
/// recorded.
pub fn write_rack_and_nodes(ctx: &mut OpContext, rack_id: u64, node_ids: &Vec<u64>)
    ensures
        final(ctx).same_setup(*old(ctx)),
        final(ctx).pending == old(ctx).pending,
        rack_and_nodes_written(old(ctx).records(), rack_id, node_ids@, final(ctx).records()),
        old(ctx).records().well_formed() ==> final(ctx).records().well_formed(),
{
    let ghost before = ctx.records();
    let accepts = |x: &RackEntry| -> (b: bool)
        ensures
            b == (x.id == rack_id)
    { x.id == rack_id };
    let rack = lists::position(&ctx.registry.racks, accepts, Ghost(config::rack_numbered(rack_id)));
    if rack.is_none() {
        let mut name = "rack-".to_owned();
        name.append(decimal_text(rack_id).as_str());
        let entry = RackEntry { id: rack_id, name };
        let _ = ctx.registry.add_rack(entry);
        proof {
            let p = config::rack_numbered(rack_id);
            lists::lemma_first_index(ctx.records().racks, p);
            assert(p(ctx.records().racks[before.racks.len() as int]));
            assert(ctx.records().racks.drop_last() =~= before.racks);
        }
    }
    let ghost k = before.nodes.len() as int;
    let ghost racks = ctx.records().racks;
    let mut i: usize = 0;
    assert(ctx.records().nodes.take(k) =~= before.nodes);
    while i < node_ids.len()
        invariant
            i <= node_ids@.len(),
            ctx.same_setup(*old(ctx)),
            ctx.pending == old(ctx).pending,
            before == old(ctx).records(),
            k == before.nodes.len(),
            ctx.records() == (Registry { racks, nodes: ctx.records().nodes, ..before }),
            ctx.records().rack_index(rack_id) is Some,
            before.well_formed() ==> ctx.records().well_formed(),
            ctx.records().nodes.take(k) == before.nodes,
            ctx.records().nodes.len() == k + missing(before.nodes, node_ids@.take(i as int)).len(),
            forall|j: int|
                k <= j < ctx.records().nodes.len() ==> is_local_node(
                    #[trigger] ctx.records().nodes[j],
                    missing(before.nodes, node_ids@.take(i as int))[j - k],
                    rack_id,
                ),
        decreases node_ids@.len() - i,
    {
        let id: u64 = node_ids[i];
        let ghost m = missing(before.nodes, node_ids@.take(i as int));
        let ghost now = ctx.records().nodes;
        proof {
            let t = node_ids@.take(i + 1);
            assert(t.drop_last() =~= node_ids@.take(i as int));
            assert(t.last() == id);
            lemma_known_node(before.nodes, m, rack_id, now, id);
        }
        if ctx.registry.node(id).is_none() {
            let entry = local_node(id, rack_id);
            let _ = ctx.registry.add_node(entry);
            proof {
                assert(ctx.records().nodes == now.push(entry));
                assert(ctx.records().nodes.take(k) =~= now.take(k));
                assert forall|j: int| k <= j < ctx.records().nodes.len() implies is_local_node(
                    #[trigger] ctx.records().nodes[j],
                    m.push(id)[j - k],
                    rack_id,
                ) by {
                    if j < now.len() {
                        assert(is_local_node(now[j], m[j - k], rack_id));
                    }
                }
            }
        }
        i = i + 1;
    }
    assert(node_ids@.take(i as int) =~= node_ids@);
}

/// The next node of a list, from number `from` on, that has no key-value
/// server.
pub fn next_without_server(ctx: &OpContext, node_ids: &Vec<u64>, from: usize) -> (r: Option<usize>)
    ensures
        match r {
            Some(i) => {
                &&& from <= i < node_ids@.len()
                &&& ctx.records().kv_index(node_ids@[i as int]) is None
                &&& forall|j: int|
                    from <= j < i ==> ctx.records().kv_index(#[trigger] node_ids@[j]) is Some
            },
            None => forall|j: int|
                from <= j < node_ids@.len() ==> ctx.records().kv_index(#[trigger] node_ids@[j])
                    is Some,
        },
{
    let mut i: usize = from;
    while i < node_ids.len()
        invariant
            from <= i,
            forall|j: int|
                from <= j < i && j < node_ids@.len() ==> ctx.records().kv_index(
                    #[trigger] node_ids@[j],
                ) is Some,
        decreases node_ids@.len() - i,
    {
        if ctx.registry.server_for_node(node_ids[i]).is_none() {
            return Some(i);
        }
        i = i + 1;
    }
    None
}

/// The request for a server of a local cluster.
pub open spec fn is_cluster_request(
    req: DeployRequest,
    node_id: NodeId,
    rest_port: u16,
    rpc_port: u16,
    binary: Seq<char>,
    t: KvDeployTunables,
) -> bool {
    &&& req.server_id@ == text::decimal(node_id as nat)
    &&& req.rest_port == rest_port
    &&& req.rpc_port == rpc_port
    &&& req.binary matches Some(b) && b@ == binary
    &&& req.election_profile matches Some(p) && p@ == "e2e"@
    &&& req.kv_backend == t.kv_backend
    &&& req.wal_backend == t.wal_backend
    &&& req.no_fsync == (t.no_fsync == Some(true))
    &&& req.metrics_interval == t.metrics_interval
    &&& req.max_inflight == t.max_inflight
    &&& req.coalesce_max_keys == t.coalesce_max_keys
    &&& req.peer_pool_size == t.peer_pool_size
    &&& req.enable_nagle is None
    &&& req.quickack is None
    &&& req.event_write == t.event_write
    &&& req.send_queue_capacity == t.send_queue_capacity
    &&& req.config is None
    &&& req.rpc_workers == t.rpc_workers
}

/// The request for a server of a local cluster.
pub fn cluster_request(
    node_id: NodeId,
    rest_port: u16,
    rpc_port: u16,
    binary: &str,
    t: &KvDeployTunables,
) -> (req: DeployRequest)
    ensures
        is_cluster_request(req, node_id, rest_port, rpc_port, binary@, *t),
        req.kv_backend == t.kv_backend,
        req.wal_backend == t.wal_backend,
        req.metrics_interval == t.metrics_interval,
        req.max_inflight == t.max_inflight,
        req.coalesce_max_keys == t.coalesce_max_keys,
        req.peer_pool_size == t.peer_pool_size,
        req.event_write == t.event_write,
        req.send_queue_capacity == t.send_queue_capacity,
        req.rpc_workers == t.rpc_workers,
{
    let no_fsync = match t.no_fsync {
        Some(b) => b,
        None => false,
    };
    DeployRequest {
        server_id: decimal_text(node_id),
        rest_port,
        rpc_port,
        binary: Some(binary.to_owned()),
        election_profile: Some("e2e".to_owned()),
        kv_backend: clone_text(&t.kv_backend),
        wal_backend: clone_text(&t.wal_backend),
        no_fsync,
        metrics_interval: t.metrics_interval,
        max_inflight: t.max_inflight,
        coalesce_max_keys: t.coalesce_max_keys,
        peer_pool_size: t.peer_pool_size,
        enable_nagle: None,
        quickack: None,
        event_write: t.event_write,
        send_queue_capacity: t.send_queue_capacity,
        config: None,
        rpc_workers: t.rpc_workers,
    }
}

/// The directories of a node, below the workspace: that of its rack, and in it
/// its own.
pub fn node_dir_names(rack_id: u64, node_id: u64) -> (r: (String, String))
    ensures
        r.0@ == "rack"@ + text::decimal(rack_id as nat),
        r.1@ == "node"@ + text::decimal(node_id as nat),
{
    let mut a = "rack".to_owned();
    a.append(decimal_text(rack_id).as_str());
    let mut b = "node".to_owned();
    b.append(decimal_text(node_id).as_str());
    (a, b)
}

/// What the registry records of a server of a local service.
pub open spec fn is_service_entry(
    e: ServerEntry,
    id: Seq<char>,
    url: Seq<char>,
    rpc_url: Seq<char>,
    node_id: Option<NodeId>,
    rest_port: Option<u16>,
    rpc_port: u16,
    pid: u32,
    service: ServiceType,
) -> bool {
    &&& e.id@ == id
    &&& e.url@ == url
    &&& e.node_id == node_id
    &&& e.rpc_url matches Some(u) && u@ == rpc_url
    &&& e.rest_port == rest_port
    &&& e.rpc_port == Some(rpc_port)
    &&& e.pid == Some(pid)
    &&& e.service_type == service
    &&& e.election_profile is None
    &&& e.rpc_workers is None
    &&& !e.no_fsync
}

/// How the registry takes a new server: a taken id, then a taken address, is
/// refused.
pub open spec fn server_added(
    before: Registry,
    id: Seq<char>,
    url: Seq<char>,
    after: Registry,
    r: Result<(), Error>,
) -> bool {
    if before.server_index(id) is Some {
        &&& after == before
        &&& r matches Err(e) && e.is_conflict("server"@, id)
    } else if before.url_index(url) is Some {
        &&& after == before
        &&& r matches Err(e) && e.is_validation("url"@, "url "@ + url + " already registered"@)
    } else {
        &&& r is Ok
        &&& after == (Registry { servers: before.servers.push(after.servers.last()), ..before })
    }
}

/// Records a server of a local cluster.
pub fn record_server(
    ctx: &mut OpContext,
    node_id: NodeId,
    rest_port: u16,
    rpc_port: u16,
    d: &DeployedServer,
) -> (r: Result<(), Error>)
    ensures
        final(ctx).same_setup(*old(ctx)),
        final(ctx).pending == old(ctx).pending,
        old(ctx).records().well_formed() ==> final(ctx).records().well_formed(),
        server_added(
            old(ctx).records(),
            text::decimal(node_id as nat),
            d.mgmt_url@,
            final(ctx).records(),
            r,
        ),
        r is Ok ==> {
            let e = final(ctx).records().servers.last();
            &&& is_service_entry(
                e,
                text::decimal(node_id as nat),
                d.mgmt_url@,
                d.rpc_url@,
                Some(node_id),
                Some(rest_port),
                rpc_port,
                d.pid,
                ServiceType::Kv,
            )
            &&& e.auto_start
            &&& e.binary is None
        },
{
    ctx.registry.add_server(
        ServerEntry {
            id: decimal_text(node_id),
            url: d.mgmt_url.clone(),
            node_id: Some(node_id),
            rpc_url: Some(d.rpc_url.clone()),
            rest_port: Some(rest_port),
            rpc_port: Some(rpc_port),
            auto_start: true,
            binary: None,
            election_profile: None,
            pid: Some(d.pid),
            service_type: ServiceType::Kv,
            rpc_workers: None,
            no_fsync: false,
        },
    )
}

/// Records an instance of a service that is reached at its endpoint.
pub(crate) fn record_instance(
    ctx: &mut OpContext,
    id: String,
    endpoint: &str,
    node_id: NodeId,
    rest_port: Option<u16>,
    rpc_port: u16,
    pid: u32,
    service: ServiceType,
) -> (r: Result<(), Error>)
    ensures
        final(ctx).same_setup(*old(ctx)),
        final(ctx).pending == old(ctx).pending,
        old(ctx).records().well_formed() ==> final(ctx).records().well_formed(),
        server_added(old(ctx).records(), id@, endpoint@, final(ctx).records(), r),
        r is Ok ==> {
            let e = final(ctx).records().servers.last();
            &&& is_service_entry(
                e,
                id@,
                endpoint@,
                endpoint@,
                Some(node_id),
                rest_port,
                rpc_port,
                pid,
                service,
            )
            &&& e.auto_start
            &&& e.binary is None
        },
{
    ctx.registry.add_server(
        ServerEntry {
            id,
            url: endpoint.to_owned(),
            node_id: Some(node_id),
            rpc_url: Some(endpoint.to_owned()),
            rest_port,
            rpc_port: Some(rpc_port),
            auto_start: true,
            binary: None,
            election_profile: None,
            pid: Some(pid),
            service_type: service,
            rpc_workers: None,
            no_fsync: false,
        },
    )
}

/// The progress of bringing up the servers of a local cluster, node by node.
#[derive(Debug, Clone, PartialEq, Eq)]
pub struct ServerRollout {
    pub rack_id: u64,
    pub node_ids: Vec<u64>,
    /// The ports that are there for each node.
    pub rest_ports: Vec<u16>,
    pub rpc_ports: Vec<u16>,
    /// How many of the nodes are done.
    pub done: usize,
}

/// A server that is to be brought up.
#[derive(Debug, PartialEq, Eq)]
pub struct ServerDeploy {
    /// Which of the nodes it is on.
    pub index: usize,
    pub node: NodeEntry,
    pub request: DeployRequest,
}

impl ServerRollout {
    /// Every node has its ports.
    pub open spec fn well_formed(self) -> bool {
        self.node_ids@.len() <= self.rest_ports@.len() && self.node_ids@.len()
            <= self.rpc_ports@.len()
    }

    /// The server to bring up next: on the first node that has none, with that
    /// node's ports.
    pub fn next(&self, ctx: &OpContext, binary: &str, t: &KvDeployTunables) -> (r: Option<
        ServerDeploy,
    >)
        requires
            self.well_formed(),
        ensures
            match r {
                Some(d) => {
                    let i = d.index as int;
                    &&& self.done <= i < self.node_ids@.len()
                    &&& ctx.records().kv_index(self.node_ids@[i]) is None
                    &&& forall|j: int|
                        self.done <= j < i ==> ctx.records().kv_index(#[trigger] self.node_ids@[j])
                            is Some
                    &&& is_local_node(d.node, self.node_ids@[i], self.rack_id)
                    &&& is_cluster_request(
                        d.request,
                        self.node_ids@[i],
                        self.rest_ports@[i],
                        self.rpc_ports@[i],
                        binary@,
                        *t,
                    )
                },
                None => forall|j: int|
                    self.done <= j < self.node_ids@.len() ==> ctx.records().kv_index(
                        #[trigger] self.node_ids@[j],
                    ) is Some,
            },
    {
        match next_without_server(ctx, &self.node_ids, self.done) {
            Some(index) => {
                let node_id: u64 = self.node_ids[index];
                Some(
                    ServerDeploy {
                        index,
                        node: local_node(node_id, self.rack_id),
                        request: cluster_request(
                            node_id,
                            self.rest_ports[index],
                            self.rpc_ports[index],
                            binary,
                            t,
                        ),
                    },
                )
            },
            None => None,
        }
    }

    /// Records a server that was brought up, and goes on behind its node.
    pub fn deployed(
        &mut self,
        ctx: &mut OpContext,
        d: &ServerDeploy,
        up: &DeployedServer,
    ) -> (r: Result<(), Error>)
        requires
            old(self).well_formed(),
            d.index < old(self).node_ids@.len(),
        ensures
            final(ctx).same_setup(*old(ctx)),
            final(ctx).pending == old(ctx).pending,
            old(ctx).records().well_formed() ==> final(ctx).records().well_formed(),
            server_added(
                old(ctx).records(),
                text::decimal(old(self).node_ids@[d.index as int] as nat),
                up.mgmt_url@,
                final(ctx).records(),
                r,
            ),
            r is Ok ==> {
                let e = final(ctx).records().servers.last();
                &&& is_service_entry(
                    e,
                    text::decimal(old(self).node_ids@[d.index as int] as nat),
                    up.mgmt_url@,
                    up.rpc_url@,
                    Some(old(self).node_ids@[d.index as int]),
                    Some(old(self).rest_ports@[d.index as int]),
                    old(self).rpc_ports@[d.index as int],
                    up.pid,
                    ServiceType::Kv,
                )
                &&& e.auto_start
                &&& e.binary is None
            },
            *final(self) == (if r is Ok {
                ServerRollout { done: (d.index + 1) as usize, ..*old(self) }
            } else {
                *old(self)
            }),
    {
        let i: usize = d.index;
        let n: usize = self.node_ids.len();
        assert(i < n);
        match record_server(ctx, self.node_ids[i], self.rest_ports[i], self.rpc_ports[i], up) {
            Ok(_) => {
                self.done = i + 1;
                Ok(())
            },
            Err(e) => Err(e),
        }
    }
}

/// The number of ports that are asked for.
pub fn port_count(n: usize) -> (c: u16)
    ensures
        c == (if n <= u16::MAX {
            n as u16
        } else {
            u16::MAX
        }),
{
    if n <= u16::MAX as usize {
        n as u16
    } else {
        u16::MAX
    }
}

/// The error of ports that could not be had.
pub fn port_error(detail: String) -> (e: Error)
    ensures
        e.is_validation("port_alloc"@, detail@),
{
    Error::validation("port_alloc", detail)
}

/// Tells the client to take the first server for the leader, where it is known
/// how that one is called.
pub fn seed_first_server(ctx: &mut OpContext)
    ensures
        final(ctx).registry == old(ctx).registry,
        final(ctx).pending == old(ctx).pending,
        final(ctx).discovery == old(ctx).discovery,
        final(ctx).test_scenario == old(ctx).test_scenario,
        final(ctx).client.mgmt_seeds == old(ctx).client.mgmt_seeds,
        if old(ctx).records().servers.len() > 0 && old(ctx).records().servers[0].rpc_url is Some {
            final(ctx).client.group0_leader matches Some(l) && l@ == endpoint::without_scheme(
                old(ctx).records().servers[0].rpc_url->0@,
            )
        } else {
            final(ctx).client.group0_leader == old(ctx).client.group0_leader
        },
{
    if ctx.registry.servers.len() > 0 {
        let leader = match &ctx.registry.servers[0].rpc_url {
            Some(u) => Some(strip_scheme(u.as_str())),
            None => None,
        };
        if let Some(l) = leader {
            ctx.seed_group0_leader(l);
        }
    }
}

/// What bringing up a local cluster came to.
pub fn local_deploy_summary(plan: LocalPlan, init_summary: InitSummary) -> (s: LocalDeploySummary)
    ensures
        s.node_count == plan.node_ids@.len(),
        s.rack_id == plan.rack_id,
        s.node_ids == plan.node_ids,
        s.init_summary == init_summary,
{
    let node_count: usize = plan.node_ids.len();
    LocalDeploySummary {
        node_count,
        rack_id: plan.rack_id,
        node_ids: plan.node_ids,
        init_summary,
    }
}

/// The racks of the whole stack get one node each: how far that has come.
#[derive(Debug, Clone, Copy, PartialEq, Eq, Structural)]
pub struct RackAssignment {
    pub done: u8,
}

/// The number of writes that giving each rack its node takes.
pub const RACK_WRITES: u8 = 8;

/// The writes, in order: the three racks; the first node into the first rack;
/// each other node out of the first rack and into its own.
pub open spec fn rack_write(step: u8) -> ClusterWrite {
    if step == 0 {
        ClusterWrite::AddRack { rack_id: 1 }
    } else if step == 1 {
        ClusterWrite::AddRack { rack_id: 2 }
    } else if step == 2 {
        ClusterWrite::AddRack { rack_id: 3 }
    } else if step == 3 {
        ClusterWrite::AddNode { rack_id: 1, node_id: 1 }
    } else if step == 4 {
        ClusterWrite::RemoveNode { rack_id: 1, node_id: 2 }
    } else if step == 5 {
        ClusterWrite::AddNode { rack_id: 2, node_id: 2 }
    } else if step == 6 {
        ClusterWrite::RemoveNode { rack_id: 1, node_id: 3 }
    } else {
        ClusterWrite::AddNode { rack_id: 3, node_id: 3 }
    }
}

/// What the registry records when a write is about to be made: the rack,
/// where it was not recorded, or the node's rack.
pub open spec fn rack_recorded(before: Registry, step: u8, after: Registry) -> bool {
    match rack_write(step) {
        ClusterWrite::AddRack { rack_id } => if before.rack_index(rack_id) is Some {
            after == before
        } else {
            &&& after == (Registry { racks: before.racks.push(after.racks.last()), ..before })
            &&& after.racks.last().id == rack_id
            &&& after.racks.last().name@ == "rack-"@ + text::decimal(rack_id as nat)
        },
        ClusterWrite::AddNode { rack_id, node_id } => match before.node_index(node_id) {
            Some(i) => after == (Registry {
                nodes: before.nodes.update(i, NodeEntry { rack_id, ..before.nodes[i] }),
                ..before
            }),
            None => after == before,
        },
        _ => after == before,
    }
}

fn record_rack(ctx: &mut OpContext, rack_id: u64)
    ensures
        final(ctx).same_setup(*old(ctx)),
        final(ctx).pending == old(ctx).pending,
        final(ctx).records().rack_index(rack_id) is Some,
        if old(ctx).records().rack_index(rack_id) is Some {
            final(ctx).records() == old(ctx).records()
        } else {
            let last = final(ctx).records().racks.last();
            &&& final(ctx).records() == (Registry {
                racks: old(ctx).records().racks.push(last),
                ..old(ctx).records()
            })
            &&& last.id == rack_id
            &&& last.name@ == "rack-"@ + text::decimal(rack_id as nat)
        },
{
    let accepts = |x: &RackEntry| -> (b: bool)
        ensures
            b == (x.id == rack_id)
    { x.id == rack_id };
    let rack = lists::position(&ctx.registry.racks, accepts, Ghost(config::rack_numbered(rack_id)));
    if rack.is_none() {
        let mut name = "rack-".to_owned();
        name.append(decimal_text(rack_id).as_str());
        let _ = ctx.registry.add_rack(RackEntry { id: rack_id, name });
        proof {
            let p = config::rack_numbered(rack_id);
            let all = ctx.records().racks;
            lists::lemma_first_index(all, p);
            assert(p(all[all.len() - 1]));
        }
    }
}

fn record_node_rack(ctx: &mut OpContext, node_id: u64, rack_id: u64)
    ensures
        final(ctx).same_setup(*old(ctx)),
        final(ctx).pending == old(ctx).pending,
        match old(ctx).records().node_index(node_id) {
            Some(i) => final(ctx).records() == (Registry {
                nodes: old(ctx).records().nodes.update(
                    i,
                    NodeEntry { rack_id, ..old(ctx).records().nodes[i] },
                ),
                ..old(ctx).records()
            }),
            None => final(ctx).records() == old(ctx).records(),
        },
{
    let accepts = |n: &NodeEntry| -> (b: bool)
        ensures
            b == (n.id == node_id)
    { n.id == node_id };
    let pos = lists::position(
        &ctx.registry.nodes,
        accepts,
        Ghost(config::node_numbered(node_id)),
    );
    if let Some(i) = pos {
        let mut node = ctx.registry.nodes[i].clone();
        node.rack_id = rack_id;
        ctx.registry.nodes.set(i, node);
        assert(ctx.records() =~= (Registry {
            nodes: old(ctx).records().nodes.update(i as int, node),
            ..old(ctx).records()
        }));
    }
}

impl RackAssignment {
    pub fn new() -> (a: Self)
        ensures
            a.done == 0,
    {
        RackAssignment { done: 0 }
    }

    /// The next write. What the registry records with it is recorded before
    /// the write is made, and stays where it fails.
    pub fn next(&mut self, ctx: &mut OpContext) -> (w: Option<ClusterWrite>)
        ensures
            final(ctx).same_setup(*old(ctx)),
            final(ctx).pending == old(ctx).pending,
            if old(self).done < RACK_WRITES {
                &&& w == Some(rack_write(old(self).done))
                &&& final(self).done == old(self).done + 1
                &&& rack_recorded(old(ctx).records(), old(self).done, final(ctx).records())
            } else {
                &&& w is None
                &&& final(self).done == old(self).done
                &&& final(ctx).records() == old(ctx).records()
            },
    {
        let step: u8 = self.done;
        if step >= RACK_WRITES {
            return None;
        }
        self.done = step + 1;
        if step < 3 {
            let rack_id: u64 = step as u64 + 1;
            record_rack(ctx, rack_id);
            Some(ClusterWrite::AddRack { rack_id })
        } else if step == 4 {
            Some(ClusterWrite::RemoveNode { rack_id: 1, node_id: 2 })
        } else if step == 6 {
            Some(ClusterWrite::RemoveNode { rack_id: 1, node_id: 3 })
        } else {
            let n: u64 = if step == 3 {
                1
            } else if step == 5 {
                2
            } else {
                3
            };
            record_node_rack(ctx, n, n);
            Some(ClusterWrite::AddNode { rack_id: n, node_id: n })
        }
    }
}

/// A step keeps the nodes' ids, and the racks that are recorded.
proof fn lemma_rack_step(before: Registry, step: u8, after: Registry)
    requires
        step < RACK_WRITES,
        rack_recorded(before, step, after),
    ensures
        forall|id: u64| #[trigger] after.node_index(id) == before.node_index(id),
        forall|id: u64| before.rack_index(id) is Some ==> (#[trigger] after.rack_index(id)) is Some,
        rack_write(step) matches ClusterWrite::AddRack { rack_id } ==> after.rack_index(rack_id)
            is Some,
        after.nodes.len() == before.nodes.len(),
{
    if let ClusterWrite::AddRack { rack_id } = rack_write(step) {
        if before.rack_index(rack_id) is None {
            let p = config::rack_numbered(rack_id);
            lists::lemma_first_index(after.racks, p);
            assert(p(after.racks[after.racks.len() - 1]));
        }
    }
    assert forall|id: u64| before.rack_index(id) is Some implies (#[trigger] after.rack_index(
        id,
    )) is Some by {
        if after.racks != before.racks {
            lists::lemma_push_keeps_match(
                before.racks,
                config::rack_numbered(id),
                after.racks.last(),
            );
        }
    }
    if let ClusterWrite::AddNode { rack_id: _, node_id } = rack_write(step) {
        lists::lemma_first_index(before.nodes, config::node_numbered(node_id));
    }
    assert forall|j: int| 0 <= j < before.nodes.len() implies (#[trigger] after.nodes[j]).id
        == before.nodes[j].id by {}
    assert forall|id: u64| #[trigger] after.node_index(id) == before.node_index(id) by {
        let p = config::node_numbered(id);
        lists::lemma_first_index(before.nodes, p);
        match lists::first_index(before.nodes, p) {
            Some(i) => {
                assert forall|j: int| 0 <= j < i implies !p(#[trigger] after.nodes[j]) by {
                    assert(!p(before.nodes[j]));
                }
                assert(p(before.nodes[i]));
                lists::lemma_is_first_index(after.nodes, p, i);
            },
            None => {
                assert forall|j: int| 0 <= j < after.nodes.len() implies !p(
                    #[trigger] after.nodes[j],
                ) by {
                    assert(!p(before.nodes[j]));
                }
                lists::lemma_no_first_index(after.nodes, p);
            },
        }
    }
}

/// Different ids have different first indices.
proof fn lemma_nodes_apart(r: Registry, a: u64, b: u64)
    requires
        a != b,
        r.node_index(a) is Some,
        r.node_index(b) is Some,
    ensures
        r.node_index(a) != r.node_index(b),
        0 <= r.node_index(a)->0 < r.nodes.len(),
        0 <= r.node_index(b)->0 < r.nodes.len(),
{
    lists::lemma_first_index(r.nodes, config::node_numbered(a));
    lists::lemma_first_index(r.nodes, config::node_numbered(b));
}

/// The registries that the steps lead through.
pub open spec fn rack_steps(rs: Seq<Registry>) -> bool {
    &&& rs.len() == RACK_WRITES + 1
    &&& forall|k: int|
        0 <= k < RACK_WRITES ==> rack_recorded(#[trigger] rs[k], k as u8, rs[k + 1])
}

/// After all steps the three racks are recorded, and each of the nodes 1, 2
/// and 3 that is recorded stands in the rack of its number.
pub proof fn lemma_racks_assigned(rs: Seq<Registry>, n: u64)
    requires
        rack_steps(rs),
        1 <= n <= 3,
    ensures
        rs[8].rack_index(n) is Some,
        rs[8].node_index(n) == rs[0].node_index(n),
        rs[0].node_index(n) matches Some(i) ==> rs[8].nodes[i].rack_id == n,
{
    assert(rack_recorded(rs[0], 0, rs[1]));
    lemma_rack_step(rs[0], 0, rs[1]);
    assert(rack_recorded(rs[1], 1, rs[2]));
    lemma_rack_step(rs[1], 1, rs[2]);
    assert(rack_recorded(rs[2], 2, rs[3]));
    lemma_rack_step(rs[2], 2, rs[3]);
    assert(rack_recorded(rs[3], 3, rs[4]));
    lemma_rack_step(rs[3], 3, rs[4]);
    assert(rack_recorded(rs[4], 4, rs[5]));
    lemma_rack_step(rs[4], 4, rs[5]);
    assert(rack_recorded(rs[5], 5, rs[6]));
    lemma_rack_step(rs[5], 5, rs[6]);
    assert(rack_recorded(rs[6], 6, rs[7]));
    lemma_rack_step(rs[6], 6, rs[7]);
    assert(rack_recorded(rs[7], 7, rs[8]));
    lemma_rack_step(rs[7], 7, rs[8]);
    if rs[0].node_index(n) is Some {
        lists::lemma_first_index(rs[0].nodes, config::node_numbered(n));
        if n != 2 && rs[0].node_index(2) is Some {
            lemma_nodes_apart(rs[0], n, 2);
        }
        if n != 3 && rs[0].node_index(3) is Some {
            lemma_nodes_apart(rs[0], n, 3);
        }
    }
}

/// A group of the whole stack: its first replica's number follows from its own.
pub fn combined_group(group_id: u64) -> (first_replica: u64)
    requires
        100 + group_id <= u64::MAX,
    ensures
        first_replica == 100 + group_id,
{
    100 + group_id
}

/// What bringing up a whole local stack came to: three nodes in three racks.
pub fn combined_summary(
    diskdb_instances: usize,
    chunkdb_instances: usize,
    diskio_instances: usize,
) -> (s: LocalCombinedDeploySummary)
    ensures
        s == (LocalCombinedDeploySummary {
            kv_nodes: 3,
            racks: 3,
            diskdb_instances,
            chunkdb_instances,
            diskio_instances,
        }),
{
    LocalCombinedDeploySummary {
        kv_nodes: 3,
        racks: 3,
        diskdb_instances,
        chunkdb_instances,
        diskio_instances,
    }
}

/// A request for a server of a local cluster carries every tunable in its own
/// field, whatever the others are, besides the node's id, its ports and its
/// binary. The election profile is the one for tests, and nothing else is set.
pub proof fn lemma_cluster_request_fields(
    req: DeployRequest,
    node_id: NodeId,
    rest_port: u16,
    rpc_port: u16,
    binary: Seq<char>,
    t: KvDeployTunables,
)
    requires
        is_cluster_request(req, node_id, rest_port, rpc_port, binary, t),
    ensures
        req.server_id@ == text::decimal(node_id as nat),
        req.rest_port == rest_port,
        req.rpc_port == rpc_port,
        req.binary is Some && req.binary->0@ == binary,
        req.election_profile is Some && req.election_profile->0@ == "e2e"@,
        req.kv_backend == t.kv_backend,
        req.wal_backend == t.wal_backend,
        req.no_fsync <==> t.no_fsync == Some(true),
        req.metrics_interval == t.metrics_interval,
        req.max_inflight == t.max_inflight,
        req.coalesce_max_keys == t.coalesce_max_keys,
        req.peer_pool_size == t.peer_pool_size,
        req.event_write == t.event_write,
        req.send_queue_capacity == t.send_queue_capacity,
        req.rpc_workers == t.rpc_workers,
        req.enable_nagle is None,
        req.quickack is None,
        req.config is None,
{
}

/// The backends of a local cluster reach its servers' command lines under their
/// own options and no other: `--kv-backend` and `--wal-backend` stand there just
/// where the tunables name a backend, and that backend follows.
pub proof fn lemma_backends_reach_command_line(
    req: DeployRequest,
    node_id: NodeId,
    rest_port: u16,
    rpc_port: u16,
    binary: Seq<char>,
    t: KvDeployTunables,
    i: int,
)
    requires
        is_cluster_request(req, node_id, rest_port, rpc_port, binary, t),
        t.kv_backend matches Some(b) ==> b@.len() == 0 || b@[0] != '-',
        t.wal_backend matches Some(b) ==> b@.len() == 0 || b@[0] != '-',
    ensures
        command::benchmark_flags(req).contains("--kv-backend"@) <==> t.kv_backend is Some,
        0 <= i < command::benchmark_flags(req).len() && command::benchmark_flags(req)[i] == "--kv-backend"@ ==> i + 1
            < command::benchmark_flags(req).len() && command::benchmark_flags(req)[i + 1] == t.kv_backend->0@,
        command::benchmark_flags(req).contains("--wal-backend"@) <==> t.wal_backend is Some,
        0 <= i < command::benchmark_flags(req).len() && command::benchmark_flags(req)[i] == "--wal-backend"@ ==> i + 1
            < command::benchmark_flags(req).len() && command::benchmark_flags(req)[i + 1] == t.wal_backend->0@,
{
    command::lemma_kv_backend_option(req, i);
    command::lemma_wal_backend_option(req, i);
}

/// The figures for requests of a local cluster reach its servers' command lines
/// under their own options and no other.
pub proof fn lemma_workers_reach_command_line(
    req: DeployRequest,
    node_id: NodeId,
    rest_port: u16,
    rpc_port: u16,
    binary: Seq<char>,
    t: KvDeployTunables,
    i: int,
)
    requires
        is_cluster_request(req, node_id, rest_port, rpc_port, binary, t),
        t.kv_backend matches Some(b) ==> b@.len() == 0 || b@[0] != '-',
        t.wal_backend matches Some(b) ==> b@.len() == 0 || b@[0] != '-',
    ensures
        command::benchmark_flags(req).contains("--metrics-interval"@) <==> t.metrics_interval is Some,
        0 <= i < command::benchmark_flags(req).len() && command::benchmark_flags(req)[i] == "--metrics-interval"@ ==> i + 1
            < command::benchmark_flags(req).len() && command::benchmark_flags(req)[i + 1] == text::decimal(t.metrics_interval->0 as nat),
        command::benchmark_flags(req).contains("--max-inflight"@) <==> t.max_inflight is Some,
        0 <= i < command::benchmark_flags(req).len() && command::benchmark_flags(req)[i] == "--max-inflight"@ ==> i + 1
            < command::benchmark_flags(req).len() && command::benchmark_flags(req)[i + 1] == text::decimal(t.max_inflight->0 as nat),
        command::benchmark_flags(req).contains("--coalesce-max-keys"@) <==> t.coalesce_max_keys is Some,
        0 <= i < command::benchmark_flags(req).len() && command::benchmark_flags(req)[i] == "--coalesce-max-keys"@ ==> i + 1
            < command::benchmark_flags(req).len() && command::benchmark_flags(req)[i + 1] == text::decimal(t.coalesce_max_keys->0 as nat),
{
    command::lemma_metrics_interval_option(req, i);
    command::lemma_max_inflight_option(req, i);
    command::lemma_coalesce_max_keys_option(req, i);
}

/// The figures for connections of a local cluster reach its servers' command
/// lines under their own options and no other.
pub proof fn lemma_pools_reach_command_line(
    req: DeployRequest,
    node_id: NodeId,
    rest_port: u16,
    rpc_port: u16,
    binary: Seq<char>,
    t: KvDeployTunables,
    i: int,
)
    requires
        is_cluster_request(req, node_id, rest_port, rpc_port, binary, t),
        t.kv_backend matches Some(b) ==> b@.len() == 0 || b@[0] != '-',
        t.wal_backend matches Some(b) ==> b@.len() == 0 || b@[0] != '-',
    ensures
        command::benchmark_flags(req).contains("--rpc-workers"@) <==> t.rpc_workers is Some,
        0 <= i < command::benchmark_flags(req).len() && command::benchmark_flags(req)[i] == "--rpc-workers"@ ==> i + 1
            < command::benchmark_flags(req).len() && command::benchmark_flags(req)[i + 1] == text::decimal(t.rpc_workers->0 as nat),
        command::benchmark_flags(req).contains("--peer-pool-size"@) <==> t.peer_pool_size is Some,
        0 <= i < command::benchmark_flags(req).len() && command::benchmark_flags(req)[i] == "--peer-pool-size"@ ==> i + 1
            < command::benchmark_flags(req).len() && command::benchmark_flags(req)[i + 1] == text::decimal(t.peer_pool_size->0 as nat),
        command::benchmark_flags(req).contains("--send-queue-capacity"@) <==> t.send_queue_capacity is Some,
        0 <= i < command::benchmark_flags(req).len() && command::benchmark_flags(req)[i] == "--send-queue-capacity"@ ==> i + 1
            < command::benchmark_flags(req).len() && command::benchmark_flags(req)[i + 1] == text::decimal(t.send_queue_capacity->0 as nat),
{
    command::lemma_rpc_workers_option(req, i);
    command::lemma_peer_pool_size_option(req, i);
    command::lemma_send_queue_capacity_option(req, i);
}

/// The switches of a local cluster reach its servers' command lines just where
/// they are turned on.
pub proof fn lemma_switches_reach_command_line(
    req: DeployRequest,
    node_id: NodeId,
    rest_port: u16,
    rpc_port: u16,
    binary: Seq<char>,
    t: KvDeployTunables,
)
    requires
        is_cluster_request(req, node_id, rest_port, rpc_port, binary, t),
        t.kv_backend matches Some(b) ==> b@.len() == 0 || b@[0] != '-',
        t.wal_backend matches Some(b) ==> b@.len() == 0 || b@[0] != '-',
    ensures
        command::benchmark_flags(req).contains("--no-fsync"@) <==> t.no_fsync == Some(true),
        !command::benchmark_flags(req).contains("--enable-nagle"@),
        !command::benchmark_flags(req).contains("--quickack"@),
        command::benchmark_flags(req).contains("--event-write"@) <==> t.event_write == Some(true),
{
    command::lemma_no_fsync_option(req);
    command::lemma_enable_nagle_option(req);
    command::lemma_quickack_option(req);
    command::lemma_event_write_option(req);
}

/// The nodes of a local cluster are numbered from 1 on, without a gap.
pub proof fn lemma_numbers(n: nat, i: int)
    requires
        n <= u64::MAX,
        0 <= i < n,
    ensures
        numbers_to(n).len() == n,
        numbers_to(n)[0] == 1,
        numbers_to(n)[i] == i + 1,
        numbers_to(n).last() == n,
{
}

/// A node of a local cluster is on this machine, reached without SSH, and
/// stands in the rack that it was given.
pub proof fn lemma_local_node(n: NodeEntry, node_id: NodeId, rack_id: u64)
    requires
        is_local_node(n, node_id, rack_id),
    ensures
        n.id == node_id,
        n.rack_id == rack_id,
        n.host@ == "127.0.0.1"@,
        n.ssh_port == 22,
        n.ssh_user@.len() == 0,
        n.ssh_key is None,
        n.ssh_password is None,
{
}

/// The nodes that are missing are just those asked for that are not recorded,
/// and each of them once.
pub proof fn lemma_missing_nodes(nodes: Seq<NodeEntry>, ids: Seq<u64>, id: u64)
    ensures
        missing(nodes, ids).contains(id) <==> ids.contains(id) && forall|i: int|
            0 <= i < nodes.len() ==> (#[trigger] nodes[i]).id != id,
        missing(nodes, ids).no_duplicates(),
    decreases ids.len(),
{
    let numbered = config::node_numbered(id);
    lists::lemma_first_index(nodes, numbered);
    let known = lists::first_index(nodes, numbered) is Some;
    assert(known <==> exists|i: int| 0 <= i < nodes.len() && (#[trigger] nodes[i]).id == id) by {
        if known {
            let k = lists::first_index(nodes, numbered)->0;
            assert(numbered(nodes[k]));
            assert(nodes[k].id == id);
        } else {
            assert forall|i: int| 0 <= i < nodes.len() implies (#[trigger] nodes[i]).id != id by {
                assert(!numbered(nodes[i]));
            }
        }
    }
    if ids.len() > 0 {
        let earlier = ids.drop_last();
        let before = missing(nodes, earlier);
        let last = ids.last();
        lemma_missing_nodes(nodes, earlier, id);
        assert(ids =~= earlier.push(last));
        assert(ids.contains(id) <==> earlier.contains(id) || id == last) by {
            if earlier.contains(id) {
                let k = choose|k: int| 0 <= k < earlier.len() && earlier[k] == id;
                assert(ids[k] == id);
            }
            if id == last {
                assert(ids[ids.len() - 1] == id);
            }
            if ids.contains(id) && id != last {
                let k = choose|k: int| 0 <= k < ids.len() && ids[k] == id;
                assert(earlier[k] == id);
            }
        }
        if missing(nodes, ids) != before {
            let m = before.push(last);
            assert(m[before.len() as int] == last);
            if before.contains(id) {
                let k = choose|k: int| 0 <= k < before.len() && before[k] == id;
                assert(m[k] == id);
            }
            if m.contains(id) && id != last {
                let k = choose|k: int| 0 <= k < m.len() && m[k] == id;
                assert(before[k] == id);
            }
        }
    }
}

/// Writing down a rack and its nodes records the rack under its number where it
/// was not, keeps every node that was recorded and puts those that were missing
/// behind them, in the rack. Nothing else changes.
pub proof fn lemma_rack_and_nodes(
    before: Registry,
    rack_id: u64,
    ids: Seq<u64>,
    after: Registry,
    i: int,
)
    requires
        rack_and_nodes_written(before, rack_id, ids, after),
    ensures
        before.rack_index(rack_id) is Some ==> after.racks == before.racks,
        before.rack_index(rack_id) is None ==> {
            &&& after.racks.len() == before.racks.len() + 1
            &&& after.racks.last().id == rack_id
            &&& after.racks.last().name@ == "rack-"@ + text::decimal(rack_id as nat)
            &&& 0 <= i < before.racks.len() ==> after.racks[i] == before.racks[i]
        },
        after.nodes.len() == before.nodes.len() + missing(before.nodes, ids).len(),
        0 <= i < before.nodes.len() ==> after.nodes[i] == before.nodes[i],
        before.nodes.len() <= i < after.nodes.len() ==> {
            let n = after.nodes[i];
            &&& n.id == missing(before.nodes, ids)[i - before.nodes.len()]
            &&& n.rack_id == rack_id
            &&& n.host@ == "127.0.0.1"@
        },
        after.servers == before.servers,
        after.stores == before.stores,
        after.groups == before.groups,
        after.disk_groups == before.disk_groups,
        after.disks == before.disks,
{
    if before.rack_index(rack_id) is None && 0 <= i < before.racks.len() {
        assert(after.racks.drop_last()[i] == after.racks[i]);
    }
    if 0 <= i < before.nodes.len() {
        assert(after.nodes.take(before.nodes.len() as int)[i] == after.nodes[i]);
    }
}

/// What is recorded of a server of a local service: its id, its two addresses
/// and ports, its node, its process and its service, and no tuning.
pub proof fn lemma_service_entry(
    e: ServerEntry,
    id: Seq<char>,
    url: Seq<char>,
    rpc_url: Seq<char>,
    node_id: Option<NodeId>,
    rest_port: Option<u16>,
    rpc_port: u16,
    pid: u32,
    service: ServiceType,
)
    requires
        is_service_entry(e, id, url, rpc_url, node_id, rest_port, rpc_port, pid, service),
    ensures
        e.id@ == id,
        e.url@ == url,
        e.rpc_url is Some && e.rpc_url->0@ == rpc_url,
        e.node_id == node_id,
        e.rest_port == rest_port,
        e.rpc_port == Some(rpc_port),
        e.pid == Some(pid),
        e.service_type == service,
        e.election_profile is None,
        e.rpc_workers is None,
        !e.no_fsync,
{
}

/// A server is recorded behind the others just where neither its id nor its
/// address is taken; else nothing changes.
pub proof fn lemma_server_added(
    before: Registry,
    id: Seq<char>,
    url: Seq<char>,
    after: Registry,
    r: Result<(), Error>,
    i: int,
)
    requires
        server_added(before, id, url, after, r),
    ensures
        r is Ok <==> before.server_index(id) is None && before.url_index(url) is None,
        r is Err ==> after == before,
        r is Err && before.server_index(id) is Some ==> r->Err_0.is_conflict("server"@, id),
        r is Err && before.server_index(id) is None ==> r->Err_0.is_validation(
            "url"@,
            "url "@ + url + " already registered"@,
        ),
        r is Ok ==> {
            &&& after.servers.len() == before.servers.len() + 1
            &&& 0 <= i < before.servers.len() ==> after.servers[i] == before.servers[i]
            &&& after.racks == before.racks && after.nodes == before.nodes
            &&& after.stores == before.stores && after.groups == before.groups
            &&& after.disk_groups == before.disk_groups && after.disks == before.disks
        },
{
}

/// The eight writes that spread three nodes over three racks, one by one.
pub proof fn lemma_rack_writes()
    ensures
        RACK_WRITES == 8,
        rack_write(0) == (ClusterWrite::AddRack { rack_id: 1 }),
        rack_write(1) == (ClusterWrite::AddRack { rack_id: 2 }),
        rack_write(2) == (ClusterWrite::AddRack { rack_id: 3 }),
        rack_write(3) == (ClusterWrite::AddNode { rack_id: 1, node_id: 1 }),
        rack_write(4) == (ClusterWrite::RemoveNode { rack_id: 1, node_id: 2 }),
        rack_write(5) == (ClusterWrite::AddNode { rack_id: 2, node_id: 2 }),
        rack_write(6) == (ClusterWrite::RemoveNode { rack_id: 1, node_id: 3 }),
        rack_write(7) == (ClusterWrite::AddNode { rack_id: 3, node_id: 3 }),
{
}

/// A step records a rack, with its name, where it was not recorded, or moves a
/// node that is recorded; it changes nothing else.
pub proof fn lemma_rack_step_records(before: Registry, step: u8, after: Registry, i: int)
    requires
        rack_recorded(before, step, after),
    ensures
        rack_write(step) matches ClusterWrite::AddRack { rack_id } ==> {
            &&& after.nodes == before.nodes
            &&& before.rack_index(rack_id) is Some ==> after.racks == before.racks
            &&& before.rack_index(rack_id) is None ==> after.racks.len() == before.racks.len() + 1
                && after.racks.last().id == rack_id && after.racks.last().name@ == "rack-"@
                + text::decimal(rack_id as nat)
        },
        rack_write(step) matches ClusterWrite::AddNode { rack_id, node_id } ==> {
            &&& after.racks == before.racks
            &&& after.nodes.len() == before.nodes.len()
            &&& before.node_index(node_id) == Some(i) ==> after.nodes[i].rack_id == rack_id
                && after.nodes[i].id == before.nodes[i].id && after.nodes[i].host
                == before.nodes[i].host
            &&& 0 <= i < before.nodes.len() && before.node_index(node_id) != Some(i)
                ==> after.nodes[i] == before.nodes[i]
        },
        rack_write(step) is RemoveNode ==> after == before,
        0 <= i < before.racks.len() ==> after.racks[i] == before.racks[i],
        after.servers == before.servers,
        after.stores == before.stores,
        after.groups == before.groups,
        after.disk_groups == before.disk_groups,
        after.disks == before.disks,
{
    match rack_write(step) {
        ClusterWrite::AddNode { rack_id, node_id } => {
            lists::lemma_first_index(before.nodes, config::node_numbered(node_id));
        },
        _ => {},
    }
}

/// Every node of a rollout has a port for management and one for requests.
pub proof fn lemma_rollout_ports(r: ServerRollout, i: int)
    requires
        r.well_formed(),
        0 <= i < r.node_ids@.len(),
    ensures
        i < r.rest_ports@.len(),
        i < r.rpc_ports@.len(),
{
}

} // verus!
