//! The key-value servers of nodes. Each operation is decided on before a
//! process is touched, and recorded afterwards.

use vstd::prelude::*;

use crate::console::config::{
    clone_text, GroupRecord, NodeEntry, NodeId, Registry, ServerEntry, ServiceType, StoreRecord,
};
use crate::console::error::Error;
use crate::console::lifecycle::{DeployRequest, DeployedServer};
use crate::console::ops::context::OpContext;
#[allow(unused_imports)]
use crate::console::topology;
#[allow(unused_imports)]
use crate::lists;
#[allow(unused_imports)]
use crate::text;
use crate::text::{decimal_text, parse_unsigned};

verus! {

/// How the processes of a node are reached.
#[derive(Debug, Clone, PartialEq, Eq)]
pub enum Transport {
    /// They are children of this process.
    Local,
    /// They are started by a remote shell, from this binary.
    Ssh { server_bin: String },
}

/// A server that may be deployed.
#[derive(Debug, PartialEq, Eq)]
pub struct DeployPlan {
    pub node_id: NodeId,
    pub node: NodeEntry,
    pub via: Transport,
}

/// The node that a request speaks of: its server id, read as a number. One
/// that does not read as a number stands for node 0.
pub open spec fn requested_node(server_id: Seq<char>) -> u64 {
    match text::parsed_unsigned(server_id, u64::MAX as nat) {
        Some(n) => n as u64,
        None => 0,
    }
}

fn node_of_request(req: &DeployRequest) -> (n: u64)
    ensures
        n == requested_node(req.server_id@),
{
    match parse_unsigned(req.server_id.as_str(), u64::MAX) {
        Some(n) => n,
        None => 0,
    }
}

/// The binary that is started on another host where the request names none.
pub open spec fn remote_bin(asked: Option<Seq<char>>, named: Option<Seq<char>>) -> Seq<char> {
    match asked {
        Some(b) => b,
        None => match named {
            Some(b) => b,
            None => "crowdb-kv-server"@,
        },
    }
}

pub open spec fn text_view(t: Option<String>) -> Option<Seq<char>> {
    match t {
        Some(s) => Some(s@),
        None => None,
    }
}

fn remote_bin_text(asked: &Option<String>, named: Option<String>) -> (s: String)
    ensures
        s@ == remote_bin(text_view(*asked), text_view(named)),
{
    match asked {
        Some(b) => b.clone(),
        None => match named {
            Some(b) => b,
            None => "crowdb-kv-server".to_owned(),
        },
    }
}

/// How a node is reached: by a remote shell where it has a user for it.
pub open spec fn reaches(
    via: Transport,
    node: NodeEntry,
    asked: Option<Seq<char>>,
    named: Option<Seq<char>>,
) -> bool {
    match via {
        Transport::Local => node.ssh_user@.len() == 0,
        Transport::Ssh { server_bin } => node.ssh_user@.len() > 0 && server_bin@ == remote_bin(
            asked,
            named,
        ),
    }
}

/// Decides on a server that is to be deployed. `named_bin` is the binary that
/// the environment names. Refuses a node that is not recorded, and one that
/// has a server.
pub fn deploy(ctx: &OpContext, req: &DeployRequest, named_bin: Option<String>) -> (r: Result<
    DeployPlan,
    Error,
>)
    ensures
        ({
            let n = requested_node(req.server_id@);
            match ctx.records().node_index(n) {
                None => r matches Err(e) && e.is_not_found("node"@, text::decimal(n as nat)),
                Some(i) => if ctx.records().kv_index(n) is Some {
                    r matches Err(e) && e.is_conflict(
                        "server"@,
                        "node "@ + text::decimal(n as nat) + " already hosts a deployed server"@,
                    )
                } else {
                    r matches Ok(p) && p.node_id == n && p.node == ctx.records().nodes[i]
                        && reaches(
                        p.via,
                        p.node,
                        text_view(req.binary),
                        text_view(named_bin),
                    )
                },
            }
        }),
{
    let node_id: u64 = node_of_request(req);
    let node = match ctx.node_entry(node_id) {
        Ok(n) => n,
        Err(e) => {
            return Err(e);
        },
    };
    if ctx.registry.server_for_node(node_id).is_some() {
        let mut text = "node ".to_owned();
        text.append(decimal_text(node_id).as_str());
        text.append(" already hosts a deployed server");
        return Err(Error::conflict("server", text));
    }
    let via = if node.ssh_enabled() {
        Transport::Ssh { server_bin: remote_bin_text(&req.binary, named_bin) }
    } else {
        Transport::Local
    };
    Ok(DeployPlan { node_id, node, via })
}

/// What the registry records of a server that was deployed.
pub open spec fn is_deployed_entry(
    e: ServerEntry,
    req: DeployRequest,
    node_id: NodeId,
    d: DeployedServer,
) -> bool {
    &&& e.id@ == text::decimal(node_id as nat)
    &&& e.url == d.mgmt_url
    &&& e.node_id == Some(node_id)
    &&& e.rpc_url == Some(d.rpc_url)
    &&& e.rest_port == Some(req.rest_port)
    &&& e.rpc_port == Some(req.rpc_port)
    &&& e.auto_start
    &&& e.binary == req.binary
    &&& e.election_profile == req.election_profile
    &&& e.pid == Some(d.pid)
    &&& e.service_type == ServiceType::Kv
    &&& e.rpc_workers == req.rpc_workers
    &&& e.no_fsync == req.no_fsync
}

/// The complaint of a registry that does not take a server, if it has one.
pub open spec fn add_fault(r: Registry, id: Seq<char>, url: Seq<char>) -> Option<Seq<char>> {
    if r.server_index(id) is Some {
        Some("configuration error: server conflict: "@ + id)
    } else if r.url_index(url) is Some {
        Some("configuration error: invalid url: url "@ + url + " already registered"@)
    } else {
        None
    }
}

/// Adds a server to the registry; a refusal is a fault of the configuration.
fn add_recorded(ctx: &mut OpContext, entry: ServerEntry) -> (r: Result<(), Error>)
    ensures
        final(ctx).same_setup(*old(ctx)),
        final(ctx).pending == old(ctx).pending,
        old(ctx).records().well_formed() ==> final(ctx).records().well_formed(),
        match add_fault(old(ctx).records(), entry.id@, entry.url@) {
            Some(t) => final(ctx).records() == old(ctx).records() && (r matches Err(e) && e is Config
                && e.text() == t),
            None => r is Ok && final(ctx).records() == (Registry {
                servers: old(ctx).records().servers.push(entry),
                ..old(ctx).records()
            }),
        },
{
    let ghost id = entry.id@;
    let ghost url = entry.url@;
    match ctx.registry.add_server(entry) {
        Ok(_) => Ok(()),
        Err(e) => {
            let t = e.message();
            proof {
                reveal_strlit("configuration error: ");
                reveal_strlit(" conflict: ");
                reveal_strlit("server");
                reveal_strlit("configuration error: server conflict: ");
                reveal_strlit("invalid ");
                reveal_strlit("url");
                reveal_strlit(": ");
                reveal_strlit("url ");
                reveal_strlit(" already registered");
                reveal_strlit("configuration error: invalid url: url ");
                if ctx.records().server_index(id) is Some {
                    assert("configuration error: "@ + t@
                        =~= "configuration error: server conflict: "@ + id);
                } else {
                    assert("configuration error: "@ + t@
                        =~= "configuration error: invalid url: url "@ + url
                        + " already registered"@);
                }
            }
            Err(Error::Config(t))
        },
    }
}

/// The error of a deployment that failed with `detail`.
fn deploy_error(node_id: NodeId, stage: &str, detail: &str) -> (e: Error)
    ensures
        e.is_unreachable(text::decimal(node_id as nat), stage@ + detail@),
{
    let mut s = stage.to_owned();
    s.append(detail);
    Error::unreachable(decimal_text(node_id), s)
}

/// Records a deployment that was tried.
pub fn record_deploy(
    ctx: &mut OpContext,
    req: &DeployRequest,
    plan: &DeployPlan,
    outcome: Result<DeployedServer, String>,
) -> (r: Result<DeployedServer, Error>)
    ensures
        final(ctx).same_setup(*old(ctx)),
        final(ctx).pending == old(ctx).pending,
        old(ctx).records().well_formed() ==> final(ctx).records().well_formed(),
        match outcome {
            Err(t) => {
                &&& final(ctx).records() == old(ctx).records()
                &&& r matches Err(e) && e.is_unreachable(
                    text::decimal(plan.node_id as nat),
                    (if plan.via is Ssh {
                        "ssh deploy: "@
                    } else {
                        "local deploy: "@
                    }) + t@,
                )
            },
            Ok(d) => match add_fault(
                old(ctx).records(),
                text::decimal(plan.node_id as nat),
                d.mgmt_url@,
            ) {
                Some(t) => {
                    &&& final(ctx).records() == old(ctx).records()
                    &&& r matches Err(e) && e is Config && e.text() == t
                },
                None => {
                    let entry = final(ctx).records().servers.last();
                    &&& r == Ok::<DeployedServer, Error>(d)
                    &&& is_deployed_entry(entry, *req, plan.node_id, d)
                    &&& final(ctx).records() == (Registry {
                        servers: old(ctx).records().servers.push(entry),
                        ..old(ctx).records()
                    })
                },
            },
        },
{
    let d = match outcome {
        Ok(d) => d,
        Err(t) => {
            let stage = match plan.via {
                Transport::Ssh { .. } => "ssh deploy: ",
                Transport::Local => "local deploy: ",
            };
            return Err(deploy_error(plan.node_id, stage, t.as_str()));
        },
    };
    let entry = ServerEntry {
        id: decimal_text(plan.node_id),
        url: d.mgmt_url.clone(),
        node_id: Some(plan.node_id),
        rpc_url: Some(d.rpc_url.clone()),
        rest_port: Some(req.rest_port),
        rpc_port: Some(req.rpc_port),
        auto_start: true,
        binary: clone_text(&req.binary),
        election_profile: clone_text(&req.election_profile),
        pid: Some(d.pid),
        service_type: ServiceType::Kv,
        rpc_workers: req.rpc_workers,
        no_fsync: req.no_fsync,
    };
    match add_recorded(ctx, entry) {
        Ok(_) => Ok(d),
        Err(e) => Err(e),
    }
}

/// The node and the server of an operation. Refuses a node that is not
/// recorded, then one without server.
fn node_and_server(ctx: &OpContext, node_id: NodeId) -> (r: Result<(NodeEntry, ServerEntry), Error>)
    ensures
        match ctx.records().node_index(node_id) {
            None => r matches Err(e) && e.is_not_found("node"@, text::decimal(node_id as nat)),
            Some(i) => match ctx.records().kv_index(node_id) {
                None => r matches Err(e) && e.is_not_found(
                    "server"@,
                    text::decimal(node_id as nat),
                ),
                Some(j) => r == Ok::<(NodeEntry, ServerEntry), Error>(
                    (ctx.records().nodes[i], ctx.records().servers[j]),
                ),
            },
        },
{
    let node = match ctx.node_entry(node_id) {
        Ok(n) => n,
        Err(e) => {
            return Err(e);
        },
    };
    match ctx.server_for_node(node_id) {
        Ok(s) => Ok((node, s)),
        Err(e) => Err(e),
    }
}

/// A process that is to be ended.
#[derive(Debug, PartialEq, Eq)]
pub struct StopPlan {
    pub node: NodeEntry,
    pub pid: u32,
    pub via_ssh: bool,
}

/// Decides on a server that is to be stopped. A process id that is given
/// comes before the one that is recorded. Refuses a node without server, and a
/// server without process id.
pub fn stop(ctx: &OpContext, node_id: NodeId, pid_override: Option<u32>) -> (r: Result<
    StopPlan,
    Error,
>)
    ensures
        match ctx.records().node_index(node_id) {
            None => r matches Err(e) && e.is_not_found("node"@, text::decimal(node_id as nat)),
            Some(i) => match ctx.records().kv_index(node_id) {
                None => r matches Err(e) && e.is_not_found(
                    "server"@,
                    text::decimal(node_id as nat),
                ),
                Some(j) => match (pid_override, ctx.records().servers[j].pid) {
                    (None, None) => r matches Err(e) && e.is_not_found(
                        "server"@,
                        "node "@ + text::decimal(node_id as nat) + " has no tracked pid"@,
                    ),
                    (given, known) => r matches Ok(p) && p.node == ctx.records().nodes[i]
                        && p.via_ssh == (p.node.ssh_user@.len() > 0) && Some(p.pid) == (
                    if given is Some {
                        given
                    } else {
                        known
                    }),
                },
            },
        },
{
    let (node, entry) = match node_and_server(ctx, node_id) {
        Ok(x) => x,
        Err(e) => {
            return Err(e);
        },
    };
    let pid: Option<u32> = match pid_override {
        Some(p) => Some(p),
        None => entry.pid,
    };
    match pid {
        Some(pid) => {
            let via_ssh = node.ssh_enabled();
            Ok(StopPlan { node, pid, via_ssh })
        },
        None => {
            let mut text = "node ".to_owned();
            text.append(decimal_text(node_id).as_str());
            text.append(" has no tracked pid");
            Err(Error::not_found("server", text))
        },
    }
}

/// The error of a remote process that could not be ended.
pub fn ssh_stop_error(node_id: NodeId, detail: &str) -> (e: Error)
    ensures
        e.is_unreachable(text::decimal(node_id as nat), "ssh stop: "@ + detail@),
{
    deploy_error(node_id, "ssh stop: ", detail)
}

/// Records that a server was stopped: its process id is forgotten, the rest
/// stays.
pub fn record_stop(ctx: &mut OpContext, node_id: NodeId)
    ensures
        final(ctx).same_setup(*old(ctx)),
        final(ctx).pending == old(ctx).pending,
        match old(ctx).records().kv_index(node_id) {
            Some(i) => final(ctx).records() == (Registry {
                servers: old(ctx).records().servers.update(
                    i,
                    ServerEntry { pid: None, ..old(ctx).records().servers[i] },
                ),
                ..old(ctx).records()
            }),
            None => final(ctx).records() == old(ctx).records(),
        },
{
    match ctx.registry.server_for_node_mut(node_id) {
        Some(s) => {
            s.pid = None;
        },
        None => {},
    }
}

/// A server that is to be restarted.
#[derive(Debug, PartialEq, Eq)]
pub struct RestartPlan {
    pub node_id: NodeId,
    pub node: NodeEntry,
    pub entry: ServerEntry,
    /// The process to end first; that it cannot be ended does not matter.
    pub stop: Option<u32>,
    pub request: DeployRequest,
    pub via: Transport,
}

/// The request that brings a recorded server up again: the same ports and
/// settings, everything else left to the server.
pub open spec fn is_restart_request(
    req: DeployRequest,
    node_id: NodeId,
    entry: ServerEntry,
) -> bool {
    &&& req.server_id@ == text::decimal(node_id as nat)
    &&& Some(req.rest_port) == entry.rest_port
    &&& Some(req.rpc_port) == entry.rpc_port
    &&& req.binary == entry.binary
    &&& req.election_profile == entry.election_profile
    &&& req.rpc_workers == entry.rpc_workers
    &&& req.no_fsync == entry.no_fsync
    &&& req.kv_backend is None
    &&& req.wal_backend is None
    &&& req.metrics_interval is None
    &&& req.max_inflight is None
    &&& req.coalesce_max_keys is None
    &&& req.peer_pool_size is None
    &&& req.enable_nagle is None
    &&& req.quickack is None
    &&& req.event_write is None
    &&& req.send_queue_capacity is None
    &&& req.config is None
}

fn missing_port(node_id: NodeId, port: &str) -> (e: Error)
    ensures
        e.is_config(
            "server entry for node "@ + text::decimal(node_id as nat) + " has no "@ + port@,
        ),
{
    let mut text = "server entry for node ".to_owned();
    text.append(decimal_text(node_id).as_str());
    text.append(" has no ");
    text.append(port);
    Error::Config(text)
}

/// Decides on a server that is to be restarted. `named_bin` is the binary
/// that the environment names. Refuses a node without server, and a server
/// whose ports are not recorded.
pub fn restart(ctx: &OpContext, node_id: NodeId, named_bin: Option<String>) -> (r: Result<
    RestartPlan,
    Error,
>)
    ensures
        match ctx.records().node_index(node_id) {
            None => r matches Err(e) && e.is_not_found("node"@, text::decimal(node_id as nat)),
            Some(i) => match ctx.records().kv_index(node_id) {
                None => r matches Err(e) && e.is_not_found(
                    "server"@,
                    text::decimal(node_id as nat),
                ),
                Some(j) => {
                    let entry = ctx.records().servers[j];
                    if entry.rest_port is None {
                        r matches Err(e) && e.is_config(
                            "server entry for node "@ + text::decimal(node_id as nat) + " has no "@
                                + "rest_port"@,
                        )
                    } else if entry.rpc_port is None {
                        r matches Err(e) && e.is_config(
                            "server entry for node "@ + text::decimal(node_id as nat) + " has no "@
                                + "rpc_port"@,
                        )
                    } else {
                        r matches Ok(p) && {
                            &&& p.node_id == node_id
                            &&& p.node == ctx.records().nodes[i]
                            &&& p.entry == entry
                            &&& p.stop == entry.pid
                            &&& is_restart_request(p.request, node_id, entry)
                            &&& reaches(p.via, p.node, None, text_view(named_bin))
                        }
                    }
                },
            },
        },
{
    let (node, entry) = match node_and_server(ctx, node_id) {
        Ok(x) => x,
        Err(e) => {
            return Err(e);
        },
    };
    let rest_port: u16 = match entry.rest_port {
        Some(p) => p,
        None => {
            return Err(missing_port(node_id, "rest_port"));
        },
    };
    let rpc_port: u16 = match entry.rpc_port {
        Some(p) => p,
        None => {
            return Err(missing_port(node_id, "rpc_port"));
        },
    };
    let request = DeployRequest {
        server_id: decimal_text(node_id),
        rest_port,
        rpc_port,
        binary: clone_text(&entry.binary),
        election_profile: clone_text(&entry.election_profile),
        kv_backend: None,
        wal_backend: None,
        no_fsync: entry.no_fsync,
        metrics_interval: None,
        max_inflight: None,
        coalesce_max_keys: None,
        peer_pool_size: None,
        enable_nagle: None,
        quickack: None,
        event_write: None,
        send_queue_capacity: None,
        config: None,
        rpc_workers: entry.rpc_workers,
    };
    let via = if node.ssh_enabled() {
        Transport::Ssh { server_bin: remote_bin_text(&None, named_bin) }
    } else {
        Transport::Local
    };
    let stop: Option<u32> = entry.pid;
    Ok(RestartPlan { node_id, node, entry, stop, request, via })
}

/// The servers without the key-value server of a node.
pub open spec fn without_server(r: Registry, node_id: NodeId) -> Registry {
    match r.kv_index(node_id) {
        Some(i) => Registry { servers: r.servers.remove(i), ..r },
        None => r,
    }
}

/// Records a restart that was tried. The new process takes the place of the
/// old one, which is forgotten even where the new one is refused.
pub fn record_restart(
    ctx: &mut OpContext,
    plan: &RestartPlan,
    outcome: Result<DeployedServer, String>,
) -> (r: Result<DeployedServer, Error>)
    ensures
        final(ctx).same_setup(*old(ctx)),
        final(ctx).pending == old(ctx).pending,
        old(ctx).records().well_formed() ==> final(ctx).records().well_formed(),
        match outcome {
            Err(t) => {
                &&& final(ctx).records() == old(ctx).records()
                &&& r matches Err(e) && e.is_unreachable(
                    text::decimal(plan.node_id as nat),
                    (if plan.via is Ssh {
                        "ssh redeploy: "@
                    } else {
                        "local redeploy: "@
                    }) + t@,
                )
            },
            Ok(d) => {
                let base = without_server(old(ctx).records(), plan.node_id);
                match add_fault(base, text::decimal(plan.node_id as nat), d.mgmt_url@) {
                    Some(t) => {
                        &&& final(ctx).records() == base
                        &&& r matches Err(e) && e is Config && e.text() == t
                    },
                    None => {
                        let entry = final(ctx).records().servers.last();
                        &&& r == Ok::<DeployedServer, Error>(d)
                        &&& entry == (ServerEntry {
                            id: entry.id,
                            url: d.mgmt_url,
                            node_id: Some(plan.node_id),
                            rpc_url: Some(d.rpc_url),
                            rest_port: Some(plan.request.rest_port),
                            rpc_port: Some(plan.request.rpc_port),
                            pid: Some(d.pid),
                            ..plan.entry
                        })
                        &&& entry.id@ == text::decimal(plan.node_id as nat)
                        &&& final(ctx).records() == (Registry {
                            servers: base.servers.push(entry),
                            ..base
                        })
                    },
                }
            },
        },
{
    let d = match outcome {
        Ok(d) => d,
        Err(t) => {
            let stage = match plan.via {
                Transport::Ssh { .. } => "ssh redeploy: ",
                Transport::Local => "local redeploy: ",
            };
            return Err(deploy_error(plan.node_id, stage, t.as_str()));
        },
    };
    let _ = ctx.registry.remove_server_for_node(plan.node_id);
    let entry = ServerEntry {
        id: decimal_text(plan.node_id),
        url: d.mgmt_url.clone(),
        node_id: Some(plan.node_id),
        rpc_url: Some(d.rpc_url.clone()),
        rest_port: Some(plan.request.rest_port),
        rpc_port: Some(plan.request.rpc_port),
        auto_start: plan.entry.auto_start,
        binary: clone_text(&plan.entry.binary),
        election_profile: clone_text(&plan.entry.election_profile),
        pid: Some(d.pid),
        service_type: plan.entry.service_type,
        rpc_workers: plan.entry.rpc_workers,
        no_fsync: plan.entry.no_fsync,
    };
    match add_recorded(ctx, entry) {
        Ok(_) => Ok(d),
        Err(e) => Err(e),
    }
}

/// A replica, and the group that it belongs to.
#[derive(Debug, Clone, Copy, PartialEq, Eq, Structural)]
pub struct HostedReplica {
    pub store_id: u64,
    pub group_id: u64,
    pub replica_id: u64,
    pub node_id: NodeId,
}

/// Refuses a node that hosts one of the replicas that the cluster's metadata
/// lists, unless there is no cluster. The first one is reported.
pub fn check_require_empty(ctx: &OpContext, node_id: NodeId, replicas: &Vec<HostedReplica>) -> (r:
    Result<(), Error>)
    ensures
        match lists::first_index(replicas@, |x: HostedReplica| x.node_id == node_id) {
            Some(i) if !ctx.test_scenario => r matches Err(e) && e.is_conflict(
                "server"@,
                "node "@ + text::decimal(node_id as nat) + " still hosts replica "@
                    + text::decimal(replicas@[i].replica_id as nat) + " in store "@
                    + text::decimal(replicas@[i].store_id as nat) + "/group "@ + text::decimal(
                    replicas@[i].group_id as nat,
                ),
            ),
            _ => r is Ok,
        },
{
    if ctx.is_test_scenario() {
        return Ok(());
    }
    let accepts = |x: &HostedReplica| -> (b: bool)
        ensures
            b == (x.node_id == node_id)
    { x.node_id == node_id };
    match lists::position(replicas, accepts, Ghost(|x: HostedReplica| x.node_id == node_id)) {
        Some(i) => {
            let x = replicas[i];
            let mut text = "node ".to_owned();
            text.append(decimal_text(node_id).as_str());
            text.append(" still hosts replica ");
            text.append(decimal_text(x.replica_id).as_str());
            text.append(" in store ");
            text.append(decimal_text(x.store_id).as_str());
            text.append("/group ");
            text.append(decimal_text(x.group_id).as_str());
            Err(Error::conflict("server", text))
        },
        None => Ok(()),
    }
}

/// A server that is to be deleted.
#[derive(Debug, PartialEq, Eq)]
pub struct DeletePlan {
    pub node: NodeEntry,
    /// The process to end first; that it cannot be ended does not matter.
    pub stop: Option<u32>,
    pub via_ssh: bool,
}

/// Decides on a server that is to be deleted. Refuses a node without server,
/// and one that still hosts a replica.
pub fn delete(ctx: &OpContext, node_id: NodeId, replicas: &Vec<HostedReplica>) -> (r: Result<
    DeletePlan,
    Error,
>)
    ensures
        match ctx.records().node_index(node_id) {
            None => r matches Err(e) && e.is_not_found("node"@, text::decimal(node_id as nat)),
            Some(i) => match ctx.records().kv_index(node_id) {
                None => r matches Err(e) && e.is_not_found(
                    "server"@,
                    text::decimal(node_id as nat),
                ),
                Some(j) => match lists::first_index(
                    replicas@,
                    |x: HostedReplica| x.node_id == node_id,
                ) {
                    Some(k) if !ctx.test_scenario => r matches Err(e) && e.is_conflict(
                        "server"@,
                        "node "@ + text::decimal(node_id as nat) + " still hosts replica "@
                            + text::decimal(replicas@[k].replica_id as nat) + " in store "@
                            + text::decimal(replicas@[k].store_id as nat) + "/group "@
                            + text::decimal(replicas@[k].group_id as nat),
                    ),
                    _ => r matches Ok(p) && p.node == ctx.records().nodes[i] && p.stop
                        == ctx.records().servers[j].pid && p.via_ssh == (p.node.ssh_user@.len()
                        > 0),
                },
            },
        },
{
    let (node, entry) = match node_and_server(ctx, node_id) {
        Ok(x) => x,
        Err(e) => {
            return Err(e);
        },
    };
    match check_require_empty(ctx, node_id, replicas) {
        Err(e) => Err(e),
        Ok(_) => {
            let via_ssh = node.ssh_enabled();
            Ok(DeletePlan { node, stop: entry.pid, via_ssh })
        },
    }
}

/// Records that a server was deleted: it is forgotten, and its node is taken
/// out of every store and group.
pub fn record_delete(ctx: &mut OpContext, node_id: NodeId)
    ensures
        final(ctx).same_setup(*old(ctx)),
        final(ctx).pending == old(ctx).pending,
        old(ctx).records().well_formed() ==> final(ctx).records().well_formed(),
        ({
            let base = without_server(old(ctx).records(), node_id);
            final(ctx).records() == (Registry {
                stores: base.stores.map_values(
                    |s: StoreRecord|
                        topology::store_without_node(s, node_id),
                ).filter(|s: StoreRecord| s.nodes.len() > 0),
                groups: base.groups.map_values(
                    |g: GroupRecord|
                        topology::group_without_node(g, node_id),
                ).filter(|g: GroupRecord| g.replicas.len() > 0),
                ..base
            })
        }),
{
    let _ = ctx.registry.remove_server_for_node(node_id);
    ctx.registry.purge_node_topology(node_id);
}

/// All servers.
pub fn list(ctx: &OpContext) -> (r: Vec<ServerEntry>)
    ensures
        r@ == ctx.records().servers,
{
    let r = ctx.registry.servers.clone();
    assert(r@ =~= ctx.registry.servers@);
    r
}

/// A request speaks of the node whose number its server id writes; one that
/// writes none speaks of node 0.
pub proof fn lemma_requested_node(n: u64, other: Seq<char>)
    ensures
        requested_node(text::decimal(n as nat)) == n,
        text::parsed_unsigned(other, u64::MAX as nat) is None ==> requested_node(other) == 0,
{
    text::lemma_decimal_parses(n as nat, u64::MAX as nat);
}

/// On another host the binary that was asked for goes before the one that the
/// environment names, and that before the usual name.
pub proof fn lemma_remote_binaries(a: Seq<char>, b: Option<Seq<char>>)
    ensures
        remote_bin(Some(a), b) == a,
        remote_bin(None, Some(a)) == a,
        remote_bin(None, None) == "crowdb-kv-server"@,
{
}

/// A node is reached by a remote shell just where it has a user for it.
pub proof fn lemma_reached(
    how: Transport,
    node: NodeEntry,
    asked: Option<Seq<char>>,
    named: Option<Seq<char>>,
    t: String,
)
    requires
        reaches(how, node, asked, named),
    ensures
        how is Ssh <==> node.ssh_user@.len() > 0,
        how is Local <==> node.ssh_user@.len() == 0,
        how is Ssh ==> how->server_bin@ == remote_bin(asked, named),
        text_view(Some(t)) == Some(t@),
        text_view(None) is None,
{
}

/// What is recorded of a deployed server: the node's number as its id, its
/// addresses and process as they came up, and the ports and settings that were
/// asked for.
pub proof fn lemma_deployed_entry(
    e: ServerEntry,
    req: DeployRequest,
    node_id: NodeId,
    d: DeployedServer,
)
    requires
        is_deployed_entry(e, req, node_id, d),
    ensures
        e.id@ == text::decimal(node_id as nat),
        e.url == d.mgmt_url,
        e.rpc_url == Some(d.rpc_url),
        e.pid == Some(d.pid),
        e.node_id == Some(node_id),
        e.rest_port == Some(req.rest_port),
        e.rpc_port == Some(req.rpc_port),
        e.auto_start,
        e.binary == req.binary,
        e.election_profile == req.election_profile,
        e.service_type is Kv,
        e.rpc_workers == req.rpc_workers,
        e.no_fsync == req.no_fsync,
{
}

/// The request that brings a recorded server up again asks for what was
/// recorded, and leaves everything else to the server.
pub proof fn lemma_restart_request(req: DeployRequest, node_id: NodeId, entry: ServerEntry)
    requires
        is_restart_request(req, node_id, entry),
    ensures
        req.server_id@ == text::decimal(node_id as nat),
        entry.rest_port == Some(req.rest_port),
        entry.rpc_port == Some(req.rpc_port),
        req.binary == entry.binary,
        req.election_profile == entry.election_profile,
        req.rpc_workers == entry.rpc_workers,
        req.no_fsync == entry.no_fsync,
        req.kv_backend is None && req.wal_backend is None && req.metrics_interval is None,
        req.max_inflight is None && req.coalesce_max_keys is None && req.peer_pool_size is None,
        req.enable_nagle is None && req.quickack is None && req.event_write is None,
        req.send_queue_capacity is None && req.config is None,
{
}

/// A server that was deployed is restarted with the ports and settings that it
/// was deployed with.
pub proof fn lemma_restarted_as_deployed(
    first: DeployRequest,
    node_id: NodeId,
    d: DeployedServer,
    e: ServerEntry,
    again: DeployRequest,
)
    requires
        is_deployed_entry(e, first, node_id, d),
        is_restart_request(again, node_id, e),
    ensures
        again.rest_port == first.rest_port,
        again.rpc_port == first.rpc_port,
        again.binary == first.binary,
        again.election_profile == first.election_profile,
        again.rpc_workers == first.rpc_workers,
        again.no_fsync == first.no_fsync,
{
}

/// A registry does not take a server whose id or address is taken, and says
/// which; the id goes first.
pub proof fn lemma_add_faults(r: Registry, id: Seq<char>, url: Seq<char>)
    ensures
        add_fault(r, id, url) is None <==> r.server_index(id) is None && r.url_index(url) is None,
        r.server_index(id) is Some ==> add_fault(r, id, url) == Some(
            "configuration error: server conflict: "@ + id,
        ),
        r.server_index(id) is None && r.url_index(url) is Some ==> add_fault(r, id, url) == Some(
            "configuration error: invalid url: url "@ + url + " already registered"@,
        ),
{
}

/// Taking out the key-value server of a node leaves everything else, and where
/// the node has none, everything.
pub proof fn lemma_without_server(r: Registry, node_id: NodeId)
    ensures
        r.kv_index(node_id) is None ==> without_server(r, node_id) == r,
        r.kv_index(node_id) matches Some(i) ==> without_server(r, node_id).servers
            == r.servers.remove(i),
        without_server(r, node_id).racks == r.racks,
        without_server(r, node_id).nodes == r.nodes,
        without_server(r, node_id).stores == r.stores,
        without_server(r, node_id).groups == r.groups,
        without_server(r, node_id).disk_groups == r.disk_groups,
        without_server(r, node_id).disks == r.disks,
{
}

} // verus!
