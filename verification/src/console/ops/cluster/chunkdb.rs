//! The chunk databases of a local cluster.

use std::collections::HashSet;

use vstd::prelude::*;

use crate::console::config::{NodeEntry, NodeId, Registry, ServiceType};
use crate::console::error::Error;
use crate::console::lifecycle::wait::{Poll, MILLISECOND};
use crate::console::lifecycle::{ChunkdbDeployRequest, DeployedDiskdb};
use crate::console::ops::cluster::kv::record_instance;
#[allow(unused_imports)]
use crate::console::ops::cluster::kv;
use crate::console::ops::cluster::teardown::kv_server_urls;
#[allow(unused_imports)]
use crate::console::ops::cluster::teardown;
use crate::console::ops::cluster::{LocalChunkdbDeployConfig, LocalChunkdbDeploySummary};
use crate::console::ops::context::OpContext;
#[allow(unused_imports)]
use crate::lists;
#[allow(unused_imports)]
use crate::ordered;
#[allow(unused_imports)]
use crate::ordered::HasKey;
use crate::ordered::stable_sort;
#[allow(unused_imports)]
use crate::text;
use crate::text::decimal_text;

verus! {

broadcast use vstd::std_specs::hash::group_hash_axioms;

/// The nodes, by their ids.
pub fn sorted_nodes(ctx: &OpContext) -> (r: Vec<NodeEntry>)
    ensures
        ordered::is_stable_sort(ctx.records().nodes, r@),
        r@.len() == ctx.records().nodes.len(),
{
    let nodes = ctx.registry.nodes.clone();
    assert(nodes@ =~= ctx.registry.nodes@);
    let r = stable_sort(nodes);
    proof {
        ordered::lemma_stable_sort_len(ctx.records().nodes, r@);
    }
    r
}

/// Chunk databases that may be brought up: one on each of the nodes.
#[derive(Debug, PartialEq, Eq)]
pub struct ChunkdbPlan {
    pub nodes: Vec<NodeEntry>,
    /// Where the key-value servers are managed.
    pub seeds: Vec<String>,
}

/// The nodes by their ids, the first `n` of them.
pub open spec fn is_first_nodes(nodes: Seq<NodeEntry>, n: nat, out: Seq<NodeEntry>) -> bool {
    exists|all: Seq<NodeEntry>| #[trigger]
        ordered::is_stable_sort(nodes, all) && n <= all.len() && out == all.take(n as int)
}

/// Decides on chunk databases. Refuses none at all and more than there are
/// nodes, then a cluster without key-value servers.
pub fn local_deploy_chunkdb(ctx: &OpContext, config: &LocalChunkdbDeployConfig) -> (r: Result<
    ChunkdbPlan,
    Error,
>)
    ensures
        if config.instance_count == 0 || ctx.records().nodes.len() < config.instance_count {
            r matches Err(e) && e.is_validation(
                "chunkdb_instances"@,
                "need at least "@ + text::decimal(config.instance_count as nat)
                    + " configured nodes"@,
            )
        } else if teardown::kv_urls(ctx.records().servers).len() == 0 {
            r matches Err(e) && e.is_validation("kv_servers"@, "deploy KV before ChunkDB"@)
        } else {
            r matches Ok(p) && is_first_nodes(
                ctx.records().nodes,
                config.instance_count as nat,
                p.nodes@,
            ) && p.seeds@ == teardown::kv_urls(ctx.records().servers)
        },
{
    let n: usize = config.instance_count;
    let mut nodes = sorted_nodes(ctx);
    if n == 0 || nodes.len() < n {
        let mut text = "need at least ".to_owned();
        text.append(decimal_text(n as u64).as_str());
        text.append(" configured nodes");
        return Err(Error::validation("chunkdb_instances", text));
    }
    let seeds = kv_server_urls(ctx);
    if seeds.len() == 0 {
        return Err(Error::validation("kv_servers", "deploy KV before ChunkDB".to_owned()));
    }
    let ghost all = nodes@;
    nodes.truncate(n);
    assert(nodes@ =~= all.take(n as int));
    Ok(ChunkdbPlan { nodes, seeds })
}

/// The number of an instance.
pub open spec fn chunkdb_instance(index: int) -> int {
    20_000 + index
}

/// The name of an instance.
pub open spec fn chunkdb_name(index: int) -> Seq<char> {
    "chunkdb-"@ + text::decimal(chunkdb_instance(index) as nat)
}

pub fn chunkdb_server_id(index: usize) -> (s: String)
    requires
        chunkdb_instance(index as int) <= u64::MAX,
    ensures
        s@ == chunkdb_name(index as int),
{
    let mut s = "chunkdb-".to_owned();
    s.append(decimal_text(20_000 + index as u64).as_str());
    s
}

/// The request for the instance number `index`.
pub open spec fn is_chunkdb_request(
    req: ChunkdbDeployRequest,
    config: LocalChunkdbDeployConfig,
    seeds: Seq<String>,
    index: int,
    http_port: u16,
    rpc_port: u16,
) -> bool {
    &&& req.server_id@ == chunkdb_name(index)
    &&& req.instance_id == chunkdb_instance(index)
    &&& req.http_port == http_port
    &&& req.rpc_port == rpc_port
    &&& req.kv_server_mgmt_seeds@ == seeds
    &&& req.allow_unsafe_ec == config.allow_unsafe_ec
    &&& req.rpc_workers == config.rpc_workers
    &&& req.kv_connections == config.kv_connections
    &&& req.kv_client_rpc_workers == config.kv_client_rpc_workers
    &&& req.diskdb_connections == config.diskdb_connections
    &&& req.diskdb_client_rpc_workers == config.diskdb_client_rpc_workers
    &&& req.metrics_interval == config.metrics_interval
}

/// The request for the instance number `index`.
pub fn chunkdb_request(
    config: &LocalChunkdbDeployConfig,
    seeds: &Vec<String>,
    index: usize,
    http_port: u16,
    rpc_port: u16,
) -> (req: ChunkdbDeployRequest)
    requires
        chunkdb_instance(index as int) <= u64::MAX,
    ensures
        is_chunkdb_request(req, *config, seeds@, index as int, http_port, rpc_port),
{
    let copy = seeds.clone();
    assert(copy@ =~= seeds@);
    ChunkdbDeployRequest {
        server_id: chunkdb_server_id(index),
        instance_id: 20_000 + index as u64,
        http_port,
        rpc_port,
        kv_server_mgmt_seeds: copy,
        allow_unsafe_ec: config.allow_unsafe_ec,
        rpc_workers: config.rpc_workers,
        kv_connections: config.kv_connections,
        kv_client_rpc_workers: config.kv_client_rpc_workers,
        diskdb_connections: config.diskdb_connections,
        diskdb_client_rpc_workers: config.diskdb_client_rpc_workers,
        metrics_interval: config.metrics_interval,
    }
}

/// Records an instance that was brought up.
pub fn record_chunkdb(
    ctx: &mut OpContext,
    node_id: NodeId,
    req: &ChunkdbDeployRequest,
    d: &DeployedDiskdb,
) -> (r: Result<(), Error>)
    ensures
        final(ctx).same_setup(*old(ctx)),
        final(ctx).pending == old(ctx).pending,
        old(ctx).records().well_formed() ==> final(ctx).records().well_formed(),
        kv::server_added(
            old(ctx).records(),
            req.server_id@,
            d.endpoint@,
            final(ctx).records(),
            r,
        ),
        r is Ok ==> {
            let e = final(ctx).records().servers.last();
            &&& kv::is_service_entry(
                e,
                req.server_id@,
                d.endpoint@,
                d.endpoint@,
                Some(node_id),
                Some(req.http_port),
                req.rpc_port,
                d.pid,
                ServiceType::Chunkdb,
            )
            &&& e.auto_start
            &&& e.binary is None
        },
{
    record_instance(
        ctx,
        req.server_id.clone(),
        d.endpoint.as_str(),
        node_id,
        Some(req.http_port),
        req.rpc_port,
        d.pid,
        ServiceType::Chunkdb,
    )
}

/// The requests for all instances of a plan, one on each node.
pub fn chunkdb_requests(
    plan: &ChunkdbPlan,
    config: &LocalChunkdbDeployConfig,
    http_ports: &Vec<u16>,
    rpc_ports: &Vec<u16>,
) -> (reqs: Vec<ChunkdbDeployRequest>)
    requires
        plan.nodes@.len() <= http_ports@.len(),
        plan.nodes@.len() <= rpc_ports@.len(),
        chunkdb_instance(plan.nodes@.len() as int) <= u64::MAX,
    ensures
        reqs@.len() == plan.nodes@.len(),
        forall|i: int|
            0 <= i < reqs@.len() ==> is_chunkdb_request(
                #[trigger] reqs@[i],
                *config,
                plan.seeds@,
                i,
                http_ports@[i],
                rpc_ports@[i],
            ),
{
    let mut reqs: Vec<ChunkdbDeployRequest> = Vec::new();
    while reqs.len() < plan.nodes.len()
        invariant
            plan.nodes@.len() <= http_ports@.len(),
            plan.nodes@.len() <= rpc_ports@.len(),
            chunkdb_instance(plan.nodes@.len() as int) <= u64::MAX,
            reqs@.len() <= plan.nodes@.len(),
            forall|i: int|
                0 <= i < reqs@.len() ==> is_chunkdb_request(
                    #[trigger] reqs@[i],
                    *config,
                    plan.seeds@,
                    i,
                    http_ports@[i],
                    rpc_ports@[i],
                ),
        decreases plan.nodes@.len() - reqs@.len(),
    {
        let i: usize = reqs.len();
        reqs.push(chunkdb_request(config, &plan.seeds, i, http_ports[i], rpc_ports[i]));
    }
    reqs
}

/// One instance was recorded behind those before it.
pub open spec fn one_recorded(
    before: Registry,
    node_id: NodeId,
    req: ChunkdbDeployRequest,
    d: DeployedDiskdb,
    after: Registry,
) -> bool {
    &&& kv::server_added(before, req.server_id@, d.endpoint@, after, Ok(()))
    &&& kv::is_service_entry(
        after.servers.last(),
        req.server_id@,
        d.endpoint@,
        d.endpoint@,
        Some(node_id),
        Some(req.http_port),
        req.rpc_port,
        d.pid,
        ServiceType::Chunkdb,
    )
    &&& after.servers.last().auto_start
    &&& after.servers.last().binary is None
}

/// Instance number `k` took the registry from one state to the next.
pub open spec fn step_recorded(
    rs: Seq<Registry>,
    nodes: Seq<NodeEntry>,
    reqs: Seq<ChunkdbDeployRequest>,
    results: Seq<Result<DeployedDiskdb, Error>>,
    k: int,
) -> bool {
    results[k] matches Ok(d) && one_recorded(rs[k], nodes[k].id, reqs[k], d, rs[k + 1])
}

/// The registry went through the states `rs`, one instance after the other.
pub open spec fn recorded_in_order(
    rs: Seq<Registry>,
    nodes: Seq<NodeEntry>,
    reqs: Seq<ChunkdbDeployRequest>,
    results: Seq<Result<DeployedDiskdb, Error>>,
) -> bool {
    &&& 0 < rs.len() <= results.len() + 1
    &&& forall|k: int|
        0 <= k < rs.len() - 1 ==> #[trigger] step_recorded(rs, nodes, reqs, results, k)
}

/// How the recording of all instances ended, when it came as far as the last
/// of `rs`: at the end, or at the first one that was not brought up or could
/// not be recorded.
pub open spec fn recording_ended(
    rs: Seq<Registry>,
    reqs: Seq<ChunkdbDeployRequest>,
    results: Seq<Result<DeployedDiskdb, Error>>,
    r: Result<(), Error>,
) -> bool {
    let n = rs.len() - 1;
    match r {
        Ok(_) => n == results.len(),
        Err(e) => n < results.len() && match results[n] {
            Err(x) => e == x,
            Ok(d) => kv::server_added(
                rs.last(),
                reqs[n].server_id@,
                d.endpoint@,
                rs.last(),
                Err(e),
            ),
        },
    }
}

/// Records the instances that were brought up, in the order of their nodes.
/// The first one that was not, or that cannot be recorded, ends it.
pub fn record_chunkdbs(
    ctx: &mut OpContext,
    nodes: &Vec<NodeEntry>,
    reqs: &Vec<ChunkdbDeployRequest>,
    results: Vec<Result<DeployedDiskdb, Error>>,
) -> (r: Result<(), Error>)
    requires
        results@.len() <= nodes@.len(),
        results@.len() <= reqs@.len(),
    ensures
        final(ctx).same_setup(*old(ctx)),
        final(ctx).pending == old(ctx).pending,
        old(ctx).records().well_formed() ==> final(ctx).records().well_formed(),
        exists|rs: Seq<Registry>| #[trigger]
            recorded_in_order(rs, nodes@, reqs@, results@) && rs[0] == old(ctx).records()
                && rs.last() == final(ctx).records() && recording_ended(rs, reqs@, results@, r),
{
    let ghost all = results@;
    let ghost mut rs: Seq<Registry> = seq![ctx.records()];
    let n: usize = results.len();
    let mut i: usize = 0;
    for result in it: results
        invariant
            it.seq() == all,
            all == results@,
            i == it.index(),
            n == all.len(),
            all.len() <= nodes@.len(),
            all.len() <= reqs@.len(),
            rs.len() == i + 1,
            rs[0] == old(ctx).records(),
            rs.last() == ctx.records(),
            recorded_in_order(rs, nodes@, reqs@, all),
            ctx.same_setup(*old(ctx)),
            ctx.pending == old(ctx).pending,
            old(ctx).records().well_formed() ==> ctx.records().well_formed(),
    {
        let ghost before = ctx.records();
        match result {
            Ok(d) => {
                match record_chunkdb(ctx, nodes[i].id, &reqs[i], &d) {
                    Ok(_) => {
                        proof {
                            let next = rs.push(ctx.records());
                            assert forall|k: int| 0 <= k < next.len() - 1 implies #[trigger] step_recorded(
                                next,
                                nodes@,
                                reqs@,
                                all,
                                k,
                            ) by {
                                if k < rs.len() - 1 {
                                    assert(step_recorded(rs, nodes@, reqs@, all, k));
                                }
                            }
                            rs = next;
                        }
                    },
                    Err(e) => {
                        assert(recording_ended(rs, reqs@, all, Err(e)));
                        return Err(e);
                    },
                }
            },
            Err(e) => {
                assert(recording_ended(rs, reqs@, all, Err(e)));
                return Err(e);
            },
        }
        i = i + 1;
    }
    assert(recording_ended(rs, reqs@, all, Ok(())));
    Ok(())
}

/// A range of buckets, both ends included, and the instance that it belongs
/// to.
#[derive(Debug, Clone, Copy, PartialEq, Eq, Structural)]
pub struct RangeBinding {
    pub instance_id: u64,
    pub range_start: u16,
    pub range_end: u16,
}

/// The first bucket that the ranges, taken in order, do not reach without a
/// gap, when those up to `next` are reached.
pub open spec fn reached(bindings: Seq<RangeBinding>, next: int) -> int
    decreases bindings.len(),
{
    if bindings.len() == 0 || bindings[0].range_start != next {
        next
    } else {
        reached(bindings.drop_first(), bindings[0].range_end + 1)
    }
}

/// The instances that have a range.
pub open spec fn bound_instances(bindings: Seq<RangeBinding>) -> Set<u64> {
    bindings.map_values(|b: RangeBinding| b.instance_id).to_set()
}

/// The ranges reach all buckets, and the instances with a range are as many as
/// expected.
pub open spec fn is_complete(bindings: Seq<RangeBinding>, expected: nat) -> bool {
    reached(bindings, 0) == 0x1_0000 && bound_instances(bindings).len() == expected
}

/// A bucket of one of the ranges.
pub open spec fn in_range(bindings: Seq<RangeBinding>, bucket: int) -> bool {
    exists|i: int|
        0 <= i < bindings.len() && (#[trigger] bindings[i]).range_start <= bucket
            <= bindings[i].range_end
}

proof fn lemma_reached(bindings: Seq<RangeBinding>, next: int, bucket: int)
    requires
        next <= bucket < reached(bindings, next),
    ensures
        in_range(bindings, bucket),
    decreases bindings.len(),
{
    if bindings.len() > 0 && bindings[0].range_start == next {
        if bucket > bindings[0].range_end {
            let rest = bindings.drop_first();
            lemma_reached(rest, bindings[0].range_end + 1, bucket);
            let i = choose|i: int|
                0 <= i < rest.len() && (#[trigger] rest[i]).range_start <= bucket
                    <= rest[i].range_end;
            assert(bindings[i + 1] == rest[i]);
        }
    }
}

/// Where the ranges are complete, every bucket belongs to an instance.
pub proof fn lemma_complete_covers(bindings: Seq<RangeBinding>, expected: nat, bucket: u16)
    requires
        is_complete(bindings, expected),
    ensures
        in_range(bindings, bucket as int),
{
    lemma_reached(bindings, 0, bucket as int);
}

/// Whether the ranges are complete.
pub fn bindings_complete(bindings: &Vec<RangeBinding>, expected: usize) -> (r: bool)
    ensures
        r == is_complete(bindings@, expected as nat),
{
    let mut ids: HashSet<u64> = HashSet::new();
    let mut i: usize = 0;
    assert(bound_instances(bindings@.take(0)) =~= ids@);
    while i < bindings.len()
        invariant
            i <= bindings@.len(),
            ids@ == bound_instances(bindings@.take(i as int)),
        decreases bindings@.len() - i,
    {
        let ghost t = bindings@.take(i as int);
        let ghost before = ids@;
        let id: u64 = bindings[i].instance_id;
        ids.insert(id);
        proof {
            let f = |b: RangeBinding| b.instance_id;
            let now = bindings@.take(i + 1);
            assert(now.map_values(f) =~= t.map_values(f).push(id));
            t.map_values(f).lemma_push_to_set_commute(id);
            assert(ids@ =~= bound_instances(now));
        }
        i = i + 1;
    }
    assert(bindings@.take(i as int) =~= bindings@);
    let mut next: u32 = 0;
    let mut k: usize = 0;
    assert(bindings@.skip(0) =~= bindings@);
    while k < bindings.len() && bindings[k].range_start as u32 == next
        invariant
            k <= bindings@.len(),
            next <= 0x1_0000,
            reached(bindings@, 0) == reached(bindings@.skip(k as int), next as int),
        decreases bindings@.len() - k,
    {
        assert(bindings@.skip(k as int)[0] == bindings@[k as int]);
        assert(bindings@.skip(k as int).drop_first() =~= bindings@.skip(k + 1));
        next = bindings[k].range_end as u32 + 1;
        k = k + 1;
    }
    proof {
        let rest = bindings@.skip(k as int);
        if rest.len() > 0 {
            assert(rest[0] == bindings@[k as int]);
        }
    }
    next == 0x1_0000 && ids.len() == expected
}

/// The wait until the buckets are owned: at most 35 seconds, with a look every
/// tenth of a second.
pub fn wait_for_chunkdb_bindings(now: u64) -> (p: Poll)
    requires
        now + 35_000 * MILLISECOND <= u64::MAX,
    ensures
        p.deadline == now + 35_000 * MILLISECOND,
        p.interval == 100 * MILLISECOND,
{
    Poll::new(now, 35_000 * MILLISECOND, 100 * MILLISECOND)
}

/// The error of ranges that did not become complete.
pub fn bindings_error() -> (e: Error)
    ensures
        e.is_upstream(
            "group0-chunkdb-bindings"@,
            "complete chunkdb bucket ownership was not published before timeout"@,
        ),
{
    Error::upstream(
        "group0-chunkdb-bindings",
        "complete chunkdb bucket ownership was not published before timeout".to_owned(),
    )
}

/// The wait until the databases are registered: at most half a minute, with a
/// look every 50 milliseconds.
pub fn wait_for_chunkdb_registration(now: u64) -> (p: Poll)
    requires
        now + 30_000 * MILLISECOND <= u64::MAX,
    ensures
        p.deadline == now + 30_000 * MILLISECOND,
        p.interval == 50 * MILLISECOND,
{
    Poll::new(now, 30_000 * MILLISECOND, 50 * MILLISECOND)
}

/// Whether as many instances of a service live as expected, or more.
pub fn enough_instances(living: usize, expected: usize) -> (r: bool)
    ensures
        r == (living >= expected),
{
    living >= expected
}

/// The error of a service whose instances did not all come up.
pub fn registration_error(service: &str, expected: usize) -> (e: Error)
    ensures
        e.is_upstream(
            "group0-service-registry"@,
            "expected "@ + text::decimal(expected as nat) + " living "@ + service@
                + " instances before timeout"@,
        ),
{
    let mut s = "expected ".to_owned();
    s.append(decimal_text(expected as u64).as_str());
    s.append(" living ");
    s.append(service);
    s.append(" instances before timeout");
    Error::upstream("group0-service-registry", s)
}

/// What bringing up chunk databases came to.
pub fn chunkdb_summary(plan: &ChunkdbPlan) -> (s: LocalChunkdbDeploySummary)
    ensures
        s.instance_count == plan.nodes@.len(),
{
    LocalChunkdbDeploySummary { instance_count: plan.nodes.len() }
}

/// The first nodes are those with the smallest ids, in order.
pub proof fn lemma_first_nodes(nodes: Seq<NodeEntry>, n: nat, out: Seq<NodeEntry>, i: int, j: int)
    requires
        is_first_nodes(nodes, n, out),
        0 <= i < n,
        0 <= j < nodes.len(),
    ensures
        out.len() == n,
        nodes.contains(out[i]),
        i + 1 < n ==> out[i].id <= out[i + 1].id,
        out.contains(nodes[j]) || out[i].id <= nodes[j].id,
{
    let all = choose|all: Seq<NodeEntry>| #[trigger]
        ordered::is_stable_sort(nodes, all) && n <= all.len() && out == all.take(n as int);
    ordered::lemma_stable_sort_entries(nodes, all);
    assert(out[i] == all[i]);
    assert(all.contains(all[i]));
    if i + 1 < n {
        ordered::lemma_single_key_order(all[i + 1].id as int, all[i].id as int);
        assert(!text::lex_less(all[i + 1].key(), all[i].key()));
    }
    assert(nodes.contains(nodes[j]));
    assert(all.contains(nodes[j]));
    let k = choose|k: int| 0 <= k < all.len() && all[k] == nodes[j];
    if k < n {
        assert(out[k] == nodes[j]);
    } else {
        ordered::lemma_single_key_order(all[k].id as int, all[i].id as int);
        assert(!text::lex_less(all[k].key(), all[i].key()));
    }
}

/// The instances are numbered from 20000 on and named by their number.
pub proof fn lemma_chunkdb_names(index: int)
    requires
        index >= 0,
    ensures
        chunkdb_instance(index) == 20_000 + index,
        chunkdb_name(index) == "chunkdb-"@ + text::decimal((20_000 + index) as nat),
{
}

/// A request for an instance carries its name, number and ports and every
/// setting in its own field.
pub proof fn lemma_chunkdb_request_fields(
    req: ChunkdbDeployRequest,
    config: LocalChunkdbDeployConfig,
    seeds: Seq<String>,
    index: int,
    http_port: u16,
    rpc_port: u16,
)
    requires
        is_chunkdb_request(req, config, seeds, index, http_port, rpc_port),
        index >= 0,
    ensures
        req.server_id@ == "chunkdb-"@ + text::decimal((20_000 + index) as nat),
        req.instance_id == 20_000 + index,
        req.http_port == http_port,
        req.rpc_port == rpc_port,
        req.kv_server_mgmt_seeds@ == seeds,
        req.allow_unsafe_ec == config.allow_unsafe_ec,
        req.rpc_workers == config.rpc_workers,
        req.kv_connections == config.kv_connections,
        req.kv_client_rpc_workers == config.kv_client_rpc_workers,
        req.diskdb_connections == config.diskdb_connections,
        req.diskdb_client_rpc_workers == config.diskdb_client_rpc_workers,
        req.metrics_interval == config.metrics_interval,
{
}

/// An instance that was recorded is a chunk database on its node, at its
/// endpoint and ports, started with the cluster.
pub proof fn lemma_chunkdb_recorded(
    before: Registry,
    node_id: NodeId,
    req: ChunkdbDeployRequest,
    d: DeployedDiskdb,
    after: Registry,
)
    requires
        one_recorded(before, node_id, req, d, after),
    ensures
        after.servers.len() == before.servers.len() + 1,
        after.servers.drop_last() == before.servers,
        ({
            let e = after.servers.last();
            &&& e.id@ == req.server_id@
            &&& e.url@ == d.endpoint@
            &&& e.rpc_url is Some && e.rpc_url->0@ == d.endpoint@
            &&& e.node_id == Some(node_id)
            &&& e.rest_port == Some(req.http_port)
            &&& e.rpc_port == Some(req.rpc_port)
            &&& e.pid == Some(d.pid)
            &&& e.service_type is Chunkdb
            &&& e.auto_start
            &&& e.binary is None
        }),
{
    assert(after.servers.drop_last() =~= before.servers);
}

/// Instances are recorded one after the other, each that came up, until one did
/// not or could not be recorded; its failure is the error.
pub proof fn lemma_recording_ends(
    rs: Seq<Registry>,
    nodes: Seq<NodeEntry>,
    reqs: Seq<ChunkdbDeployRequest>,
    results: Seq<Result<DeployedDiskdb, Error>>,
    r: Result<(), Error>,
    k: int,
)
    requires
        recorded_in_order(rs, nodes, reqs, results),
        recording_ended(rs, reqs, results, r),
    ensures
        0 <= k < rs.len() - 1 ==> results[k] is Ok && one_recorded(
            rs[k],
            nodes[k].id,
            reqs[k],
            results[k]->Ok_0,
            rs[k + 1],
        ),
        1 <= rs.len() <= results.len() + 1,
        r is Ok <==> rs.len() == results.len() + 1,
        r matches Err(e) ==> match results[rs.len() - 1] {
            Err(x) => e == x,
            Ok(d) => rs.last().server_index(reqs[rs.len() - 1].server_id@) is Some
                || rs.last().url_index(d.endpoint@) is Some,
        },
{
    if 0 <= k < rs.len() - 1 {
        assert(step_recorded(rs, nodes, reqs, results, k));
    }
}

/// Ranges are followed as long as each starts where the one before ended.
pub proof fn lemma_reached_without_gap(b: RangeBinding, rest: Seq<RangeBinding>, next: int)
    ensures
        reached(Seq::empty(), next) == next,
        b.range_start == next ==> reached(seq![b] + rest, next) == reached(rest, b.range_end + 1),
        b.range_start != next ==> reached(seq![b] + rest, next) == next,
{
    let all = seq![b] + rest;
    assert(all[0] == b);
    assert(all.drop_first() =~= rest);
}

/// Ranges are complete just where they reach all 65536 buckets and as many
/// instances as expected have one.
pub proof fn lemma_complete(bindings: Seq<RangeBinding>, expected: nat, id: u64, bucket: int)
    ensures
        is_complete(bindings, expected) <==> reached(bindings, 0) == 65_536 && bound_instances(
            bindings,
        ).len() == expected,
        bound_instances(bindings).contains(id) <==> exists|i: int|
            0 <= i < bindings.len() && (#[trigger] bindings[i]).instance_id == id,
        in_range(bindings, bucket) <==> exists|i: int|
            0 <= i < bindings.len() && (#[trigger] bindings[i]).range_start <= bucket
                <= bindings[i].range_end,
{
    let ids = bindings.map_values(|b: RangeBinding| b.instance_id);
    if bound_instances(bindings).contains(id) {
        assert(ids.contains(id));
        let k = choose|k: int| 0 <= k < ids.len() && ids[k] == id;
        assert(bindings[k].instance_id == id);
    }
    if exists|i: int| 0 <= i < bindings.len() && (#[trigger] bindings[i]).instance_id == id {
        let k = choose|i: int|
            0 <= i < bindings.len() && (#[trigger] bindings[i]).instance_id == id;
        assert(ids[k] == id);
        assert(ids.contains(id));
    }
}

} // verus!
