//! The disk services of a local cluster.

use std::collections::HashMap;

use vstd::prelude::*;

use crate::console::config::{NodeEntry, ServiceType};
use crate::console::error::Error;
use crate::console::lifecycle::wait::{Poll, MILLISECOND};
use crate::console::lifecycle::{DeployedDiskdb, DiskioDeployRequest};
use crate::console::ops::cluster::kv::record_instance;
#[allow(unused_imports)]
use crate::console::ops::cluster::kv;
use crate::console::ops::context::OpContext;
use crate::kv::registry::InstanceValue;
#[allow(unused_imports)]
use crate::text;
use crate::text::{decimal_text, strip_prefix};

verus! {

broadcast use vstd::std_specs::hash::group_hash_axioms;

/// The number of a node's disk service.
pub open spec fn diskio_instance(node_id: u64) -> int {
    30_000 + node_id
}

/// The disk group that a node's disk service owns: the node's first.
pub open spec fn diskio_group(node_id: u64) -> int {
    node_id * 100 + 1
}

/// The error of a cluster without leader.
pub fn leader_unavailable() -> (e: Error)
    ensures
        e.is_upstream("group0"@, "leader unavailable before DiskIO deployment"@),
{
    Error::upstream("group0", "leader unavailable before DiskIO deployment".to_owned())
}

/// The request for a node's disk service.
pub fn diskio_request(
    node: &NodeEntry,
    rpc_port: u16,
    leader_seed: &str,
    metrics_interval: Option<u64>,
) -> (req: DiskioDeployRequest)
    requires
        diskio_instance(node.id) <= u64::MAX,
        diskio_group(node.id) <= u64::MAX,
    ensures
        req.server_id@ == "diskio-"@ + text::decimal(node.id as nat),
        req.instance_id == diskio_instance(node.id),
        req.rpc_port == rpc_port,
        req.rack_id == node.rack_id,
        req.node_id == node.id,
        req.disk_group_id == diskio_group(node.id),
        req.kv_server_mgmt_seeds@.len() == 1,
        req.kv_server_mgmt_seeds@[0]@ == leader_seed@,
        req.metrics_interval == metrics_interval,
{
    let mut server_id = "diskio-".to_owned();
    server_id.append(decimal_text(node.id).as_str());
    let mut seeds: Vec<String> = Vec::new();
    seeds.push(leader_seed.to_owned());
    DiskioDeployRequest {
        server_id,
        instance_id: 30_000 + node.id,
        rpc_port,
        rack_id: node.rack_id,
        node_id: node.id,
        disk_group_id: node.id * 100 + 1,
        kv_server_mgmt_seeds: seeds,
        metrics_interval,
    }
}

/// Where a disk service is expected, and the disk group that it owns.
#[derive(Debug, Clone, PartialEq, Eq)]
pub struct ExpectedOwner {
    pub endpoint: String,
    pub dg_id: u64,
}

/// Records a disk service that was brought up, and expects it to register.
pub fn record_diskio(
    ctx: &mut OpContext,
    expected: &mut HashMap<u64, ExpectedOwner>,
    req: &DiskioDeployRequest,
    d: &DeployedDiskdb,
) -> (r: Result<(), Error>)
    ensures
        final(ctx).same_setup(*old(ctx)),
        final(ctx).pending == old(ctx).pending,
        old(ctx).records().well_formed() ==> final(ctx).records().well_formed(),
        kv::server_added(
            old(ctx).records(),
            req.server_id@,
            d.endpoint@,
            final(ctx).records(),
            r,
        ),
        r is Ok ==> {
            let e = final(ctx).records().servers.last();
            &&& kv::is_service_entry(
                e,
                req.server_id@,
                d.endpoint@,
                d.endpoint@,
                Some(req.node_id),
                None,
                req.rpc_port,
                d.pid,
                ServiceType::Diskio,
            )
            &&& e.auto_start
            &&& e.binary is None
        },
        final(expected)@ == old(expected)@.insert(
            req.instance_id,
            ExpectedOwner { endpoint: d.endpoint, dg_id: req.disk_group_id },
        ),
{
    expected.insert(
        req.instance_id,
        ExpectedOwner { endpoint: d.endpoint.clone(), dg_id: req.disk_group_id },
    );
    record_instance(
        ctx,
        req.server_id.clone(),
        d.endpoint.as_str(),
        req.node_id,
        None,
        req.rpc_port,
        d.pid,
        ServiceType::Diskio,
    )
}

/// An endpoint without the scheme `http`.
pub open spec fn plain(e: Seq<char>) -> Seq<char> {
    if "http://"@.is_prefix_of(e) {
        e.skip("http://"@.len() as int)
    } else {
        e
    }
}

/// The record of an instance that is expected: at its endpoint, and the owner
/// of its disk group alone.
pub open spec fn as_expected(v: InstanceValue, expected: Map<u64, ExpectedOwner>) -> bool {
    &&& expected.contains_key(v.instance_id)
    &&& v.rpc_endpoint@ == plain(expected[v.instance_id].endpoint@)
    &&& v.extra matches Some(x) && x.diskdb matches Some(d) && d.owned_dg_ids@ == seq![
        expected[v.instance_id].dg_id,
    ]
}

/// All that is expected has registered, and nothing else: as many records as
/// expected, each of them in order.
pub open spec fn all_registered(
    instances: Seq<(u64, InstanceValue)>,
    expected: Map<u64, ExpectedOwner>,
) -> bool {
    &&& instances.len() == expected.len()
    &&& forall|i: int|
        0 <= i < instances.len() ==> as_expected((#[trigger] instances[i]).1, expected)
}

fn is_expected(v: &InstanceValue, expected: &HashMap<u64, ExpectedOwner>) -> (r: bool)
    ensures
        r == as_expected(*v, expected@),
{
    match expected.get(&v.instance_id) {
        None => false,
        Some(owner) => {
            let endpoint = match strip_prefix(owner.endpoint.as_str(), "http://") {
                Some(t) => t,
                None => owner.endpoint.clone(),
            };
            if v.rpc_endpoint != endpoint {
                return false;
            }
            match &v.extra {
                Some(x) => match &x.diskdb {
                    Some(d) => {
                        let same = d.owned_dg_ids.len() == 1 && d.owned_dg_ids[0] == owner.dg_id;
                        assert(same ==> d.owned_dg_ids@ =~= seq![owner.dg_id]);
                        assert(!same ==> d.owned_dg_ids@ != seq![owner.dg_id]) by {
                            if d.owned_dg_ids@ == seq![owner.dg_id] {
                                assert(d.owned_dg_ids@[0] == owner.dg_id);
                            }
                        }
                        same
                    },
                    None => false,
                },
                None => false,
            }
        },
    }
}

/// Whether all disk services that are expected have registered.
pub fn diskio_registered(
    instances: &Vec<(u64, InstanceValue)>,
    expected: &HashMap<u64, ExpectedOwner>,
) -> (r: bool)
    ensures
        r == all_registered(instances@, expected@),
{
    if instances.len() != expected.len() {
        return false;
    }
    let mut i: usize = 0;
    while i < instances.len()
        invariant
            i <= instances@.len(),
            instances@.len() == expected@.len(),
            forall|j: int|
                0 <= j < i ==> as_expected((#[trigger] instances@[j]).1, expected@),
        decreases instances@.len() - i,
    {
        if !is_expected(&instances[i].1, expected) {
            assert(!as_expected(instances@[i as int].1, expected@));
            return false;
        }
        i = i + 1;
    }
    true
}

/// The wait until the services are registered: at most half a minute, with a
/// look every fifth of a second.
pub fn wait_for_diskio_registration(now: u64) -> (p: Poll)
    requires
        now + 30_000 * MILLISECOND <= u64::MAX,
    ensures
        p.deadline == now + 30_000 * MILLISECOND,
        p.interval == 200 * MILLISECOND,
{
    Poll::new(now, 30_000 * MILLISECOND, 200 * MILLISECOND)
}

/// The error of disk services that did not all register.
pub fn diskio_registration_error(expected: usize) -> (e: Error)
    ensures
        e.is_upstream(
            "group0-service-registry"@,
            "expected "@ + text::decimal(expected as nat)
                + " exact living DiskIO ownership registrations before timeout"@,
        ),
{
    let mut s = "expected ".to_owned();
    s.append(decimal_text(expected as u64).as_str());
    s.append(" exact living DiskIO ownership registrations before timeout");
    Error::upstream("group0-service-registry", s)
}

/// A node's disk service is numbered from 30000 on and owns the node's first
/// disk group.
pub proof fn lemma_diskio_numbers(node_id: u64)
    ensures
        diskio_instance(node_id) == 30_000 + node_id,
        diskio_group(node_id) == 100 * node_id + 1,
{
}

/// An endpoint loses `http://` at its start and nothing else.
pub proof fn lemma_plain_endpoints(e: Seq<char>)
    ensures
        plain("http://"@ + e) == e,
        !("http://"@.is_prefix_of(e)) ==> plain(e) == e,
{
    let s = "http://"@ + e;
    let n = "http://"@.len() as int;
    assert(s.subrange(0, n) =~= "http://"@);
    assert(s.skip(n) =~= e);
}

/// A record is as expected just where its instance is expected, at that
/// endpoint, and owns that one disk group.
pub proof fn lemma_expected_record(v: InstanceValue, expected: Map<u64, ExpectedOwner>)
    requires
        as_expected(v, expected),
    ensures
        expected.contains_key(v.instance_id),
        v.rpc_endpoint@ == plain(expected[v.instance_id].endpoint@),
        v.extra is Some && v.extra->0.diskdb is Some,
        ({
            let owned = v.extra->0.diskdb->0.owned_dg_ids@;
            owned.len() == 1 && owned[0] == expected[v.instance_id].dg_id
        }),
{
}

/// All have registered just where there are as many records as expected and each
/// of them is as expected.
pub proof fn lemma_all_registered(
    instances: Seq<(u64, InstanceValue)>,
    expected: Map<u64, ExpectedOwner>,
    i: int,
)
    requires
        all_registered(instances, expected),
    ensures
        instances.len() == expected.len(),
        0 <= i < instances.len() ==> as_expected(instances[i].1, expected),
{
}

/// A record at another endpoint, of an instance that is not expected, or with
/// other disk groups keeps the registration from being complete.
pub proof fn lemma_unexpected_record(
    instances: Seq<(u64, InstanceValue)>,
    expected: Map<u64, ExpectedOwner>,
    i: int,
)
    requires
        0 <= i < instances.len(),
        ({
            let v = instances[i].1;
            ||| !expected.contains_key(v.instance_id)
            ||| v.rpc_endpoint@ != plain(expected[v.instance_id].endpoint@)
            ||| v.extra is None
            ||| v.extra->0.diskdb is None
            ||| v.extra->0.diskdb->0.owned_dg_ids@ != seq![expected[v.instance_id].dg_id]
        }),
    ensures
        !all_registered(instances, expected),
{
    if all_registered(instances, expected) {
        assert(as_expected(instances[i].1, expected));
    }
}

} // verus!
