use std::collections::HashMap;

use crowdb::console::config::{
    ConsoleConfig, GroupEntry, NodeEntry, ReplicaEntry, ServerEntry, ServiceType,
};
use crowdb::console::error::Error;
use crowdb::console::lifecycle::{DeployedDiskdb, DeployedServer};
use crowdb::console::ops::cluster::bootstrap::{InitAction, InitFlow, InitReply, Wiring};
use crowdb::console::ops::cluster::chunkdb;
use crowdb::console::ops::cluster::chunkdb::RangeBinding;
use crowdb::console::ops::cluster::diskdb;
use crowdb::console::ops::cluster::diskdb::Provisioning;
use crowdb::console::ops::cluster::diskio;
use crowdb::console::ops::cluster::init;
use crowdb::console::ops::cluster::init::{
    GroupTopology, InitEvent, InitTarget, RemoteEndpoint, RemoteReplica, StoreTopology,
};
use crowdb::console::ops::cluster::kv;
use crowdb::console::ops::cluster::kv::{RackAssignment, ServerRollout, RACK_WRITES};
use crowdb::console::ops::cluster::rpc;
use crowdb::console::ops::cluster::rpc::RpcReady;
use crowdb::console::ops::cluster::teardown;
use crowdb::console::ops::cluster::teardown::{Teardown, TeardownAction, TeardownStep};
use crowdb::console::ops::cluster::{
    ClusterWrite, InitSummary, KvDeployTunables, LocalChunkdbDeployConfig, LocalDiskdbDeployConfig,
    RpcDeployConfig,
};
use crowdb::console::ops::context::OpContext;
use crowdb::console::ops::hardware::ReadDiskInput;
use crowdb::kv::registry::{disk_group_extra, register_value, InstanceValue};
use crowdb::protocol::DiskId;

fn ctx() -> OpContext {
    OpContext::new_for_test("127.0.0.1:59999".into(), Vec::new(), ConsoleConfig::default())
}

fn kv_entry(node: u64) -> ServerEntry {
    let mut e = ServerEntry::new(&node.to_string(), &format!("http://n{node}:1"));
    e.node_id = Some(node);
    e.rpc_url = Some(format!("http://n{node}:2"));
    e.pid = Some(1000 + node as u32);
    e
}

/// A rack with `n` nodes, and a key-value server on each.
fn cluster(n: u64) -> OpContext {
    let mut c = ctx();
    let ids: Vec<u64> = (1..=n).collect();
    kv::write_rack_and_nodes(&mut c, 1, &ids);
    for id in ids {
        c.config_mut().add_server(kv_entry(id)).unwrap();
    }
    c
}

fn text_of(e: Error) -> String {
    e.message()
}

fn diskdb_config() -> LocalDiskdbDeployConfig {
    LocalDiskdbDeployConfig {
        disk_groups_per_node: 1,
        disks_per_group: 2,
        capacity_bytes: 64 * 1024 * 1024,
        zone_size_bytes: 32 * 1024 * 1024,
        unit_size_bytes: 1024 * 1024,
        data_groups: vec![1, 2, 3],
        rpc_workers: Some(2),
        kv_connections: None,
        kv_client_rpc_workers: None,
    }
}

fn chunkdb_config(n: usize) -> LocalChunkdbDeployConfig {
    LocalChunkdbDeployConfig {
        instance_count: n,
        allow_unsafe_ec: true,
        rpc_workers: Some(1),
        kv_connections: Some(2),
        kv_client_rpc_workers: Some(3),
        diskdb_connections: Some(4),
        diskdb_client_rpc_workers: Some(5),
        metrics_interval: Some(6),
    }
}

#[test]
fn init_targets_each_node_once() {
    let t = init::init(&vec![3, 1, 3, 2, 1]).unwrap();
    let target = |node_id, replica_id| InitTarget { node_id, replica_id, start_election: false };
    assert_eq!(t, vec![target(3, 1), target(1, 2), target(2, 3)]);
    let alone = init::init(&vec![5, 5]).unwrap();
    assert_eq!(alone, vec![InitTarget { node_id: 5, replica_id: 1, start_election: true }]);
    assert_eq!(
        text_of(init::init(&vec![]).unwrap_err()),
        "invalid nodes: nodes list must not be empty"
    );
}

#[test]
fn init_that_was_done_before_counts() {
    let t = InitTarget { node_id: 4, replica_id: 2, start_election: false };
    let refused = |status: &str| {
        InitEvent::Refused(Error::UpstreamRpc { node_id: "u".into(), status: status.into() })
    };
    assert_eq!(init::init_outcome(t, InitEvent::Initialized), Ok((4, 2)));
    assert_eq!(init::init_outcome(t, refused("HTTP 409 Conflict")), Ok((4, 2)));
    match init::init_outcome(t, refused("HTTP 500")).unwrap_err() {
        Error::UpstreamRpc { node_id, status } => {
            assert_eq!(node_id, "4");
            assert_eq!(status, "system/init failed: upstream u failed: HTTP 500");
        }
        other => panic!("unexpected error {other:?}"),
    }
    assert_eq!(
        init::init_outcome(t, InitEvent::Unhealthy("refused".into())).unwrap_err(),
        Error::NodeUnreachable { node_id: "4".into(), reason: "refused".into() }
    );
    let e = Error::Config("bad".into());
    assert_eq!(init::init_outcome(t, InitEvent::NoClient(e.clone())), Err(e));
}

#[test]
fn init_results_keep_the_first_failure() {
    let a = Error::Config("a".into());
    let b = Error::Config("b".into());
    let c = init::collect_init(vec![Ok((1, 1)), Err(a.clone()), Ok((2, 2)), Err(b)]);
    assert_eq!(c.succeeded, vec![(1, 1), (2, 2)]);
    assert_eq!(c.failure, Some(a));
    assert_eq!(init::collect_init(vec![Ok((1, 1))]).failure, None);
}

#[test]
fn replicas_are_wired_to_all_peers() {
    let succeeded = vec![(1, 1), (2, 2), (3, 3)];
    let endpoints = vec![Some("a:1".to_string()), None, Some("c:3".to_string())];
    let remote = |replica_id, endpoint: &str| RemoteReplica {
        replica_id,
        endpoint: endpoint.into(),
        voting: true,
    };
    assert_eq!(init::remotes_of(&succeeded, &endpoints, 0), vec![remote(3, "c:3")]);
    assert_eq!(
        init::remotes_of(&succeeded, &endpoints, 1),
        vec![remote(1, "a:1"), remote(3, "c:3")]
    );
    assert_eq!(init::remotes_of(&succeeded, &endpoints, 2), vec![remote(1, "a:1")]);
}

#[test]
fn init_is_recorded_in_order() {
    let mut c = cluster(3);
    init::record_init(&mut c, &vec![(3, 1), (1, 2)]);
    assert_eq!(c.config().stores.len(), 1);
    assert_eq!(c.config().stores[0].store_id, 0);
    assert_eq!(c.config().stores[0].nodes, vec![1, 3]);
    assert_eq!(
        c.config().groups[0].replicas,
        vec![
            ReplicaEntry { replica_id: 1, node_id: 3 },
            ReplicaEntry { replica_id: 2, node_id: 1 },
        ]
    );
    assert_eq!(
        c.client.mgmt_seeds,
        Some(vec!["http://n3:1".to_string(), "http://n1:1".to_string()])
    );
}

fn led_store(leader: u64, local: u64, addr: Option<&str>, remotes: &[(u64, &str)]) -> StoreTopology {
    StoreTopology {
        store_id: 0,
        listen_addr: addr.map(|a| a.to_string()),
        groups: vec![GroupTopology {
            group_id: 0,
            leader_id: leader,
            local_replica_id: local,
            remotes: remotes
                .iter()
                .map(|(id, e)| RemoteEndpoint { id: *id, endpoint: e.to_string() })
                .collect(),
        }],
    }
}

#[test]
fn leaders_are_found_in_reports() {
    assert_eq!(init::callable_address("http://0.0.0.0:9"), "127.0.0.1:9");
    assert_eq!(init::callable_address("10.0.0.1:9"), "10.0.0.1:9");
    let here = vec![led_store(1, 1, Some("0.0.0.0:9"), &[])];
    assert_eq!(init::leader_endpoint(&here), Some("127.0.0.1:9".into()));
    assert_eq!(init::rpc_endpoint_for_store(&here, 0), Some("127.0.0.1:9".into()));
    assert_eq!(init::rpc_endpoint_for_store(&here, 1), None);
    assert!(init::hosts_leader(&here, 0, 0));
    let there = vec![led_store(2, 1, Some("a:1"), &[(3, "c:3"), (2, "http://b:2")])];
    assert_eq!(init::leader_endpoint(&there), Some("b:2".into()));
    assert!(!init::hosts_leader(&there, 0, 0));
    assert_eq!(init::leader_endpoint(&vec![led_store(0, 0, Some("a:1"), &[])]), None);
    assert_eq!(
        init::leader_after_init(true, &vec![None, Some("x:1".into())], None),
        Some("x:1".into())
    );
    assert_eq!(init::leader_after_init(false, &vec![], Some(&there)), Some("b:2".into()));
    assert_eq!(init::leader_after_init(false, &vec![Some("x:1".into())], None), None);
}

#[test]
fn topology_is_written_from_the_top() {
    let c = cluster(2);
    let ws = init::write_topology_to_sysdata(&c, &vec![1, 2], &vec![(1, 1), (7, 2)]);
    assert_eq!(
        ws,
        vec![
            ClusterWrite::AddRack { rack_id: 1 },
            ClusterWrite::AddNode { rack_id: 1, node_id: 1 },
            ClusterWrite::AddNode { rack_id: 1, node_id: 2 },
            ClusterWrite::AddStore { store_id: 0, node_ids: vec![1, 2] },
            ClusterWrite::AddGroup { store_id: 0, group_id: 0 },
            ClusterWrite::AddReplica {
                store_id: 0,
                group_id: 0,
                replica_id: 1,
                node_id: 1,
                endpoint: "http://n1:2".into(),
            },
            ClusterWrite::AddReplica {
                store_id: 0,
                group_id: 0,
                replica_id: 2,
                node_id: 7,
                endpoint: String::new(),
            },
        ]
    );
}

#[test]
fn a_teardown_reports_its_first_failure() {
    let failed = |text: &str| Err(Error::Io(text.to_string()));
    assert_eq!(teardown::first_failure(vec![]), Ok(()));
    assert_eq!(teardown::first_failure(vec![Ok(()), Ok(())]), Ok(()));
    assert_eq!(
        teardown::first_failure(vec![Ok(()), failed("first"), Ok(()), failed("second")]),
        failed("first")
    );
}

#[test]
fn a_teardown_goes_on_after_failures() {
    let mut c = cluster(2);
    init::record_init(&mut c, &vec![(1, 1), (2, 2)]);
    let failed = |text: &str| Err(Error::Io(text.to_string()));
    let (mut t, first) = Teardown::start(&c);
    assert_eq!(first, TeardownAction::Stop(1001));
    let answers = [
        (failed("stop"), TeardownAction::Stop(1002)),
        (Ok(vec![]), TeardownAction::Connect(1)),
        (Ok(vec![]), TeardownAction::ReadStores(1)),
        (Ok(vec![0, 3, 4]), TeardownAction::RemoveStore { node_id: 1, store_id: 3 }),
        (failed("store"), TeardownAction::RemoveStore { node_id: 1, store_id: 4 }),
        (Ok(vec![]), TeardownAction::RemoveGroup(1)),
        (failed("group"), TeardownAction::Connect(2)),
        (failed("client"), TeardownAction::ListStores),
        (Ok(vec![0, 3]), TeardownAction::ForgetStore(0)),
        (Ok(vec![]), TeardownAction::ForgetStore(3)),
    ];
    for (reply, action) in answers {
        assert_eq!(t.next(&mut c, reply), TeardownStep::Do(action));
        assert_eq!(c.config().servers.len(), 2);
    }
    assert_eq!(t.next(&mut c, Ok(vec![])), TeardownStep::Finished(Err(Error::Io("stop".into()))));
    assert!(c.config().servers.is_empty());
    assert!(c.config().stores.is_empty());
    assert!(c.config().groups.is_empty());
    assert_eq!(c.config().nodes.len(), 2);
}

#[test]
fn a_teardown_without_failures_succeeds() {
    let mut c = cluster(1);
    let (mut t, first) = Teardown::start(&c);
    assert_eq!(first, TeardownAction::Stop(1001));
    assert_eq!(t.next(&mut c, Ok(vec![])), TeardownStep::Do(TeardownAction::Connect(1)));
    assert_eq!(t.next(&mut c, Ok(vec![])), TeardownStep::Do(TeardownAction::ReadStores(1)));
    assert_eq!(t.next(&mut c, Ok(vec![])), TeardownStep::Do(TeardownAction::RemoveGroup(1)));
    assert_eq!(t.next(&mut c, Ok(vec![])), TeardownStep::Do(TeardownAction::ListStores));
    assert_eq!(t.next(&mut c, Ok(vec![])), TeardownStep::Finished(Ok(())));
}

#[test]
fn nodes_that_do_not_list_their_stores_still_lose_their_group() {
    let mut c = cluster(1);
    let (mut t, _) = Teardown::start(&c);
    t.next(&mut c, Ok(vec![]));
    t.next(&mut c, Ok(vec![]));
    let lost = Error::Io("lost".to_string());
    assert_eq!(
        t.next(&mut c, Err(lost.clone())),
        TeardownStep::Do(TeardownAction::RemoveGroup(1))
    );
    assert_eq!(t.next(&mut c, Ok(vec![])), TeardownStep::Do(TeardownAction::ListStores));
    assert_eq!(
        t.next(&mut c, Err(Error::Io("later".to_string()))),
        TeardownStep::Finished(Err(lost))
    );
}

#[test]
fn destroy_keeps_the_hardware() {
    let mut c = cluster(2);
    init::record_init(&mut c, &vec![(1, 1), (2, 2)]);
    assert_eq!(teardown::processes(&c), vec![1001, 1002]);
    assert_eq!(teardown::nodes_to_clear(&c), vec![1, 2]);
    assert_eq!(teardown::stores_to_remove(&vec![0, 3, 0, 4]), vec![3, 4]);
    teardown::destroy(&mut c);
    assert!(c.config().servers.is_empty());
    assert!(c.config().stores.is_empty());
    assert!(c.config().groups.is_empty());
    assert_eq!(c.config().nodes.len(), 2);
    assert_eq!(c.config().racks.len(), 1);
}

#[test]
fn orphans_have_no_living_node() {
    let c = cluster(2);
    assert_eq!(teardown::nodes_to_probe(&c, &vec![2, 9, 1]), vec![2, 1]);
    assert!(teardown::is_orphaned(&vec![]));
    assert!(teardown::is_orphaned(&vec![false, false]));
    assert!(!teardown::is_orphaned(&vec![false, true]));
}

#[test]
fn clean_goes_to_every_server_once() {
    let mut c = cluster(2);
    let mut other = ServerEntry::new("d", "http://d:1");
    other.service_type = ServiceType::Diskdb;
    c.config_mut().add_server(other).unwrap();
    assert_eq!(teardown::kv_server_urls(&c), vec!["http://n1:1", "http://n2:1"]);
    let mut urls = teardown::clean(&c).unwrap();
    urls.sort();
    assert_eq!(urls, vec!["http://n1:1", "http://n2:1"]);
    assert_eq!(text_of(teardown::clean(&ctx()).unwrap_err()), "invalid servers: no servers in config");
    let r = teardown::clean_result(&vec![true, false, true], Some("l:1".into()));
    assert_eq!((r.wiped_nodes, r.new_leader.as_str()), (2, "l:1"));
    assert_eq!(teardown::clean_result(&vec![], None).new_leader, "");
    assert_eq!(teardown::wait_for_election(5, 10).deadline, 15);
}

#[test]
fn local_deploy_needs_nodes_and_a_binary() {
    let p = kv::local_deploy(3, Some(("/bin/kv".into(), true))).unwrap();
    assert_eq!((p.binary.as_str(), p.rack_id), ("/bin/kv", 1));
    assert_eq!(p.node_ids, vec![1, 2, 3]);
    assert_eq!(
        text_of(kv::local_deploy(0, None).unwrap_err()),
        "invalid node_count: node_count must be >= 1"
    );
    assert_eq!(
        text_of(kv::local_deploy(1, None).unwrap_err()),
        "binary not found: crowdb-kv-server"
    );
    assert_eq!(
        text_of(kv::local_deploy(1, Some(("/bin/kv".into(), false))).unwrap_err()),
        "binary not found: /bin/kv"
    );
    let summary = InitSummary { store_id: 0, group_id: 0, nodes: vec![(1, 1)] };
    let s = kv::local_deploy_summary(p, summary.clone());
    assert_eq!((s.node_count, s.rack_id), (3, 1));
    assert_eq!(s.init_summary, summary);
}

#[test]
fn racks_and_nodes_are_written_once() {
    let mut c = ctx();
    kv::write_rack_and_nodes(&mut c, 2, &vec![1, 2, 1]);
    kv::write_rack_and_nodes(&mut c, 2, &vec![2, 3]);
    assert_eq!(c.config().racks.len(), 1);
    assert_eq!(c.config().racks[0].name, "rack-2");
    let ids: Vec<u64> = c.config().nodes.iter().map(|n| n.id).collect();
    assert_eq!(ids, vec![1, 2, 3]);
    assert!(c.config().nodes.iter().all(|n| n.host == "127.0.0.1" && n.rack_id == 2));
}

#[test]
fn nodes_with_a_server_are_passed_over() {
    let mut c = ctx();
    c.config_mut().add_server(kv_entry(1)).unwrap();
    assert_eq!(kv::next_without_server(&c, &vec![1, 2, 3], 0), Some(1));
    assert_eq!(kv::next_without_server(&c, &vec![1, 2, 3], 2), Some(2));
    assert_eq!(kv::next_without_server(&c, &vec![1, 2, 1], 2), None);
}

#[test]
fn cluster_servers_are_requested_and_recorded() {
    let t = KvDeployTunables {
        no_fsync: Some(true),
        rpc_workers: Some(4),
        kv_backend: Some("mem".into()),
        ..Default::default()
    };
    let req = kv::cluster_request(7, 100, 200, "/bin/kv", &t);
    assert_eq!((req.server_id.as_str(), req.rest_port, req.rpc_port), ("7", 100, 200));
    assert_eq!(req.binary, Some("/bin/kv".into()));
    assert_eq!(req.election_profile, Some("e2e".into()));
    assert_eq!(req.kv_backend, Some("mem".into()));
    assert_eq!(req.rpc_workers, Some(4));
    assert!(req.no_fsync);
    assert_eq!(kv::node_dir_names(1, 7), ("rack1".into(), "node7".into()));
    let mut c = ctx();
    let d = DeployedServer {
        server_id: "7".into(),
        mgmt_url: "http://h:100".into(),
        rpc_url: "http://h:200".into(),
        pid: 9,
    };
    kv::record_server(&mut c, 7, 100, 200, &d).unwrap();
    let e = &c.config().servers[0];
    assert_eq!((e.id.as_str(), e.url.as_str()), ("7", "http://h:100"));
    assert_eq!((e.node_id, e.pid, e.auto_start), (Some(7), Some(9), true));
    assert_eq!(e.service_type, ServiceType::Kv);
    assert_eq!(
        text_of(kv::record_server(&mut c, 7, 100, 200, &d).unwrap_err()),
        "server conflict: 7"
    );
    assert_eq!(
        text_of(kv::record_server(&mut c, 8, 100, 200, &d).unwrap_err()),
        "invalid url: url http://h:100 already registered"
    );
    kv::seed_first_server(&mut c);
    assert_eq!(c.client.group0_leader, Some("h:200".into()));
}

#[test]
fn port_requests_are_bounded() {
    assert_eq!(kv::port_count(6), 6);
    assert_eq!(kv::port_count(70_000), u16::MAX);
    assert_eq!(text_of(kv::port_error("none left".into())), "invalid port_alloc: none left");
}

#[test]
fn three_nodes_end_in_three_racks() {
    let mut c = ctx();
    kv::write_rack_and_nodes(&mut c, 1, &vec![1, 2, 3]);
    let mut a = RackAssignment::new();
    let mut writes = Vec::new();
    while let Some(w) = a.next(&mut c) {
        writes.push(w);
    }
    assert_eq!(writes.len(), RACK_WRITES as usize);
    assert_eq!(writes[4], ClusterWrite::RemoveNode { rack_id: 1, node_id: 2 });
    assert_eq!(writes[5], ClusterWrite::AddNode { rack_id: 2, node_id: 2 });
    for n in 1..=3 {
        assert_eq!(c.config().node(n).unwrap().rack_id, n);
        assert!(c.config().racks.iter().any(|r| r.id == n));
    }
    assert_eq!(kv::combined_group(2), 102);
    let s = kv::combined_summary(3, 1, 3);
    assert_eq!((s.kv_nodes, s.racks, s.diskdb_instances), (3, 3, 3));
}

#[test]
fn chunk_databases_go_to_the_first_nodes() {
    let mut c = ctx();
    kv::write_rack_and_nodes(&mut c, 1, &vec![3, 1, 2]);
    for n in 1..=3 {
        c.config_mut().add_server(kv_entry(n)).unwrap();
    }
    let p = chunkdb::local_deploy_chunkdb(&c, &chunkdb_config(2)).unwrap();
    let ids: Vec<u64> = p.nodes.iter().map(|n| n.id).collect();
    assert_eq!(ids, vec![1, 2]);
    assert_eq!(p.seeds, vec!["http://n1:1", "http://n2:1", "http://n3:1"]);
    assert_eq!(chunkdb::chunkdb_summary(&p).instance_count, 2);
    assert_eq!(
        text_of(chunkdb::local_deploy_chunkdb(&c, &chunkdb_config(4)).unwrap_err()),
        "invalid chunkdb_instances: need at least 4 configured nodes"
    );
    assert_eq!(
        text_of(chunkdb::local_deploy_chunkdb(&c, &chunkdb_config(0)).unwrap_err()),
        "invalid chunkdb_instances: need at least 0 configured nodes"
    );
    teardown::destroy(&mut c);
    assert_eq!(
        text_of(chunkdb::local_deploy_chunkdb(&c, &chunkdb_config(1)).unwrap_err()),
        "invalid kv_servers: deploy KV before ChunkDB"
    );
}

#[test]
fn chunk_databases_are_requested_and_recorded() {
    let req = chunkdb::chunkdb_request(&chunkdb_config(2), &vec!["s".into()], 1, 10, 11);
    assert_eq!(req.server_id, "chunkdb-20001");
    assert_eq!(chunkdb::chunkdb_server_id(1), "chunkdb-20001");
    assert_eq!((req.instance_id, req.http_port, req.rpc_port), (20_001, 10, 11));
    assert_eq!(req.kv_server_mgmt_seeds, vec!["s"]);
    assert_eq!(
        (req.rpc_workers, req.kv_connections, req.kv_client_rpc_workers),
        (Some(1), Some(2), Some(3))
    );
    assert_eq!(
        (req.diskdb_connections, req.diskdb_client_rpc_workers, req.metrics_interval),
        (Some(4), Some(5), Some(6))
    );
    let mut c = ctx();
    let d = DeployedDiskdb { server_id: "x".into(), endpoint: "http://h:11".into(), pid: 3 };
    chunkdb::record_chunkdb(&mut c, 2, &req, &d).unwrap();
    let e = &c.config().servers[0];
    assert_eq!(e.service_type, ServiceType::Chunkdb);
    assert_eq!((e.rest_port, e.rpc_port, e.node_id), (Some(10), Some(11), Some(2)));
}

#[test]
fn complete_bindings_cover_every_bucket() {
    let b = |instance_id, range_start, range_end| RangeBinding { instance_id, range_start, range_end };
    let all = vec![b(1, 0, 0x7fff), b(2, 0x8000, 0xbfff), b(1, 0xc000, 0xffff)];
    assert!(chunkdb::bindings_complete(&all, 2));
    assert!(!chunkdb::bindings_complete(&all, 3));
    for bucket in [0u16, 0x7fff, 0x8000, 0xffff] {
        assert!(all.iter().any(|x| x.range_start <= bucket && bucket <= x.range_end));
    }
    assert!(!chunkdb::bindings_complete(&vec![b(1, 0, 0xfffe)], 1));
    assert!(!chunkdb::bindings_complete(&vec![b(1, 1, 0xffff)], 1));
    assert!(!chunkdb::bindings_complete(&vec![b(1, 0, 10), b(2, 12, 0xffff)], 2));
    assert!(!chunkdb::bindings_complete(&vec![], 0));
    assert!(chunkdb::enough_instances(3, 3));
    assert!(!chunkdb::enough_instances(2, 3));
    assert_eq!(
        text_of(chunkdb::registration_error("diskdb", 3)),
        "upstream group0-service-registry failed: expected 3 living diskdb instances before timeout"
    );
    assert_eq!(
        text_of(chunkdb::bindings_error()),
        "upstream group0-chunkdb-bindings failed: complete chunkdb bucket ownership was not \
         published before timeout"
    );
}

#[test]
fn disk_databases_need_their_data_groups() {
    let mut c = cluster(1);
    assert_eq!(
        text_of(diskdb::validate_diskdb_deploy(&c, &diskdb_config()).unwrap_err()),
        "kv_group not found: 0:1"
    );
    for group_id in 1..=3 {
        c.config_mut().groups.push(GroupEntry { store_id: 0, group_id, replicas: vec![] });
    }
    let nodes = diskdb::validate_diskdb_deploy(&c, &diskdb_config()).unwrap();
    assert_eq!(nodes.len(), 1);
    let none = LocalDiskdbDeployConfig { disks_per_group: 0, ..diskdb_config() };
    assert_eq!(
        text_of(diskdb::validate_diskdb_deploy(&c, &none).unwrap_err()),
        "invalid diskdb_topology: disk groups, disks, and data groups must be non-empty"
    );
    assert_eq!(
        text_of(diskdb::validate_diskdb_deploy(&ctx(), &diskdb_config()).unwrap_err()),
        "invalid nodes: deploy the KV cluster before DiskDB"
    );
}

#[test]
fn disk_database_hardware_is_provisioned() {
    assert_eq!(
        diskdb::ensure_diskdb_hardware(1, 2, false, false),
        vec![
            ClusterWrite::AddRack { rack_id: 1 },
            ClusterWrite::AddNode { rack_id: 1, node_id: 2 },
        ]
    );
    assert!(diskdb::ensure_diskdb_hardware(1, 2, true, true).is_empty());
    assert_eq!(diskdb::lease_expiry(1_000), 3_601_000);
    assert_eq!(diskdb::lease_expiry(u64::MAX - 1), u64::MAX);
    assert_eq!(diskdb::disk_group_id(3, 1), 302);
    assert_eq!(diskdb::disk_group_name(302), "bench-dg-302");
    let disks = diskdb::bench_disks(302, &diskdb_config());
    assert_eq!(disks.len(), 2);
    assert_eq!(disks[1].disk_id, "000000000000012e0000000000000002");
    assert_eq!(disks[1].disk_type, "BLOCK_SSD");
    let (owner, bind) = diskdb::provision_writes(1, 3, 302, 4, 99, &diskdb_config());
    assert_eq!(
        owner,
        ClusterWrite::SetOwner {
            rack_id: 1,
            node_id: 3,
            dg_id: 302,
            instance_id: 10_003,
            lease_expiry_ms: 99,
        }
    );
    assert_eq!(
        bind,
        ClusterWrite::SetBind { rack_id: 1, node_id: 3, dg_id: 302, store_id: 0, group_id: 2 }
    );
    let read: Vec<ReadDiskInput> = disks
        .into_iter()
        .zip(1..)
        .map(|(input, n)| ReadDiskInput { input, id: Ok(DiskId::new(302, n)) })
        .collect();
    let mut c = cluster(3);
    c.test_scenario = false;
    assert_eq!(diskdb::provision_group(&mut c, 3, 302, &read).unwrap(), 2);
    assert_eq!(c.config().disk_groups[0].name, "bench-dg-302");
    assert_eq!(c.config().disks.len(), 2);
    assert_eq!(c.pending.len(), 3);
    assert_eq!(
        text_of(diskdb::provision_group(&mut c, 3, 302, &read).unwrap_err()),
        "disk_group conflict: 302"
    );
    assert_eq!(
        text_of(diskdb::provision_group(&mut c, 9, 902, &read).unwrap_err()),
        "node not found: 9"
    );
    let s = diskdb::diskdb_summary(1, 1, 2, &diskdb_config());
    assert_eq!((s.instance_count, s.disk_group_count, s.disk_count), (1, 1, 2));
    assert_eq!(s.data_groups, vec![1, 2, 3]);
}

#[test]
fn disk_databases_are_requested_and_recorded() {
    let req = diskdb::diskdb_request(&diskdb_config(), &vec!["s".into()], 3, 1, 2, 4);
    assert_eq!(req.server_id, "diskdb-3");
    assert_eq!(diskdb::diskdb_server_id(3), "diskdb-3");
    assert_eq!((req.instance_id, req.metrics_interval), (Some(10_003), Some(1)));
    assert_eq!((req.listen_port, req.http_port, req.rpc_port), (1, 2, 4));
    let mut c = ctx();
    let d = DeployedDiskdb { server_id: "x".into(), endpoint: "http://h:4".into(), pid: 3 };
    diskdb::record_diskdb(&mut c, 3, &req, &d).unwrap();
    assert_eq!(c.config().servers[0].service_type, ServiceType::Diskdb);
    assert_eq!(c.config().servers[0].url, "http://h:4");
}

fn owner(instance: u64, endpoint: &str, dgs: Vec<u64>) -> (u64, InstanceValue) {
    (instance, register_value(instance, endpoint, 1, disk_group_extra(dgs, vec![])))
}

#[test]
fn disk_servers_register_exactly_what_they_own() {
    let node = NodeEntry {
        id: 2,
        rack_id: 5,
        host: "h".into(),
        ssh_port: 22,
        ssh_user: String::new(),
        ssh_key: None,
        ssh_password: None,
    };
    let req = diskio::diskio_request(&node, 70, "l:1", Some(3));
    assert_eq!(req.server_id, "diskio-2");
    assert_eq!((req.instance_id, req.disk_group_id), (30_002, 201));
    assert_eq!((req.rack_id, req.node_id, req.rpc_port), (5, 2, 70));
    assert_eq!(req.kv_server_mgmt_seeds, vec!["l:1"]);
    let mut c = ctx();
    let mut expected = HashMap::new();
    let d = DeployedDiskdb { server_id: "x".into(), endpoint: "http://h:70".into(), pid: 3 };
    diskio::record_diskio(&mut c, &mut expected, &req, &d).unwrap();
    let e = &c.config().servers[0];
    assert_eq!((e.service_type, e.rest_port, e.rpc_port), (ServiceType::Diskio, None, Some(70)));
    assert!(diskio::diskio_registered(&vec![owner(30_002, "h:70", vec![201])], &expected));
    assert!(!diskio::diskio_registered(&vec![owner(30_002, "http://h:70", vec![201])], &expected));
    assert!(!diskio::diskio_registered(&vec![owner(30_002, "h:70", vec![201, 202])], &expected));
    assert!(!diskio::diskio_registered(&vec![owner(30_003, "h:70", vec![201])], &expected));
    assert!(!diskio::diskio_registered(&vec![], &expected));
    assert_eq!(
        text_of(diskio::diskio_registration_error(3)),
        "upstream group0-service-registry failed: expected 3 exact living DiskIO ownership \
         registrations before timeout"
    );
    assert_eq!(
        text_of(diskio::leader_unavailable()),
        "upstream group0 failed: leader unavailable before DiskIO deployment"
    );
}

#[test]
fn echo_servers_are_started_and_recorded() {
    let cfg = RpcDeployConfig::default();
    assert_eq!(
        rpc::local_deploy_rpc(&cfg, 80, "/logs"),
        vec![
            "--port=80",
            "--io_engines=1",
            "--io_workers=1",
            "--logdir=/logs",
            "--metrics_interval=2",
        ]
    );
    let nagle = RpcDeployConfig { enable_nagle: true, ..cfg };
    assert_eq!(rpc::local_deploy_rpc(&nagle, 80, "/logs")[5], "--enable_nagle");
    assert_eq!(rpc::rpc_binary(Some(("/bin/r".into(), true))).unwrap(), "/bin/r");
    assert_eq!(
        text_of(rpc::rpc_binary(None).unwrap_err()),
        "binary not found: crowdb-rpc-fb-server"
    );
    assert_eq!(rpc::wait_for_rpc_ready(1, 2, true), RpcReady::Connect);
    assert_eq!(rpc::wait_for_rpc_ready(2, 2, true), RpcReady::Failed);
    assert_eq!(rpc::wait_for_rpc_ready(1, 2, false), RpcReady::Failed);
    assert_eq!(
        text_of(rpc::rpc_not_ready(80)),
        "I/O error: crowdb-rpc-fb-server did not bind on port 80 within 10s"
    );
    let mut c = ctx();
    let s = rpc::record_rpc(&mut c, &nagle, 80, 44, "/bin/r").unwrap();
    assert_eq!((s.port, s.pid, s.nagle), (80, 44, true));
    let e = &c.config().servers[0];
    assert_eq!((e.id.as_str(), e.url.as_str()), ("rpc-fb-44", "http://127.0.0.1:80"));
    assert_eq!((e.auto_start, e.service_type), (false, ServiceType::Rpc));
    assert_eq!(e.binary, Some("/bin/r".into()));
}

#[test]
fn waits_of_the_cluster_have_their_times() {
    let second = 1_000_000_000;
    let p = chunkdb::wait_for_chunkdb_bindings(0);
    assert_eq!((p.deadline, p.interval), (35 * second, second / 10));
    let p = chunkdb::wait_for_chunkdb_registration(0);
    assert_eq!((p.deadline, p.interval), (30 * second, second / 20));
    let p = diskdb::wait_for_diskdb_registration(0);
    assert_eq!((p.deadline, p.interval), (30 * second, second / 20));
    let p = diskio::wait_for_diskio_registration(0);
    assert_eq!((p.deadline, p.interval), (30 * second, second / 5));
}

#[test]
fn metadata_group_comes_up_on_one_node() {
    let mut c = cluster(1);
    let (mut flow, targets) = InitFlow::start(&vec![1]).unwrap();
    assert_eq!(targets, vec![InitTarget { node_id: 1, replica_id: 1, start_election: true }]);
    let a = flow.next(&mut c, InitReply::Outcomes(vec![Ok((1, 1))]));
    assert_eq!(a, InitAction::FindEndpoints(vec![1]));
    assert_eq!(c.config().groups.len(), 1);
    let a = flow.next(&mut c, InitReply::Endpoints(vec![Some("a:1".into())]));
    assert_eq!(c.client.group0_leader, Some("a:1".into()));
    match a {
        InitAction::Write(ws) => assert_eq!(ws.len(), 5),
        other => panic!("unexpected action {other:?}"),
    }
    match flow.next(&mut c, InitReply::Done) {
        InitAction::Finished(s) => assert_eq!(s.nodes, vec![(1, 1)]),
        other => panic!("unexpected action {other:?}"),
    }
    assert!(InitFlow::start(&vec![]).is_err());
}

#[test]
fn metadata_group_is_wired_before_it_is_recorded() {
    let mut c = cluster(2);
    let (mut flow, targets) = InitFlow::start(&vec![1, 2]).unwrap();
    assert_eq!(targets.len(), 2);
    let a = flow.next(&mut c, InitReply::Outcomes(vec![Ok((1, 1)), Ok((2, 2))]));
    assert_eq!(a, InitAction::FindEndpoints(vec![1, 2]));
    let a = flow.next(&mut c, InitReply::Endpoints(vec![Some("a:1".into()), None]));
    let remote = RemoteReplica { replica_id: 1, endpoint: "a:1".into(), voting: true };
    assert_eq!(a, InitAction::Wire(vec![Wiring { node_id: 2, remotes: vec![remote] }]));
    assert!(c.config().groups.is_empty());
    let a = flow.next(&mut c, InitReply::Done);
    assert_eq!(
        a,
        InitAction::AwaitLeader(vec!["http://n1:1".to_string(), "http://n2:1".to_string()])
    );
    assert_eq!(c.config().groups.len(), 1);
    let hint = c.client.group0_leader.clone();
    let a = flow.next(&mut c, InitReply::Report(None));
    assert!(matches!(a, InitAction::Write(_)));
    assert_eq!(c.client.group0_leader, hint);
}

#[test]
fn metadata_group_is_rolled_back_on_failure() {
    let mut c = cluster(3);
    let before = c.clone();
    let (mut flow, _) = InitFlow::start(&vec![1, 2, 3]).unwrap();
    let e = Error::Config("down".into());
    let a = flow.next(&mut c, InitReply::Outcomes(vec![Ok((1, 1)), Err(e.clone()), Ok((3, 3))]));
    assert_eq!(a, InitAction::RollBack { node_ids: vec![1, 3], error: e });
    assert_eq!(c, before);
    let text = text_of(init::client_build_error("u", "bad URL"));
    assert_eq!(text, "upstream u failed: client build: bad URL");
}

#[test]
fn servers_are_rolled_out_where_there_is_none() {
    let mut c = ctx();
    c.config_mut().add_server(kv_entry(1)).unwrap();
    let mut rollout = ServerRollout {
        rack_id: 1,
        node_ids: vec![1, 2, 3],
        rest_ports: vec![10, 11, 12],
        rpc_ports: vec![20, 21, 22],
        done: 0,
    };
    let mut ports = Vec::new();
    while let Some(d) = rollout.next(&c, "/bin/kv", &KvDeployTunables::default()) {
        assert_eq!(d.request.server_id, d.node.id.to_string());
        ports.push((d.request.rest_port, d.request.rpc_port));
        let up = DeployedServer {
            server_id: d.request.server_id.clone(),
            mgmt_url: format!("http://127.0.0.1:{}", d.request.rest_port),
            rpc_url: format!("http://127.0.0.1:{}", d.request.rpc_port),
            pid: 9,
        };
        rollout.deployed(&mut c, &d, &up).unwrap();
    }
    assert_eq!(ports, vec![(11, 21), (12, 22)]);
    assert_eq!(rollout.done, 3);
    assert_eq!(c.config().servers.len(), 3);
}

#[test]
fn chunk_databases_are_recorded_up_to_the_first_failure() {
    let mut c = cluster(3);
    let config = chunkdb_config(3);
    let plan = chunkdb::local_deploy_chunkdb(&c, &config).unwrap();
    let reqs = chunkdb::chunkdb_requests(&plan, &config, &vec![1, 2, 3], &vec![4, 5, 6]);
    assert_eq!(reqs.len(), 3);
    assert_eq!((reqs[2].instance_id, reqs[2].http_port, reqs[2].rpc_port), (20_002, 3, 6));
    let up = |n: u32| DeployedDiskdb {
        server_id: "x".into(),
        endpoint: format!("http://h:{n}"),
        pid: n,
    };
    let e = Error::Config("spawn".into());
    let r = chunkdb::record_chunkdbs(
        &mut c,
        &plan.nodes,
        &reqs,
        vec![Ok(up(1)), Err(e.clone()), Ok(up(3))],
    );
    assert_eq!(r, Err(e));
    assert_eq!(c.config().servers.len(), 4);
    assert_eq!(c.config().servers[3].id, "chunkdb-20000");
    let r = chunkdb::record_chunkdbs(&mut c, &plan.nodes, &reqs, vec![Ok(up(7))]);
    assert_eq!(text_of(r.unwrap_err()), "server conflict: chunkdb-20000");
}

#[test]
fn disk_groups_are_provisioned_node_by_node() {
    let c = cluster(2);
    let cfg = LocalDiskdbDeployConfig { disk_groups_per_node: 2, ..diskdb_config() };
    let nodes = chunkdb::sorted_nodes(&c);
    let mut p = Provisioning::new();
    let mut made = Vec::new();
    while let Some(plan) = p.next(&nodes, &cfg) {
        let (_, bind) = p.writes(&plan, 5, &cfg);
        match bind {
            ClusterWrite::SetBind { dg_id, group_id, .. } => made.push((dg_id, group_id)),
            other => panic!("unexpected write {other:?}"),
        }
        p.made(&plan, &cfg);
    }
    assert_eq!(made, vec![(101, 1), (102, 2), (201, 3), (202, 1)]);
    assert_eq!((p.disk_groups, p.disks), (4, 8));
}
