use crowdb::console::config::{
    ConsoleConfig, DiskGroupEntry, NodeEntry, RackEntry, ServerEntry, ServiceType,
};
use crowdb::console::error::Error;
use crowdb::console::lifecycle::{DeployRequest, DeployedServer};
use crowdb::console::ops::context::{OpContext, SysdataUpdate};
use crowdb::console::ops::hardware;
use crowdb::console::ops::hardware::{AddDiskInput, ReadDiskInput};
use crowdb::console::ops::kv_server;
use crowdb::console::ops::kv_server::{HostedReplica, Transport};
use crowdb::diskdb::responses::{DiskType, HwStatus};
use crowdb::protocol::DiskId;

fn ctx() -> OpContext {
    test_ctx(ConsoleConfig::default())
}

fn test_ctx(config: ConsoleConfig) -> OpContext {
    OpContext::new_for_test("127.0.0.1:59999".into(), Vec::new(), config)
}

fn node_10() -> NodeEntry {
    NodeEntry {
        id: 10,
        rack_id: 1,
        host: "127.0.0.1".into(),
        ssh_port: 22,
        ssh_user: String::new(),
        ssh_key: None,
        ssh_password: None,
    }
}

fn config_with_rack_node_dg() -> ConsoleConfig {
    let mut config = ConsoleConfig::default();
    config.add_rack(RackEntry { id: 1, name: "r1".into() }).unwrap();
    config.add_node(node_10()).unwrap();
    config
        .add_disk_group(DiskGroupEntry { id: 100, rack_id: 1, node_id: 10, name: "dg1".into() })
        .unwrap();
    config
}

fn input(id: &str) -> AddDiskInput {
    AddDiskInput {
        disk_id: id.to_string(),
        disk_type: "Hdd".into(),
        capacity_bytes: 4 * 1024 * 1024 * 1024,
        zone_size_bytes: 32 * 1024 * 1024,
        unit_size_bytes: 1024 * 1024,
        device_path: String::new(),
    }
}

fn valid_disk_input(id: &str) -> ReadDiskInput {
    let low = id.trim_start_matches('0').parse().unwrap();
    ReadDiskInput { input: input(id), id: Ok(DiskId::new(0, low)) }
}

const ONE: &str = "00000000000000000000000000000001";
const TWO: &str = "00000000000000000000000000000002";

#[test]
fn op_context_test_scenario_flag_is_explicit() {
    let production = OpContext::new("127.0.0.1:10100".into(), vec![], ConsoleConfig::default());
    let test = OpContext::new_for_test("127.0.0.1:59999".into(), vec![], ConsoleConfig::default());
    assert!(!production.is_test_scenario());
    assert!(test.is_test_scenario());
}

#[test]
fn op_context_config_rw_lock_roundtrip() {
    let mut ctx = OpContext::new("127.0.0.1:10100".into(), vec![], ConsoleConfig::default());
    {
        let cfg = ctx.config_mut();
        cfg.racks.push(RackEntry { id: 1, name: "r1".into() });
    }
    let cfg = ctx.config();
    assert_eq!(cfg.racks.len(), 1);
    assert_eq!(cfg.racks[0].id, 1);
}

#[test]
fn op_context_node_entry_not_found() {
    let ctx = OpContext::new("127.0.0.1:10100".into(), vec![], ConsoleConfig::default());
    let err = ctx.node_entry(42).unwrap_err();
    assert!(matches!(err, Error::NotFound { kind, id } if kind == "node" && id == "42"));
}

#[test]
fn op_context_server_for_node_not_found() {
    let ctx = OpContext::new("127.0.0.1:10100".into(), vec![], ConsoleConfig::default());
    let err = ctx.server_for_node(42).unwrap_err();
    assert!(matches!(err, Error::NotFound { kind, id } if kind == "server" && id == "42"));
    assert!(matches!(ctx.node_mgmt_url(42), Err(Error::NotFound { .. })));
}

#[test]
fn op_context_discovery_is_some_when_built_via_new() {
    let ctx = OpContext::new(
        "127.0.0.1:10100".into(),
        vec!["http://127.0.0.1:10000".into()],
        ConsoleConfig::default(),
    );
    assert!(ctx.discovery().is_some());
}

#[test]
fn op_context_discovery_or_error_returns_client() {
    let mut ctx = OpContext::new(
        "127.0.0.1:10100".into(),
        vec!["http://127.0.0.1:10000".into()],
        ConsoleConfig::default(),
    );
    assert!(ctx.discovery_or_error().is_ok());
    ctx.discovery = None;
    assert!(matches!(ctx.discovery_or_error(), Err(Error::NotImplemented(_))));
}

#[test]
fn the_leader_counts_as_a_seed() {
    let a = OpContext::new("l".into(), vec!["s".into()], ConsoleConfig::default());
    assert_eq!(a.client.mgmt_seeds, Some(vec!["s".to_string(), "l".to_string()]));
    let b = OpContext::new("l".into(), vec!["l".into(), "s".into()], ConsoleConfig::default());
    assert_eq!(b.client.mgmt_seeds, Some(vec!["l".to_string(), "s".to_string()]));
    assert_eq!(b.client.group0_leader, Some("l".to_string()));
}

#[test]
fn a_shared_client_keeps_what_it_is_not_told() {
    let a = OpContext::with_shared_client("l".into(), vec![], ConsoleConfig::default());
    assert_eq!(a.client.mgmt_seeds, None);
    assert_eq!(a.client.group0_leader, Some("l".to_string()));
    let mut b = OpContext::with_shared_client_preserving_hint(
        vec!["s".into()],
        ConsoleConfig::default(),
    );
    assert_eq!(b.client.mgmt_seeds, Some(vec!["s".to_string()]));
    assert_eq!(b.client.group0_leader, None);
    b.seed_group0_leader("m".into());
    assert_eq!(b.client.group0_leader, Some("m".to_string()));
}

#[test]
fn add_rack_and_list() {
    let mut ctx = ctx();
    let rack = hardware::add_rack(&mut ctx, 1, "rack-1").unwrap();
    assert_eq!(rack.id, 1);
    assert_eq!(rack.name, "rack-1");
    let racks = hardware::list_racks(&ctx);
    assert_eq!(racks.len(), 1);
    assert_eq!(racks[0].id, 1);
    assert!(ctx.pending.is_empty());
}

#[test]
fn changes_are_followed_where_there_is_a_cluster() {
    let mut ctx = OpContext::new("l".into(), vec![], ConsoleConfig::default());
    hardware::add_rack(&mut ctx, 1, "rack-1").unwrap();
    hardware::add_node(&mut ctx, node_10()).unwrap();
    hardware::add_disk_group(&mut ctx, 10, 100, "dg").unwrap();
    hardware::add_disk(&mut ctx, 10, 100, &valid_disk_input(ONE)).unwrap();
    hardware::set_disk_status(&mut ctx, 10, 100, ONE, Some(DiskId::new(0, 1)), HwStatus::Bad)
        .unwrap();
    hardware::set_disk_group_status(&mut ctx, 10, 100, HwStatus::Offline).unwrap();
    hardware::remove_disk(&mut ctx, 10, 100, ONE, None).unwrap();
    hardware::remove_disk_group(&mut ctx, 10, 100).unwrap();
    hardware::remove_node(&mut ctx, 10).unwrap();
    hardware::remove_rack(&mut ctx, 1).unwrap();
    assert_eq!(ctx.pending.len(), 9);
    assert_eq!(ctx.pending[0], SysdataUpdate::AddRack { rack_id: 1 });
    match &ctx.pending[3] {
        SysdataUpdate::AddDisk { rack_id, node_id, dg_id, disk_id, value } => {
            assert_eq!((*rack_id, *node_id, *dg_id), (1, 10, 100));
            assert_eq!(*disk_id, DiskId::new(0, 1));
            assert_eq!(value.status, HwStatus::Up);
            assert_eq!(value.disk_type, DiskType::BlockHdd);
            assert_eq!(value.capacity_units, 4096);
            assert_eq!(value.zone_size_units, 32);
            assert_eq!(value.zone_count, 128);
        }
        other => panic!("{other:?}"),
    }
    assert_eq!(ctx.pending[8], SysdataUpdate::RemoveRack { rack_id: 1 });
}

#[test]
fn add_rack_duplicate_conflict() {
    let mut ctx = ctx();
    hardware::add_rack(&mut ctx, 1, "r1").unwrap();
    let err = hardware::add_rack(&mut ctx, 1, "r2").unwrap_err();
    assert!(matches!(err, Error::Conflict { kind, .. } if kind == "rack"));
}

#[test]
fn remove_rack_not_found() {
    let mut ctx = ctx();
    let err = hardware::remove_rack(&mut ctx, 99).unwrap_err();
    assert!(matches!(err, Error::NotFound { kind, .. } if kind == "rack"));
}

#[test]
fn remove_rack_with_nodes_conflict() {
    let mut ctx = ctx();
    hardware::add_rack(&mut ctx, 1, "r1").unwrap();
    hardware::add_node(&mut ctx, node_10()).unwrap();
    let err = hardware::remove_rack(&mut ctx, 1).unwrap_err();
    assert!(matches!(err, Error::Conflict { kind, .. } if kind == "rack"));
}

#[test]
fn add_node_and_list() {
    let mut ctx = ctx();
    hardware::add_rack(&mut ctx, 1, "r1").unwrap();
    let node = hardware::add_node(&mut ctx, node_10()).unwrap();
    assert_eq!(node.id, 10);
    let nodes = hardware::list_nodes(&ctx, None);
    assert_eq!(nodes.len(), 1);
    let nodes_in_rack = hardware::list_nodes(&ctx, Some(1));
    assert_eq!(nodes_in_rack.len(), 1);
    let nodes_other_rack = hardware::list_nodes(&ctx, Some(2));
    assert_eq!(nodes_other_rack.len(), 0);
}

#[test]
fn add_node_unknown_rack_validation() {
    let mut ctx = ctx();
    let mut entry = node_10();
    entry.rack_id = 99;
    let err = hardware::add_node(&mut ctx, entry).unwrap_err();
    assert!(matches!(err, Error::Validation { field, .. } if field == "rack_id"));
}

#[test]
fn remove_node_not_found() {
    let mut ctx = ctx();
    let err = hardware::remove_node(&mut ctx, 99).unwrap_err();
    assert!(matches!(err, Error::NotFound { kind, .. } if kind == "node"));
}

#[test]
fn remove_node_with_server_conflict() {
    let mut ctx = ctx();
    hardware::add_rack(&mut ctx, 1, "r1").unwrap();
    hardware::add_node(&mut ctx, node_10()).unwrap();
    let entry = ServerEntry { rest_port: None, rpc_port: None, ..kv_entry(None) };
    ctx.config_mut().servers.push(entry);
    let err = hardware::remove_node(&mut ctx, 10).unwrap_err();
    assert!(matches!(err, Error::Conflict { kind, .. } if kind == "node"));
}

#[test]
fn add_disk_group_unknown_node_returns_not_found() {
    let mut ctx = ctx();
    let result = hardware::add_disk_group(&mut ctx, 999, 1, "test");
    assert!(matches!(result, Err(Error::NotFound { ref kind, .. }) if kind == "node"));
}

#[test]
fn add_disk_group_duplicate_returns_conflict() {
    let mut ctx = test_ctx(config_with_rack_node_dg());
    let result = hardware::add_disk_group(&mut ctx, 10, 100, "dup");
    assert!(matches!(result, Err(Error::Conflict { ref kind, .. }) if kind == "disk_group"));
}

#[test]
fn add_disk_group_succeeds() {
    let mut ctx = test_ctx(config_with_rack_node_dg());
    let entry = hardware::add_disk_group(&mut ctx, 10, 200, "new-dg").unwrap();
    assert_eq!(entry.id, 200);
    assert_eq!(entry.node_id, 10);
    assert_eq!(entry.rack_id, 1);
    assert_eq!(entry.name, "new-dg");
}

#[test]
fn remove_disk_group_with_disks_cascades() {
    let mut ctx = test_ctx(config_with_rack_node_dg());
    hardware::add_disk(&mut ctx, 10, 100, &valid_disk_input(ONE)).unwrap();
    hardware::remove_disk_group(&mut ctx, 10, 100).unwrap();
    assert!(ctx.config().disk_group(100).is_none());
    assert!(ctx.config().disks.is_empty());
}

#[test]
fn remove_disk_group_unknown_returns_not_found() {
    let mut ctx = ctx();
    let result = hardware::remove_disk_group(&mut ctx, 10, 999);
    assert!(matches!(result, Err(Error::NotFound { ref kind, .. }) if kind == "disk_group"));
}

#[test]
fn add_disk_unknown_disk_group_returns_not_found() {
    let mut ctx = test_ctx(config_with_rack_node_dg());
    let result = hardware::add_disk(&mut ctx, 10, 999, &valid_disk_input(ONE));
    assert!(matches!(result, Err(Error::NotFound { ref kind, .. }) if kind == "disk_group"));
}

#[test]
fn add_disk_invalid_disk_id_returns_validation() {
    let mut ctx = test_ctx(config_with_rack_node_dg());
    let mut bad = input("not-a-uuid");
    bad.disk_id = "bad-format".into();
    let d = ReadDiskInput { input: bad, id: Err("not hexadecimal".to_string()) };
    let result = hardware::add_disk(&mut ctx, 10, 100, &d);
    assert!(matches!(
        result,
        Err(Error::Validation { ref field, ref message }) if field == "disk_id"
            && message == "invalid `disk_id` format for bad-format: not hexadecimal"
    ));
}

#[test]
fn add_disk_zero_unit_size_returns_validation() {
    let mut ctx = test_ctx(config_with_rack_node_dg());
    let mut d = valid_disk_input(ONE);
    d.input.unit_size_bytes = 0;
    let result = hardware::add_disk(&mut ctx, 10, 100, &d);
    assert!(matches!(result, Err(Error::Validation { .. })));
}

#[test]
fn add_disk_refuses_sizes_and_types() {
    let mut ctx = test_ctx(config_with_rack_node_dg());
    let mut d = valid_disk_input(ONE);
    d.input.zone_size_bytes += 1;
    assert!(matches!(
        hardware::add_disk(&mut ctx, 10, 100, &d),
        Err(Error::Validation { ref field, .. }) if field == "zone_size_bytes"
    ));
    let mut d = valid_disk_input(ONE);
    d.input.capacity_bytes = d.input.zone_size_bytes - 1;
    assert!(matches!(
        hardware::add_disk(&mut ctx, 10, 100, &d),
        Err(Error::Validation { ref field, .. }) if field == "capacity_bytes"
    ));
    let mut d = valid_disk_input(ONE);
    d.input.disk_type = "tape".to_string();
    assert!(matches!(
        hardware::add_disk(&mut ctx, 10, 100, &d),
        Err(Error::Validation { ref field, ref message }) if field == "disk_type"
            && message == "disk 00000000000000000000000000000001: unknown `disk_type`: tape"
    ));
    let mut d = valid_disk_input(ONE);
    d.input.capacity_bytes = u64::MAX;
    d.input.zone_size_bytes = 1;
    d.input.unit_size_bytes = 1;
    let (_, _, value) = hardware::validate_disk_input(&d, 100, 1, 10).unwrap();
    assert_eq!(value.zone_count, u32::MAX);
}

#[test]
fn add_disk_duplicate_returns_conflict() {
    let mut ctx = test_ctx(config_with_rack_node_dg());
    let d = valid_disk_input(ONE);
    hardware::add_disk(&mut ctx, 10, 100, &d).unwrap();
    let result = hardware::add_disk(&mut ctx, 10, 100, &d);
    assert!(matches!(result, Err(Error::Conflict { ref kind, .. }) if kind == "disk"));
}

#[test]
fn add_disks_batch_atomic_rollback_on_duplicate_in_config() {
    let mut ctx = test_ctx(config_with_rack_node_dg());
    hardware::add_disk(&mut ctx, 10, 100, &valid_disk_input(ONE)).unwrap();
    let before = ctx.clone();
    let batch = vec![valid_disk_input(TWO), valid_disk_input(ONE)];
    let result = hardware::add_disks_batch(&mut ctx, 10, 100, &batch);
    assert!(result.is_err());
    assert!(
        !ctx.config().disks.iter().any(|d| d.disk_id == TWO),
        "batch rollback must not leave partial disks in config"
    );
    assert_eq!(ctx, before);
}

#[test]
fn add_disks_batch_rejects_duplicate_within_batch() {
    let mut ctx = test_ctx(config_with_rack_node_dg());
    let batch = vec![valid_disk_input(ONE), valid_disk_input(ONE)];
    let result = hardware::add_disks_batch(&mut ctx, 10, 100, &batch);
    assert!(matches!(result, Err(Error::Conflict { ref kind, .. }) if kind == "disk"));
    assert!(ctx.config().disks.is_empty());
}

#[test]
fn add_disks_batch_succeeds_for_valid_inputs() {
    let mut ctx = test_ctx(config_with_rack_node_dg());
    let batch = vec![valid_disk_input(ONE), valid_disk_input(TWO)];
    let added = hardware::add_disks_batch(&mut ctx, 10, 100, &batch).unwrap();
    assert_eq!(added.len(), 2);
    assert_eq!(ctx.config().disks.len(), 2);
}

#[test]
fn remove_disk_unknown_returns_not_found() {
    let mut ctx = test_ctx(config_with_rack_node_dg());
    let result = hardware::remove_disk(&mut ctx, 10, 100, "nonexistent", None);
    assert!(matches!(result, Err(Error::NotFound { ref kind, .. }) if kind == "disk"));
}

#[test]
fn remove_disk_succeeds() {
    let mut ctx = test_ctx(config_with_rack_node_dg());
    hardware::add_disk(&mut ctx, 10, 100, &valid_disk_input(ONE)).unwrap();
    let removed =
        hardware::remove_disk(&mut ctx, 10, 100, ONE, Some(DiskId::new(0, 1))).unwrap();
    assert_eq!(removed.disk_id, ONE);
    assert!(ctx.config().disks.is_empty());
}

#[test]
fn list_disk_groups_filters_by_node() {
    let ctx = test_ctx(config_with_rack_node_dg());
    let dgs = hardware::list_disk_groups(&ctx, 10);
    assert_eq!(dgs.len(), 1);
    assert_eq!(dgs[0].id, 100);
    let dgs_other = hardware::list_disk_groups(&ctx, 999);
    assert!(dgs_other.is_empty());
}

#[test]
fn list_disks_filters_by_node_and_group() {
    let mut ctx = test_ctx(config_with_rack_node_dg());
    hardware::add_disk(&mut ctx, 10, 100, &valid_disk_input(ONE)).unwrap();
    let disks = hardware::list_disks(&ctx, 10, 100);
    assert_eq!(disks.len(), 1);
    let disks_other = hardware::list_disks(&ctx, 10, 999);
    assert!(disks_other.is_empty());
}

fn kv_entry(pid: Option<u32>) -> ServerEntry {
    ServerEntry {
        id: "10".into(),
        url: "http://127.0.0.1:10000".into(),
        node_id: Some(10),
        rpc_url: None,
        rest_port: Some(10000),
        rpc_port: Some(10100),
        auto_start: true,
        binary: None,
        election_profile: None,
        pid,
        service_type: ServiceType::Kv,
        rpc_workers: None,
        no_fsync: false,
    }
}

fn ctx_with_node() -> OpContext {
    let mut cfg = ConsoleConfig::default();
    cfg.add_rack(RackEntry { id: 1, name: "r1".into() }).unwrap();
    cfg.add_node(node_10()).unwrap();
    test_ctx(cfg)
}

fn request(server_id: &str) -> DeployRequest {
    DeployRequest {
        server_id: server_id.into(),
        rest_port: 10000,
        rpc_port: 10100,
        ..Default::default()
    }
}

fn deployed() -> DeployedServer {
    DeployedServer {
        server_id: "10".into(),
        mgmt_url: "http://127.0.0.1:10000".into(),
        rpc_url: "http://127.0.0.1:10100".into(),
        pid: 77,
    }
}

#[test]
fn deploy_unknown_node_not_found() {
    let ctx = ctx_with_node();
    let err = kv_server::deploy(&ctx, &request("99"), None).unwrap_err();
    assert!(matches!(err, Error::NotFound { kind, .. } if kind == "node"));
    let err = kv_server::deploy(&ctx, &request("ten"), None).unwrap_err();
    assert!(matches!(err, Error::NotFound { id, .. } if id == "0"));
}

#[test]
fn a_deployment_is_recorded() {
    let mut ctx = ctx_with_node();
    let req = request("10");
    let plan = kv_server::deploy(&ctx, &req, None).unwrap();
    assert_eq!(plan.via, Transport::Local);
    let err = kv_server::record_deploy(&mut ctx, &req, &plan, Err("no".to_string())).unwrap_err();
    assert_eq!(
        err,
        Error::NodeUnreachable {
            node_id: "10".to_string(),
            reason: "local deploy: no".to_string(),
        }
    );
    kv_server::record_deploy(&mut ctx, &req, &plan, Ok(deployed())).unwrap();
    let entry = ctx.server_for_node(10).unwrap();
    assert_eq!(entry.pid, Some(77));
    assert_eq!(entry.rpc_url, Some("http://127.0.0.1:10100".to_string()));
    assert!(entry.auto_start);
    assert!(matches!(
        kv_server::deploy(&ctx, &req, None),
        Err(Error::Conflict { ref id, .. }) if id == "node 10 already hosts a deployed server"
    ));
    let again = kv_server::record_deploy(&mut ctx, &req, &plan, Ok(deployed()));
    assert_eq!(again, Err(Error::Config("server conflict: 10".to_string())));
}

#[test]
fn a_remote_node_takes_the_named_binary() {
    let mut ctx = ctx_with_node();
    ctx.registry.nodes[0].ssh_user = "root".to_string();
    let plan = kv_server::deploy(&ctx, &request("10"), Some("/opt/kv".to_string())).unwrap();
    assert_eq!(plan.via, Transport::Ssh { server_bin: "/opt/kv".to_string() });
    let plan = kv_server::deploy(&ctx, &request("10"), None).unwrap();
    assert_eq!(plan.via, Transport::Ssh { server_bin: "crowdb-kv-server".to_string() });
}

#[test]
fn stop_no_server_not_found() {
    let ctx = ctx_with_node();
    let err = kv_server::stop(&ctx, 10, None).unwrap_err();
    assert!(matches!(err, Error::NotFound { kind, .. } if kind == "server"));
}

#[test]
fn stop_no_pid_not_found() {
    let mut ctx = ctx_with_node();
    ctx.config_mut().add_server(kv_entry(None)).unwrap();
    let err = kv_server::stop(&ctx, 10, None).unwrap_err();
    assert!(matches!(err, Error::NotFound { kind, .. } if kind == "server"));
}

#[test]
fn stopping_forgets_the_process_alone() {
    let mut ctx = ctx_with_node();
    ctx.config_mut().add_server(kv_entry(Some(5))).unwrap();
    assert_eq!(kv_server::stop(&ctx, 10, None).unwrap().pid, 5);
    assert_eq!(kv_server::stop(&ctx, 10, Some(6)).unwrap().pid, 6);
    kv_server::record_stop(&mut ctx, 10);
    assert_eq!(kv_server::list(&ctx), vec![kv_entry(None)]);
    assert_eq!(
        kv_server::ssh_stop_error(10, "timeout").message(),
        "node 10 unreachable: ssh stop: timeout"
    );
}

#[test]
fn restarting_keeps_ports_and_settings() {
    let mut ctx = ctx_with_node();
    let mut entry = kv_entry(Some(5));
    entry.rpc_workers = Some(4);
    entry.no_fsync = true;
    entry.election_profile = Some("e2e".to_string());
    ctx.config_mut().add_server(entry).unwrap();
    let plan = kv_server::restart(&ctx, 10, None).unwrap();
    assert_eq!(plan.stop, Some(5));
    assert_eq!(plan.request.rest_port, 10000);
    assert_eq!(plan.request.rpc_workers, Some(4));
    assert!(plan.request.no_fsync);
    let mut d = deployed();
    d.pid = 99;
    kv_server::record_restart(&mut ctx, &plan, Ok(d)).unwrap();
    let entry = ctx.server_for_node(10).unwrap();
    assert_eq!(entry.pid, Some(99));
    assert_eq!(entry.election_profile, Some("e2e".to_string()));
    assert_eq!(ctx.config().servers.len(), 1);
}

#[test]
fn restarting_needs_the_ports() {
    let mut ctx = ctx_with_node();
    let mut entry = kv_entry(None);
    entry.rpc_port = None;
    ctx.config_mut().add_server(entry).unwrap();
    assert_eq!(
        kv_server::restart(&ctx, 10, None),
        Err(Error::Config("server entry for node 10 has no rpc_port".to_string()))
    );
}

#[test]
fn list_returns_all_servers() {
    let mut ctx = ctx_with_node();
    ctx.config_mut().add_server(kv_entry(None)).unwrap();
    let servers = kv_server::list(&ctx);
    assert_eq!(servers.len(), 1);
    assert_eq!(servers[0].node_id, Some(10));
}

#[test]
fn delete_no_server_not_found() {
    let ctx = ctx_with_node();
    let err = kv_server::delete(&ctx, 10, &vec![]).unwrap_err();
    assert!(matches!(err, Error::NotFound { kind, .. } if kind == "server"));
}

#[test]
fn delete_with_server_succeeds_when_no_replicas() {
    let mut ctx = ctx_with_node();
    ctx.config_mut().add_server(kv_entry(None)).unwrap();
    let plan = kv_server::delete(&ctx, 10, &vec![]).unwrap();
    assert_eq!(plan.stop, None);
    kv_server::record_delete(&mut ctx, 10);
    assert!(ctx.config().server_for_node(10).is_none());
}

#[test]
fn a_node_with_replicas_is_not_deleted() {
    let mut ctx = ctx_with_node();
    ctx.test_scenario = false;
    ctx.config_mut().add_server(kv_entry(None)).unwrap();
    let replicas = vec![
        HostedReplica { store_id: 0, group_id: 0, replica_id: 1, node_id: 9 },
        HostedReplica { store_id: 3, group_id: 4, replica_id: 2, node_id: 10 },
    ];
    assert_eq!(
        kv_server::delete(&ctx, 10, &replicas),
        Err(Error::Conflict {
            kind: "server".to_string(),
            id: "node 10 still hosts replica 2 in store 3/group 4".to_string(),
        })
    );
    ctx.test_scenario = true;
    assert!(kv_server::check_require_empty(&ctx, 10, &replicas).is_ok());
}
