use crowdb::console::config::{
    is_default_service_type, ConsoleConfig, DiskEntry, DiskGroupEntry, NodeEntry, RackEntry,
    ReplicaEntry, ServerEntry, ServiceType, TomlFileEngine,
};
use crowdb::console::error::Error;
use crowdb::console::ops::context::OpContext;
use crowdb::console::ops::hardware::remove_disk_group;
use crowdb::kv::registry::{InstanceScan, InstanceValue, ScanItem};
use crowdb::rpc::pool::rr_index;

fn replica(replica_id: u64, node_id: u64) -> ReplicaEntry {
    ReplicaEntry { replica_id, node_id }
}

fn node(id: u64, rack_id: u64) -> NodeEntry {
    NodeEntry {
        id,
        rack_id,
        host: "10.0.0.1".to_string(),
        ssh_port: 22,
        ssh_user: String::new(),
        ssh_key: None,
        ssh_password: None,
    }
}

fn disk(id: &str, disk_group_id: u64) -> DiskEntry {
    DiskEntry {
        disk_id: id.to_string(),
        disk_group_id,
        rack_id: 1,
        node_id: 1,
        disk_type: "BLOCK_SSD".to_string(),
        capacity_bytes: 1 << 30,
        zone_size_bytes: 1 << 20,
        unit_size_bytes: 4096,
        device_path: String::new(),
    }
}

fn hardware() -> ConsoleConfig {
    let mut cfg = ConsoleConfig::default();
    cfg.add_rack(RackEntry { id: 1, name: "r1".to_string() }).unwrap();
    cfg.add_node(node(1, 1)).unwrap();
    let group = DiskGroupEntry { id: 5, rack_id: 1, node_id: 1, name: "g".to_string() };
    cfg.add_disk_group(group).unwrap();
    cfg.add_disk(disk("a", 5)).unwrap();
    cfg.add_server(ServerEntry::new("s", "http://s")).unwrap();
    cfg
}

#[test]
fn what_was_added_can_be_removed_again() {
    let before = hardware();
    let mut cfg = hardware();
    cfg.add_rack(RackEntry { id: 2, name: "r2".to_string() }).unwrap();
    assert_eq!(cfg.remove_rack(2).unwrap().name, "r2");
    assert_eq!(cfg, before);
    cfg.add_node(node(2, 1)).unwrap();
    assert_eq!(cfg.remove_node(2).unwrap().id, 2);
    assert_eq!(cfg, before);
    let group = DiskGroupEntry { id: 6, rack_id: 1, node_id: 1, name: "h".to_string() };
    cfg.add_disk_group(group.clone()).unwrap();
    assert_eq!(cfg.remove_disk_group(6).unwrap(), group);
    assert_eq!(cfg, before);
    cfg.add_disk(disk("b", 5)).unwrap();
    assert_eq!(cfg.disk("a").unwrap().disk_id, "a");
    assert_eq!(cfg.remove_disk("b").unwrap(), disk("b", 5));
    assert_eq!(cfg, before);
    cfg.add_server(ServerEntry::new("t", "http://t")).unwrap();
    assert_eq!(cfg.remove_server("t").unwrap().url, "http://t");
    assert_eq!(cfg, before);
}

#[test]
fn recorded_stores_are_found() {
    let mut cfg = ConsoleConfig::default();
    cfg.record_store(7, vec![3, 1, 3, 2]);
    cfg.record_store(2, vec![9]);
    assert_eq!(cfg.stores[0].store_id, 2);
    assert_eq!(cfg.stores[1].store_id, 7);
    assert_eq!(cfg.stores[1].nodes, vec![1, 2, 3]);
    cfg.record_store(7, vec![4]);
    assert_eq!(cfg.stores.len(), 2);
    assert_eq!(cfg.stores[1].nodes, vec![4]);
    assert_eq!(cfg.stores[0].nodes, vec![9]);
}

#[test]
fn store_nodes_are_kept_in_order() {
    let mut cfg = ConsoleConfig::default();
    cfg.record_store(7, vec![5]);
    cfg.ensure_store_node(7, 2);
    cfg.ensure_store_node(7, 5);
    assert_eq!(cfg.stores[0].nodes, vec![2, 5]);
    cfg.ensure_store_node(3, 1);
    assert_eq!(cfg.stores[0].store_id, 3);
    assert_eq!(cfg.stores[0].nodes, vec![1]);
}

#[test]
fn removing_a_store_takes_its_groups() {
    let mut cfg = ConsoleConfig::default();
    cfg.record_store(1, vec![1]);
    cfg.record_store(2, vec![1]);
    cfg.record_group(1, 10, vec![replica(1, 1)]);
    cfg.record_group(2, 20, vec![replica(2, 1)]);
    cfg.remove_store_record(1);
    assert_eq!(cfg.stores.len(), 1);
    assert!(cfg.group(1, 10).is_none());
    assert_eq!(cfg.group(2, 20).unwrap().replicas, vec![replica(2, 1)]);
    cfg.remove_group_record(2, 20);
    assert!(cfg.groups.is_empty());
    assert_eq!(cfg.stores.len(), 1);
}

#[test]
fn recorded_groups_are_found() {
    let mut cfg = ConsoleConfig::default();
    cfg.record_group(1, 11, vec![replica(5, 2), replica(3, 1)]);
    cfg.record_group(1, 10, vec![replica(1, 1)]);
    assert_eq!(cfg.groups[0].group_id, 10);
    assert_eq!(cfg.group(1, 11).unwrap().replicas, vec![replica(3, 1), replica(5, 2)]);
    cfg.record_group(1, 11, vec![replica(9, 9)]);
    assert_eq!(cfg.group(1, 11).unwrap().replicas, vec![replica(9, 9)]);
    assert_eq!(cfg.group(1, 10).unwrap().replicas, vec![replica(1, 1)]);
}

#[test]
fn replicas_are_added_replaced_and_removed() {
    let mut cfg = ConsoleConfig::default();
    cfg.add_group_replica(1, 10, replica(4, 1));
    cfg.add_group_replica(1, 10, replica(2, 2));
    assert_eq!(cfg.group(1, 10).unwrap().replicas, vec![replica(2, 2), replica(4, 1)]);
    cfg.add_group_replica(1, 10, replica(4, 7));
    assert_eq!(cfg.group(1, 10).unwrap().replicas, vec![replica(2, 2), replica(4, 7)]);
    cfg.remove_group_replica(1, 10, 2);
    assert_eq!(cfg.group(1, 10).unwrap().replicas, vec![replica(4, 7)]);
    cfg.remove_group_replica(1, 10, 4);
    assert!(cfg.group(1, 10).is_none());
}

#[test]
fn a_purged_node_is_nowhere() {
    let mut cfg = ConsoleConfig::default();
    cfg.record_store(1, vec![1, 2]);
    cfg.record_store(2, vec![2]);
    cfg.record_group(1, 10, vec![replica(1, 1), replica(2, 2)]);
    cfg.record_group(2, 20, vec![replica(1, 2)]);
    cfg.purge_node_topology(2);
    assert_eq!(cfg.stores.len(), 1);
    assert_eq!(cfg.stores[0].nodes, vec![1]);
    assert_eq!(cfg.groups.len(), 1);
    assert_eq!(cfg.groups[0].replicas, vec![replica(1, 1)]);
}

#[test]
fn servers_can_be_changed_in_place() {
    let mut cfg = hardware();
    cfg.server_mut("s").unwrap().pid = Some(7);
    assert_eq!(cfg.server("s").unwrap().pid, Some(7));
    assert!(cfg.server_mut("t").is_none());
    cfg.server_mut("s").unwrap().node_id = Some(1);
    cfg.server_for_node_mut(1).unwrap().pid = None;
    assert_eq!(cfg.server("s").unwrap().pid, None);
}

#[test]
fn the_default_service_is_the_store() {
    assert!(is_default_service_type(&ServiceType::Kv));
    assert!(!is_default_service_type(&ServiceType::Diskdb));
    let engine = TomlFileEngine::from_default_path().unwrap();
    assert_eq!(engine.path(), "runtime-data/crowdb-kv.db.toml");
}

#[test]
fn picks_in_a_row_differ() {
    let mut counter: u64 = 5;
    let picks: Vec<usize> = (0..3).map(|_| rr_index(&mut counter, 3)).collect();
    assert_eq!(picks, vec![2, 0, 1]);
    assert_eq!(counter, 8);
}

fn live(id: u64) -> ScanItem {
    ScanItem {
        key: format!("/srv/x/{id}").into_bytes(),
        value: Ok(InstanceValue {
            instance_id: id,
            rpc_endpoint: String::new(),
            last_heartbeat_ms: 100,
            extra: None,
        }),
    }
}

#[test]
fn pages_add_up() {
    let mut whole = InstanceScan::new("x", 100, 10);
    assert!(!whole.absorb(vec![live(1), live(2), live(3)], false).unwrap());
    let mut paged = InstanceScan::new("x", 100, 10);
    assert!(paged.absorb(vec![live(1)], true).unwrap());
    assert_eq!(paged.start_after, b"/srv/x/1".to_vec());
    assert!(!paged.absorb(vec![live(2), live(3)], false).unwrap());
    assert_eq!(paged.found, whole.found);
    assert_eq!(whole.found.len(), 3);
}

#[test]
fn disks_of_a_group_go_by_their_ids() {
    let mut cfg = hardware();
    let group = DiskGroupEntry { id: 6, rack_id: 1, node_id: 1, name: "h".to_string() };
    cfg.add_disk_group(group).unwrap();
    cfg.disks.push(disk("a", 6));
    let mut ctx = OpContext::new_for_test("127.0.0.1:1".to_string(), vec![], cfg);
    let err = remove_disk_group(&mut ctx, 1, 6).unwrap_err();
    assert!(matches!(err, Error::Conflict { .. }));
    assert_eq!(ctx.registry.disks, vec![disk("a", 6)]);
    assert!(remove_disk_group(&mut ctx, 1, 6).is_ok());
    assert!(ctx.registry.disks.is_empty());
    assert_eq!(ctx.registry.disk_groups.len(), 1);
}
