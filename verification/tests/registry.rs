use crowdb::console::config::{
    ConsoleConfig, DiskEntry, DiskGroupEntry, GroupEntry, NodeEntry, RackEntry, ReplicaEntry,
    ServerEntry, ServiceType, StoreEntry, TomlFileEngine,
};
use crowdb::console::error::Error;
use crowdb::console::persist::{ConfigRead, PersistedConsoleConfig, SaveStep};

fn node(id: u64, rack_id: u64) -> NodeEntry {
    NodeEntry {
        id,
        rack_id,
        host: "127.0.0.1".to_string(),
        ssh_port: 22,
        ssh_user: String::new(),
        ssh_key: None,
        ssh_password: None,
    }
}

fn rack(id: u64) -> RackEntry {
    RackEntry { id, name: format!("r{id}") }
}

fn disk(id: &str, group: u64) -> DiskEntry {
    DiskEntry {
        disk_id: id.to_string(),
        disk_group_id: group,
        rack_id: 1,
        node_id: 10,
        disk_type: "Hdd".to_string(),
        capacity_bytes: 1 << 30,
        zone_size_bytes: 1 << 20,
        unit_size_bytes: 4096,
        device_path: String::new(),
    }
}

/// Saves a registry through all steps, and hands back its kept form.
fn saved(engine: &TomlFileEngine, cfg: &ConsoleConfig) -> PersistedConsoleConfig {
    let (mut saving, first) = engine.save(cfg, true);
    assert_eq!(first, SaveStep::MakeDir);
    let kept = match saving.next(cfg, Ok(())) {
        SaveStep::Serialize(kept) => kept,
        other => panic!("unexpected step {other:?}"),
    };
    assert_eq!(saving.next(cfg, Ok(())), SaveStep::Write);
    assert_eq!(saving.next(cfg, Ok(())), SaveStep::Replace);
    assert_eq!(saving.next(cfg, Ok(())), SaveStep::Done);
    kept
}

#[test]
fn round_trip_load_save() {
    let mut cfg = ConsoleConfig::default();
    let mut a = ServerEntry::new("a", "http://127.0.0.1:10000");
    a.node_id = Some(1);
    a.rpc_url = Some("http://127.0.0.1:9921".into());
    a.rest_port = Some(10000);
    a.rpc_port = Some(9921);
    a.auto_start = true;
    a.election_profile = Some("test".into());
    a.pid = Some(12345);
    cfg.add_server(a).unwrap();
    cfg.add_server(ServerEntry::new("b", "http://127.0.0.1:10001")).unwrap();
    cfg.stores.push(StoreEntry { store_id: 7, nodes: vec![1, 2] });
    cfg.groups.push(GroupEntry {
        store_id: 7,
        group_id: 70,
        replicas: vec![
            ReplicaEntry { replica_id: 700, node_id: 1 },
            ReplicaEntry { replica_id: 701, node_id: 2 },
        ],
    });
    let engine = TomlFileEngine::new("console.toml");
    let loaded = engine.load(ConfigRead::Kept(saved(&engine, &cfg))).unwrap();
    assert_eq!(cfg, loaded);
}

#[test]
fn missing_file_yields_default() {
    let cfg = TomlFileEngine::new("nope.toml").load(ConfigRead::NotFound).unwrap();
    assert!(cfg.servers.is_empty());
    assert_eq!(cfg, ConsoleConfig::default());
}

#[test]
fn files_that_cannot_be_loaded_are_errors() {
    let engine = TomlFileEngine::new("bad.toml");
    assert_eq!(
        engine.load(ConfigRead::Unreadable("denied".into())),
        Err(Error::Io("denied".into()))
    );
    assert_eq!(
        engine.load(ConfigRead::Unparsable("expected `=`".into())),
        Err(Error::Config("bad.toml: expected `=`".into()))
    );
}

#[test]
fn failed_saves_do_not_replace_the_file() {
    let engine = TomlFileEngine::new("c.toml");
    let cfg = ConsoleConfig::default();
    let (mut saving, first) = engine.save(&cfg, false);
    assert!(matches!(first, SaveStep::Serialize(_)));
    let mut same = saving;
    assert_eq!(
        same.next(&cfg, Err("no map".into())),
        SaveStep::Failed(Error::Config("serialize: no map".into()))
    );
    assert_eq!(saving.next(&cfg, Ok(())), SaveStep::Write);
    assert_eq!(
        saving.next(&cfg, Err("disk full".into())),
        SaveStep::Failed(Error::Io("disk full".into()))
    );
    assert_eq!(saving.next(&cfg, Ok(())), SaveStep::Done);
}

#[test]
fn pid_is_persisted_to_disk() {
    let mut cfg = ConsoleConfig::default();
    let mut entry = ServerEntry::new("a", "http://127.0.0.1:10000");
    entry.pid = Some(4242);
    cfg.add_server(entry).unwrap();
    let kept = saved(&TomlFileEngine::new("console.toml"), &cfg);
    assert_eq!(kept.crowdb_kv_server[0].value.pid, Some(4242));
}

#[test]
fn toml_engine_round_trip() {
    let engine = TomlFileEngine::new("engine.toml");
    assert_eq!(engine.path(), "engine.toml");
    let mut cfg = ConsoleConfig::default();
    cfg.add_server(ServerEntry::new("a", "http://127.0.0.1:10000")).unwrap();
    let loaded = engine.load(ConfigRead::Kept(saved(&engine, &cfg))).unwrap();
    assert_eq!(cfg, loaded);
}

#[test]
fn default_path_points_to_runtime_data() {
    assert_eq!(TomlFileEngine::default_path().unwrap(), "runtime-data/crowdb-kv.db.toml");
    assert_eq!(ConsoleConfig::default_path().unwrap(), "runtime-data/crowdb-kv.db.toml");
}

#[test]
fn duplicate_id_rejected() {
    let mut cfg = ConsoleConfig::default();
    cfg.add_server(ServerEntry::new("a", "http://1")).unwrap();
    let err = cfg.add_server(ServerEntry::new("a", "http://2")).unwrap_err();
    assert!(matches!(err, Error::Conflict { .. }));
}

#[test]
fn duplicate_url_rejected() {
    let mut cfg = ConsoleConfig::default();
    cfg.add_server(ServerEntry::new("a", "http://1")).unwrap();
    let err = cfg.add_server(ServerEntry::new("b", "http://1")).unwrap_err();
    assert!(matches!(err, Error::Validation { .. }));
}

#[test]
fn remove_missing_is_not_found() {
    let mut cfg = ConsoleConfig::default();
    let err = cfg.remove_server("ghost").unwrap_err();
    assert!(matches!(err, Error::NotFound { .. }));
}

#[test]
fn loading_sorts_by_id() {
    let mut cfg = ConsoleConfig::default();
    cfg.add_rack(rack(3)).unwrap();
    cfg.add_rack(rack(1)).unwrap();
    cfg.add_node(node(20, 1)).unwrap();
    cfg.add_node(node(10, 3)).unwrap();
    let loaded = ConsoleConfig::from_persisted(cfg.to_persisted());
    assert_eq!(loaded.racks, vec![rack(1), rack(3)]);
    assert_eq!(loaded.nodes, vec![node(10, 3), node(20, 1)]);
    let again = ConsoleConfig::from_persisted(loaded.to_persisted());
    assert_eq!(again, loaded);
}

#[test]
fn a_rack_with_nodes_stays() {
    let mut cfg = ConsoleConfig::default();
    cfg.add_rack(rack(1)).unwrap();
    cfg.add_node(node(10, 1)).unwrap();
    assert_eq!(
        cfg.remove_rack(1),
        Err(Error::Conflict {
            kind: "rack".to_string(),
            id: "1: rack still referenced by nodes".to_string(),
        })
    );
    cfg.remove_node(10).unwrap();
    assert_eq!(cfg.remove_rack(1), Ok(rack(1)));
    assert_eq!(cfg, ConsoleConfig::default());
}

#[test]
fn a_node_with_a_server_stays() {
    let mut cfg = ConsoleConfig::default();
    cfg.add_rack(rack(1)).unwrap();
    cfg.add_node(node(10, 1)).unwrap();
    let mut s = ServerEntry::new("10", "http://x");
    s.node_id = Some(10);
    cfg.add_server(s.clone()).unwrap();
    assert!(matches!(cfg.remove_node(10), Err(Error::Conflict { .. })));
    assert_eq!(cfg.remove_server_for_node(10), Ok(s));
    assert_eq!(
        cfg.remove_server_for_node(10),
        Err(Error::NotFound {
            kind: "server".to_string(),
            id: "no server on node 10".to_string(),
        })
    );
    assert!(cfg.remove_node(10).is_ok());
}

#[test]
fn server_of_a_node_is_its_key_value_server() {
    let mut cfg = ConsoleConfig::default();
    let mut d = ServerEntry::new("diskdb-1", "http://d");
    d.node_id = Some(1);
    d.service_type = ServiceType::Diskdb;
    let mut k = ServerEntry::new("1", "http://k");
    k.node_id = Some(1);
    cfg.add_server(d).unwrap();
    assert!(cfg.server_for_node(1).is_none());
    cfg.add_server(k.clone()).unwrap();
    assert_eq!(cfg.server_for_node(1), Some(&k));
    cfg.server_for_node_mut(1).unwrap().pid = Some(9);
    assert_eq!(cfg.server("1").unwrap().pid, Some(9));
    assert_eq!(cfg.server_urls(), vec!["http://d".to_string(), "http://k".to_string()]);
}

#[test]
fn groups_and_disks_are_tied() {
    let mut cfg = ConsoleConfig::default();
    cfg.add_rack(rack(1)).unwrap();
    cfg.add_node(node(10, 1)).unwrap();
    let g = DiskGroupEntry { id: 100, rack_id: 1, node_id: 10, name: "dg".to_string() };
    assert!(matches!(
        cfg.add_disk(disk("x", 100)),
        Err(Error::Validation { ref field, ref message })
            if field == "disk_group_id" && message == "unknown disk_group 100"
    ));
    cfg.add_disk_group(g.clone()).unwrap();
    assert!(matches!(cfg.add_disk_group(g), Err(Error::Conflict { .. })));
    cfg.add_disk(disk("x", 100)).unwrap();
    assert!(matches!(cfg.add_disk(disk("x", 100)), Err(Error::Conflict { .. })));
    assert_eq!(
        cfg.remove_disk_group(100),
        Err(Error::Conflict {
            kind: "disk_group".to_string(),
            id: "100: disk_group still has disks".to_string(),
        })
    );
    assert_eq!(cfg.disks_in_group(100).len(), 1);
    assert_eq!(cfg.disk_groups_on_node(10).len(), 1);
    assert_eq!(cfg.remove_disk("x"), Ok(disk("x", 100)));
    assert!(cfg.remove_disk_group(100).is_ok());
}

#[test]
fn stores_and_groups_are_kept_sorted() {
    let mut cfg = ConsoleConfig::default();
    cfg.record_store(5, vec![3, 1, 3]);
    cfg.record_store(2, vec![7]);
    assert_eq!(cfg.stores[0], StoreEntry { store_id: 2, nodes: vec![7] });
    assert_eq!(cfg.stores[1], StoreEntry { store_id: 5, nodes: vec![1, 3] });
    cfg.record_group(5, 1, vec![
        ReplicaEntry { replica_id: 2, node_id: 3 },
        ReplicaEntry { replica_id: 1, node_id: 1 },
    ]);
    assert_eq!(cfg.group(5, 1).unwrap().replicas[0].replica_id, 1);
    cfg.purge_node_topology(3);
    assert_eq!(cfg.stores[1].nodes, vec![1]);
    assert_eq!(cfg.group(5, 1).unwrap().replicas.len(), 1);
    cfg.purge_node_topology(1);
    assert_eq!(cfg.stores.len(), 1);
    assert!(cfg.group(5, 1).is_none());
}

#[test]
fn errors_say_what_is_wrong() {
    let texts = [
        (Error::Io("x".to_string()), "I/O error: x"),
        (Error::Config("x".to_string()), "configuration error: x"),
        (
            Error::Conflict { kind: "rack".to_string(), id: "1".to_string() },
            "rack conflict: 1",
        ),
        (
            Error::NotFound { kind: "node".to_string(), id: "2".to_string() },
            "node not found: 2",
        ),
        (
            Error::Validation { field: "port".to_string(), message: "zero".to_string() },
            "invalid port: zero",
        ),
        (
            Error::NodeUnreachable { node_id: "3".to_string(), reason: "down".to_string() },
            "node 3 unreachable: down",
        ),
        (
            Error::UpstreamRpc { node_id: "u".to_string(), status: "500".to_string() },
            "upstream u failed: 500",
        ),
        (Error::NotImplemented("y".to_string()), "not implemented: y"),
    ];
    for (e, t) in texts {
        assert_eq!(e.message(), t);
    }
}
