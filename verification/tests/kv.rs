use std::sync::Arc;

use crowdb::kv::ffi;
use crowdb::kv::registry;
use crowdb::kv::registry::{
    DiskGroupUsageSummary, HostedGroup, InstanceScan, InstanceValue, RegistryError, ScanItem,
    ServiceRegistryClient, DEFAULT_TTL_MS,
};

fn instance(id: u64, heartbeat: u64) -> InstanceValue {
    let mut v = registry::register_value(id, "h:1", heartbeat, registry::chunkdb_extra());
    v.extra = None;
    v
}

fn item(key: &str, id: u64, heartbeat: u64) -> ScanItem {
    ScanItem { key: key.as_bytes().to_vec(), value: Ok(instance(id, heartbeat)) }
}

#[test]
fn instances_have_paths_of_their_own() {
    assert_eq!(registry::text_prefix_for_service("diskdb"), "/srv/diskdb/");
    assert_eq!(registry::to_path("diskdb", 7), "/srv/diskdb/7");
    assert_ne!(registry::to_path("diskdb", 1), registry::to_path("diskdb", 11));
}

#[test]
fn services_register_under_their_names() {
    let r = registry::register_diskdb(3, "h:9", 50, vec![301], vec![]);
    assert_eq!(r.path, "/srv/diskdb/3");
    assert_eq!((r.value.instance_id, r.value.last_heartbeat_ms), (3, 50));
    assert_eq!(r.value.rpc_endpoint, "h:9");
    assert_eq!(r.value.extra.unwrap().diskdb.unwrap().owned_dg_ids, vec![301]);
    let usage = DiskGroupUsageSummary { json: "{}".into() };
    let r = registry::heartbeat_diskio(4, "h:9", 60, vec![401], vec![usage.clone()]);
    assert_eq!(r.path, "/srv/diskio/4");
    assert_eq!(r.value.extra.unwrap().diskdb.unwrap().group_usages, vec![usage]);
    let groups = vec![HostedGroup { store_id: 0, group_id: 1 }];
    let extra = registry::kv_server_extra(vec![0], groups.clone(), "healthy", "/data");
    let r = registry::register_kv_server(5, "h:9", 70, extra);
    assert_eq!(r.path, "/srv/kv-server/5");
    let kv = r.value.extra.unwrap().kv_server.unwrap();
    assert_eq!(kv.hosted_stores, vec![0]);
    assert_eq!(kv.hosted_groups, groups);
    assert_eq!((kv.health.as_str(), kv.data_root.as_str()), ("healthy", "/data"));
    let r = registry::register_chunkdb(6, "h:9", 80);
    assert_eq!(r.path, "/srv/chunkdb/6");
    assert_eq!(r.value.extra, Some(registry::chunkdb_extra()));
    let r = registry::register("other", 8, "h:9", 90, registry::chunkdb_extra());
    assert_eq!(r.path, "/srv/other/8");
}

#[test]
fn clients_share_their_store() {
    let shared = Arc::new(17u32);
    assert_eq!(*ServiceRegistryClient::from_shared(shared).kv(), 17);
    assert_eq!(*ServiceRegistryClient::new(18u32).kv(), 18);
}

#[test]
fn reads_tell_missing_from_broken() {
    assert_eq!(registry::read_instance("/srv/a/1", None), Ok(None));
    let v = instance(1, 5);
    assert_eq!(registry::read_instance("/srv/a/1", Some(Ok(v.clone()))), Ok(Some(v)));
    assert_eq!(
        registry::read_instance("/srv/a/1", Some(Err("bad".into()))),
        Err(RegistryError::SysdataDecode { key: "/srv/a/1".into(), reason: "bad".into() })
    );
}

#[test]
fn scans_page_and_drop_the_dead() {
    let mut s = InstanceScan::new("diskdb", 100_000, DEFAULT_TTL_MS);
    assert_eq!(s.cutoff, 85_000);
    assert_eq!(s.prefix, "/srv/diskdb/");
    assert_eq!(s.start_after, Vec::<u8>::new());
    let more = s
        .absorb(
            vec![item("/srv/diskdb/1", 1, 85_000), item("/srv/diskdb/2", 2, 84_999)],
            true,
        )
        .unwrap();
    assert!(more);
    assert_eq!(s.start_after, b"/srv/diskdb/2".to_vec());
    let more = s.absorb(vec![item("/srv/diskdb/3", 3, 99_000)], false).unwrap();
    assert!(!more);
    let ids: Vec<u64> = s.found.iter().map(|x| x.0).collect();
    assert_eq!(ids, vec![1, 3]);
    let early = InstanceScan::new("diskdb", 5, DEFAULT_TTL_MS);
    assert_eq!(early.cutoff, 0);
}

#[test]
fn scans_stop_at_an_empty_page() {
    let mut s = InstanceScan::new("diskdb", 100_000, DEFAULT_TTL_MS);
    assert!(!s.absorb(vec![], true).unwrap());
}

#[test]
fn scans_refuse_broken_records() {
    let mut s = InstanceScan::new("diskdb", 0, 0);
    let broken = ScanItem { key: b"/srv/diskdb/1".to_vec(), value: Err("not a record".into()) };
    assert_eq!(
        s.absorb(vec![broken], false),
        Err(RegistryError::SysdataDecode {
            key: "/srv/diskdb/1".into(),
            reason: "not a record".into(),
        })
    );
    let odd = ScanItem { key: vec![b'/', 0xff], value: Ok(instance(1, 1)) };
    assert_eq!(
        s.absorb(vec![odd], false),
        Err(RegistryError::SysdataDecode {
            key: "/srv/diskdb/".into(),
            reason: "invalid utf-8 sequence of 1 bytes from index 1".into(),
        })
    );
}

#[test]
fn group_lists_are_read_from_json() {
    assert_eq!(ffi::owned_dg_ids(Some("[101, 102]")), vec![101, 102]);
    assert!(ffi::owned_dg_ids(Some("[1, -1]")).is_empty());
    assert!(ffi::owned_dg_ids(Some("nonsense")).is_empty());
    assert!(ffi::owned_dg_ids(None).is_empty());
    assert_eq!(ffi::numbers_or_none(Some(vec![4])), vec![4]);
    assert!(ffi::numbers_or_none(None).is_empty());
}

#[test]
fn clients_need_a_seed() {
    assert_eq!(
        ffi::usable_seeds(vec![None, Some("a:1".into()), Some("b:2".into())]),
        Some(vec!["a:1".to_string(), "b:2".to_string()])
    );
    assert_eq!(ffi::usable_seeds(vec![None]), None);
    assert_eq!(ffi::usable_seeds(vec![]), None);
}

#[test]
fn completions_carry_a_status() {
    let c = ffi::completion(Ok("{\"a\":1}".into()));
    assert_eq!((c.status, c.json), (0, Some("{\"a\":1}".to_string())));
    let c = ffi::completion(Ok("a\0b".into()));
    assert_eq!((c.status, c.json), (0, Some("{}".to_string())));
    let c = ffi::completion(Err("down".into()));
    assert_eq!((c.status, c.json), (-1, None));
    assert!(ffi::heartbeat_accepted(false, Some("h:1")));
    assert!(!ffi::heartbeat_accepted(true, Some("h:1")));
    assert!(!ffi::heartbeat_accepted(false, None));
}
