//! The form in which the registry is kept on disk: one section per kind of
//! entry, each entry under its key, the keys in ascending order.

use vstd::prelude::*;

use crate::console::config::{
    clone_text, BenchConfig, ConsoleConfig, DiskEntry, DiskGroupEntry, DiskGroupId, GroupEntry,
    GroupRecord,
    NodeEntry, NodeId, RackEntry, RackId, Registry, ReplicaEntry, ServerEntry, ServiceType,
    StoreEntry, StoreRecord, TomlFileEngine,
};
use crate::console::error::Error;
#[allow(unused_imports)]
use crate::console::config;
#[allow(unused_imports)]
use crate::ordered;
use crate::ordered::{collect_sorted, stable_sort, HasKey, Keyed};
#[allow(unused_imports)]
use crate::text;
use crate::text::{decimal_text, text_less};

verus! {

/// An entry of a section whose keys are numbers.
#[derive(Debug, Clone, PartialEq, Eq)]
pub struct IdEntry<V> {
    pub id: u64,
    pub value: V,
}

/// An entry of a section whose keys are texts.
#[derive(Debug, Clone, PartialEq, Eq)]
pub struct NamedEntry<V> {
    pub name: String,
    pub value: V,
}

/// What a text-keyed entry says.
pub struct NamedRecord<V> {
    pub name: Seq<char>,
    pub value: V,
}

impl<V> HasKey for IdEntry<V> {
    open spec fn key(&self) -> Seq<int> {
        seq![self.id as int]
    }
}

impl<V> Keyed for IdEntry<V> {
    fn precedes(&self, other: &Self) -> (r: bool) {
        proof {
            ordered::lemma_single_key_order(self.id as int, other.id as int);
        }
        self.id < other.id
    }
}

impl<V> HasKey for NamedRecord<V> {
    open spec fn key(&self) -> Seq<int> {
        text::text_key(self.name)
    }
}

impl<V> HasKey for NamedEntry<V> {
    open spec fn key(&self) -> Seq<int> {
        text::text_key(self.name@)
    }
}

impl<V> Keyed for NamedEntry<V> {
    fn precedes(&self, other: &Self) -> (r: bool) {
        text_less(self.name.as_str(), other.name.as_str())
    }
}

#[derive(Debug, Clone, PartialEq, Eq)]
pub struct PersistedRackEntry {
    pub name: String,
}

#[derive(Debug, Clone, PartialEq, Eq)]
pub struct PersistedNodeEntry {
    pub rack_id: RackId,
    pub host: String,
    pub ssh_port: u16,
    pub ssh_user: String,
    pub ssh_key: Option<String>,
    pub ssh_password: Option<String>,
}

#[derive(Debug, Clone, PartialEq, Eq)]
pub struct PersistedServerEntry {
    pub node_id: Option<NodeId>,
    pub url: String,
    pub rpc_url: Option<String>,
    pub rest_port: Option<u16>,
    pub rpc_port: Option<u16>,
    pub auto_start: bool,
    pub binary: Option<String>,
    pub election_profile: Option<String>,
    pub service_type: ServiceType,
    pub rpc_workers: Option<u32>,
    pub no_fsync: bool,
    pub pid: Option<u32>,
}

#[derive(Debug, Clone, PartialEq, Eq)]
pub struct PersistedStoreEntry {
    pub store_id: u64,
    pub nodes: Vec<NodeId>,
}

#[derive(Debug, Clone, PartialEq, Eq)]
pub struct PersistedGroupEntry {
    pub store_id: u64,
    pub group_id: u64,
    pub replicas: Vec<ReplicaEntry>,
}

#[derive(Debug, Clone, PartialEq, Eq)]
pub struct PersistedDiskGroupEntry {
    pub id: DiskGroupId,
    pub rack_id: RackId,
    pub node_id: NodeId,
    pub name: String,
}

#[derive(Debug, Clone, PartialEq, Eq)]
pub struct PersistedDiskEntry {
    pub disk_id: String,
    pub disk_group_id: DiskGroupId,
    pub rack_id: RackId,
    pub node_id: NodeId,
    pub disk_type: String,
    pub capacity_bytes: u64,
    pub zone_size_bytes: u64,
    pub unit_size_bytes: u32,
    pub device_path: String,
}

/// The registry as it is kept.
#[derive(Debug, Clone, PartialEq, Eq)]
pub struct PersistedConsoleConfig {
    pub rack: Vec<IdEntry<PersistedRackEntry>>,
    pub node: Vec<IdEntry<PersistedNodeEntry>>,
    pub crowdb_kv_server: Vec<NamedEntry<PersistedServerEntry>>,
    pub store: Vec<NamedEntry<PersistedStoreEntry>>,
    pub group: Vec<NamedEntry<PersistedGroupEntry>>,
    pub disk_group: Vec<NamedEntry<PersistedDiskGroupEntry>>,
    pub disk: Vec<NamedEntry<PersistedDiskEntry>>,
    pub bench: BenchConfig,
}

/// What the kept registry says.
pub struct KeptRegistry {
    pub rack: Seq<IdEntry<PersistedRackEntry>>,
    pub node: Seq<IdEntry<PersistedNodeEntry>>,
    pub crowdb_kv_server: Seq<NamedEntry<PersistedServerEntry>>,
    pub store: Seq<NamedRecord<StoreRecord>>,
    pub group: Seq<NamedRecord<GroupRecord>>,
    pub disk_group: Seq<NamedRecord<PersistedDiskGroupEntry>>,
    pub disk: Seq<NamedEntry<PersistedDiskEntry>>,
}

pub open spec fn named_store(e: NamedEntry<PersistedStoreEntry>) -> NamedRecord<StoreRecord> {
    NamedRecord {
        name: e.name@,
        value: StoreRecord { store_id: e.value.store_id, nodes: e.value.nodes@ },
    }
}

pub open spec fn named_group(e: NamedEntry<PersistedGroupEntry>) -> NamedRecord<GroupRecord> {
    NamedRecord {
        name: e.name@,
        value: GroupRecord {
            store_id: e.value.store_id,
            group_id: e.value.group_id,
            replicas: e.value.replicas@,
        },
    }
}

pub open spec fn named_disk_group(
    e: NamedEntry<PersistedDiskGroupEntry>,
) -> NamedRecord<PersistedDiskGroupEntry> {
    NamedRecord { name: e.name@, value: e.value }
}

impl View for PersistedConsoleConfig {
    type V = KeptRegistry;

    open spec fn view(&self) -> KeptRegistry {
        KeptRegistry {
            rack: self.rack@,
            node: self.node@,
            crowdb_kv_server: self.crowdb_kv_server@,
            store: self.store@.map_values(|e: NamedEntry<PersistedStoreEntry>| named_store(e)),
            group: self.group@.map_values(|e: NamedEntry<PersistedGroupEntry>| named_group(e)),
            disk_group: self.disk_group@.map_values(
                |e: NamedEntry<PersistedDiskGroupEntry>| named_disk_group(e),
            ),
            disk: self.disk@,
        }
    }
}

pub open spec fn rack_form(e: RackEntry) -> IdEntry<PersistedRackEntry> {
    IdEntry { id: e.id, value: PersistedRackEntry { name: e.name } }
}

pub open spec fn rack_entry(e: IdEntry<PersistedRackEntry>) -> RackEntry {
    RackEntry { id: e.id, name: e.value.name }
}

pub open spec fn node_form(e: NodeEntry) -> IdEntry<PersistedNodeEntry> {
    IdEntry {
        id: e.id,
        value: PersistedNodeEntry {
            rack_id: e.rack_id,
            host: e.host,
            ssh_port: e.ssh_port,
            ssh_user: e.ssh_user,
            ssh_key: e.ssh_key,
            ssh_password: e.ssh_password,
        },
    }
}

pub open spec fn node_entry(e: IdEntry<PersistedNodeEntry>) -> NodeEntry {
    NodeEntry {
        id: e.id,
        rack_id: e.value.rack_id,
        host: e.value.host,
        ssh_port: e.value.ssh_port,
        ssh_user: e.value.ssh_user,
        ssh_key: e.value.ssh_key,
        ssh_password: e.value.ssh_password,
    }
}

pub open spec fn server_form(e: ServerEntry) -> NamedEntry<PersistedServerEntry> {
    NamedEntry {
        name: e.id,
        value: PersistedServerEntry {
            node_id: e.node_id,
            url: e.url,
            rpc_url: e.rpc_url,
            rest_port: e.rest_port,
            rpc_port: e.rpc_port,
            auto_start: e.auto_start,
            binary: e.binary,
            election_profile: e.election_profile,
            service_type: e.service_type,
            rpc_workers: e.rpc_workers,
            no_fsync: e.no_fsync,
            pid: e.pid,
        },
    }
}

pub open spec fn server_entry(e: NamedEntry<PersistedServerEntry>) -> ServerEntry {
    ServerEntry {
        id: e.name,
        url: e.value.url,
        node_id: e.value.node_id,
        rpc_url: e.value.rpc_url,
        rest_port: e.value.rest_port,
        rpc_port: e.value.rpc_port,
        auto_start: e.value.auto_start,
        binary: e.value.binary,
        election_profile: e.value.election_profile,
        pid: e.value.pid,
        service_type: e.value.service_type,
        rpc_workers: e.value.rpc_workers,
        no_fsync: e.value.no_fsync,
    }
}

/// A store is kept under its id in decimal.
pub open spec fn store_form(r: StoreRecord) -> NamedRecord<StoreRecord> {
    NamedRecord { name: text::decimal(r.store_id as nat), value: r }
}

/// A group is kept under the ids of its store and itself in decimal, with a
/// colon between them.
pub open spec fn group_form(r: GroupRecord) -> NamedRecord<GroupRecord> {
    NamedRecord {
        name: text::decimal(r.store_id as nat) + ":"@ + text::decimal(r.group_id as nat),
        value: r,
    }
}

/// A disk group is kept under its id in decimal.
pub open spec fn disk_group_form(e: DiskGroupEntry) -> NamedRecord<PersistedDiskGroupEntry> {
    NamedRecord {
        name: text::decimal(e.id as nat),
        value: PersistedDiskGroupEntry {
            id: e.id,
            rack_id: e.rack_id,
            node_id: e.node_id,
            name: e.name,
        },
    }
}

pub open spec fn disk_group_entry(e: NamedRecord<PersistedDiskGroupEntry>) -> DiskGroupEntry {
    DiskGroupEntry {
        id: e.value.id,
        rack_id: e.value.rack_id,
        node_id: e.value.node_id,
        name: e.value.name,
    }
}

pub open spec fn disk_form(e: DiskEntry) -> NamedEntry<PersistedDiskEntry> {
    NamedEntry {
        name: e.disk_id,
        value: PersistedDiskEntry {
            disk_id: e.disk_id,
            disk_group_id: e.disk_group_id,
            rack_id: e.rack_id,
            node_id: e.node_id,
            disk_type: e.disk_type,
            capacity_bytes: e.capacity_bytes,
            zone_size_bytes: e.zone_size_bytes,
            unit_size_bytes: e.unit_size_bytes,
            device_path: e.device_path,
        },
    }
}

pub open spec fn disk_entry(e: NamedEntry<PersistedDiskEntry>) -> DiskEntry {
    DiskEntry {
        disk_id: e.value.disk_id,
        disk_group_id: e.value.disk_group_id,
        rack_id: e.value.rack_id,
        node_id: e.value.node_id,
        disk_type: e.value.disk_type,
        capacity_bytes: e.value.capacity_bytes,
        zone_size_bytes: e.value.zone_size_bytes,
        unit_size_bytes: e.value.unit_size_bytes,
        device_path: e.value.device_path,
    }
}

/// `kept` is what is kept of `r`: per section, the last entry of each key, in
/// the order of the keys.
pub open spec fn kept_from(r: Registry, kept: KeptRegistry) -> bool {
    &&& ordered::is_collected(r.racks.map_values(|e: RackEntry| rack_form(e)), kept.rack)
    &&& ordered::is_collected(r.nodes.map_values(|e: NodeEntry| node_form(e)), kept.node)
    &&& ordered::is_collected(
        r.servers.map_values(|e: ServerEntry| server_form(e)),
        kept.crowdb_kv_server,
    )
    &&& ordered::is_collected(r.stores.map_values(|e: StoreRecord| store_form(e)), kept.store)
    &&& ordered::is_collected(r.groups.map_values(|e: GroupRecord| group_form(e)), kept.group)
    &&& ordered::is_collected(
        r.disk_groups.map_values(|e: DiskGroupEntry| disk_group_form(e)),
        kept.disk_group,
    )
    &&& ordered::is_collected(r.disks.map_values(|e: DiskEntry| disk_form(e)), kept.disk)
}

/// `r` is what `kept` is loaded as: each section's entries, sorted by id.
pub open spec fn loaded_from(kept: KeptRegistry, r: Registry) -> bool {
    &&& ordered::is_stable_sort(
        kept.rack.map_values(|e: IdEntry<PersistedRackEntry>| rack_entry(e)),
        r.racks,
    )
    &&& ordered::is_stable_sort(
        kept.node.map_values(|e: IdEntry<PersistedNodeEntry>| node_entry(e)),
        r.nodes,
    )
    &&& ordered::is_stable_sort(
        kept.crowdb_kv_server.map_values(|e: NamedEntry<PersistedServerEntry>| server_entry(e)),
        r.servers,
    )
    &&& ordered::is_stable_sort(
        kept.store.map_values(|e: NamedRecord<StoreRecord>| e.value),
        r.stores,
    )
    &&& ordered::is_stable_sort(
        kept.group.map_values(|e: NamedRecord<GroupRecord>| e.value),
        r.groups,
    )
    &&& ordered::is_stable_sort(
        kept.disk_group.map_values(
            |e: NamedRecord<PersistedDiskGroupEntry>| disk_group_entry(e),
        ),
        r.disk_groups,
    )
    &&& ordered::is_stable_sort(
        kept.disk.map_values(|e: NamedEntry<PersistedDiskEntry>| disk_entry(e)),
        r.disks,
    )
}

/// Every section of the registry is in the order of its ids, each id once.
pub open spec fn canonical(r: Registry) -> bool {
    &&& ordered::strictly_sorted(r.racks)
    &&& ordered::strictly_sorted(r.nodes)
    &&& ordered::strictly_sorted(r.servers)
    &&& ordered::strictly_sorted(r.stores)
    &&& ordered::strictly_sorted(r.groups)
    &&& ordered::strictly_sorted(r.disk_groups)
    &&& ordered::strictly_sorted(r.disks)
}

/// `b` holds the entries of `a`, each section sorted by id.
pub open spec fn sorted_version(a: Registry, b: Registry) -> bool {
    &&& ordered::is_stable_sort(a.racks, b.racks)
    &&& ordered::is_stable_sort(a.nodes, b.nodes)
    &&& ordered::is_stable_sort(a.servers, b.servers)
    &&& ordered::is_stable_sort(a.stores, b.stores)
    &&& ordered::is_stable_sort(a.groups, b.groups)
    &&& ordered::is_stable_sort(a.disk_groups, b.disk_groups)
    &&& ordered::is_stable_sort(a.disks, b.disks)
}

/// A registry with unique ids that is saved and loaded again comes back with
/// all its entries, sorted by id; one that was sorted comes back unchanged.
pub proof fn lemma_saved_registry_loads(r: Registry, kept: KeptRegistry, back: Registry)
    requires
        r.ids_unique(),
        kept_from(r, kept),
        loaded_from(kept, back),
    ensures
        sorted_version(r, back),
        canonical(r) ==> back == r,
{
    ordered::lemma_section_round_trip(
        r.racks,
        |e: RackEntry| rack_form(e),
        |e: IdEntry<PersistedRackEntry>| rack_entry(e),
        kept.rack,
        back.racks,
    );
    ordered::lemma_section_round_trip(
        r.nodes,
        |e: NodeEntry| node_form(e),
        |e: IdEntry<PersistedNodeEntry>| node_entry(e),
        kept.node,
        back.nodes,
    );
    ordered::lemma_section_round_trip(
        r.servers,
        |e: ServerEntry| server_form(e),
        |e: NamedEntry<PersistedServerEntry>| server_entry(e),
        kept.crowdb_kv_server,
        back.servers,
    );
    let sf = |e: StoreRecord| store_form(e);
    assert forall|t: StoreRecord, u: StoreRecord|
        (#[trigger] sf(t)).key() == (#[trigger] sf(u)).key() implies t.key() == u.key() by {
        text::lemma_text_key_injective(sf(t).name, sf(u).name);
        text::lemma_decimal_injective(t.store_id as nat, u.store_id as nat);
    }
    ordered::lemma_section_round_trip(
        r.stores,
        sf,
        |e: NamedRecord<StoreRecord>| e.value,
        kept.store,
        back.stores,
    );
    let gf = |e: GroupRecord| group_form(e);
    assert forall|t: GroupRecord, u: GroupRecord|
        (#[trigger] gf(t)).key() == (#[trigger] gf(u)).key() implies t.key() == u.key() by {
        text::lemma_text_key_injective(gf(t).name, gf(u).name);
        text::lemma_colon_pair_injective(
            t.store_id as nat,
            t.group_id as nat,
            u.store_id as nat,
            u.group_id as nat,
        );
    }
    ordered::lemma_section_round_trip(
        r.groups,
        gf,
        |e: NamedRecord<GroupRecord>| e.value,
        kept.group,
        back.groups,
    );
    let df = |e: DiskGroupEntry| disk_group_form(e);
    assert forall|t: DiskGroupEntry, u: DiskGroupEntry|
        (#[trigger] df(t)).key() == (#[trigger] df(u)).key() implies t.key() == u.key() by {
        text::lemma_text_key_injective(df(t).name, df(u).name);
        text::lemma_decimal_injective(t.id as nat, u.id as nat);
    }
    ordered::lemma_section_round_trip(
        r.disk_groups,
        df,
        |e: NamedRecord<PersistedDiskGroupEntry>| disk_group_entry(e),
        kept.disk_group,
        back.disk_groups,
    );
    ordered::lemma_section_round_trip(
        r.disks,
        |e: DiskEntry| disk_form(e),
        |e: NamedEntry<PersistedDiskEntry>| disk_entry(e),
        kept.disk,
        back.disks,
    );
    assert(canonical(r) ==> back =~= r);
}

fn rack_section(racks: &Vec<RackEntry>) -> (out: Vec<IdEntry<PersistedRackEntry>>)
    ensures
        ordered::is_collected(racks@.map_values(|e: RackEntry| rack_form(e)), out@),
{
    let mut list: Vec<IdEntry<PersistedRackEntry>> = Vec::new();
    let mut i: usize = 0;
    while i < racks.len()
        invariant
            i <= racks@.len(),
            list@ == racks@.take(i as int).map_values(|e: RackEntry| rack_form(e)),
        decreases racks@.len() - i,
    {
        let e = &racks[i];
        list.push(IdEntry { id: e.id, value: PersistedRackEntry { name: e.name.clone() } });
        i = i + 1;
        assert(list@ =~= racks@.take(i as int).map_values(|e: RackEntry| rack_form(e)));
    }
    assert(racks@.take(i as int) =~= racks@);
    collect_sorted(list)
}

fn node_section(nodes: &Vec<NodeEntry>) -> (out: Vec<IdEntry<PersistedNodeEntry>>)
    ensures
        ordered::is_collected(nodes@.map_values(|e: NodeEntry| node_form(e)), out@),
{
    let mut list: Vec<IdEntry<PersistedNodeEntry>> = Vec::new();
    let mut i: usize = 0;
    while i < nodes.len()
        invariant
            i <= nodes@.len(),
            list@ == nodes@.take(i as int).map_values(|e: NodeEntry| node_form(e)),
        decreases nodes@.len() - i,
    {
        let e = &nodes[i];
        list.push(
            IdEntry {
                id: e.id,
                value: PersistedNodeEntry {
                    rack_id: e.rack_id,
                    host: e.host.clone(),
                    ssh_port: e.ssh_port,
                    ssh_user: e.ssh_user.clone(),
                    ssh_key: clone_text(&e.ssh_key),
                    ssh_password: clone_text(&e.ssh_password),
                },
            },
        );
        i = i + 1;
        assert(list@ =~= nodes@.take(i as int).map_values(|e: NodeEntry| node_form(e)));
    }
    assert(nodes@.take(i as int) =~= nodes@);
    collect_sorted(list)
}

fn server_section(servers: &Vec<ServerEntry>) -> (out: Vec<NamedEntry<PersistedServerEntry>>)
    ensures
        ordered::is_collected(servers@.map_values(|e: ServerEntry| server_form(e)), out@),
{
    let mut list: Vec<NamedEntry<PersistedServerEntry>> = Vec::new();
    let mut i: usize = 0;
    while i < servers.len()
        invariant
            i <= servers@.len(),
            list@ == servers@.take(i as int).map_values(|e: ServerEntry| server_form(e)),
        decreases servers@.len() - i,
    {
        let e = &servers[i];
        list.push(
            NamedEntry {
                name: e.id.clone(),
                value: PersistedServerEntry {
                    node_id: e.node_id,
                    url: e.url.clone(),
                    rpc_url: clone_text(&e.rpc_url),
                    rest_port: e.rest_port,
                    rpc_port: e.rpc_port,
                    auto_start: e.auto_start,
                    binary: clone_text(&e.binary),
                    election_profile: clone_text(&e.election_profile),
                    service_type: e.service_type,
                    rpc_workers: e.rpc_workers,
                    no_fsync: e.no_fsync,
                    pid: e.pid,
                },
            },
        );
        i = i + 1;
        assert(list@ =~= servers@.take(i as int).map_values(|e: ServerEntry| server_form(e)));
    }
    assert(servers@.take(i as int) =~= servers@);
    collect_sorted(list)
}

fn store_section(stores: &Vec<StoreEntry>) -> (out: Vec<NamedEntry<PersistedStoreEntry>>)
    ensures
        ordered::is_collected(
            config::store_records(stores@).map_values(|e: StoreRecord| store_form(e)),
            out@.map_values(|e: NamedEntry<PersistedStoreEntry>| named_store(e)),
        ),
{
    let ghost f = |e: NamedEntry<PersistedStoreEntry>| named_store(e);
    let ghost g = |e: StoreRecord| store_form(e);
    let ghost all = config::store_records(stores@);
    let mut list: Vec<NamedEntry<PersistedStoreEntry>> = Vec::new();
    let mut i: usize = 0;
    assert(list@.map_values(f) =~= all.take(0).map_values(g));
    while i < stores.len()
        invariant
            i <= stores@.len(),
            all == config::store_records(stores@),
            f == |e: NamedEntry<PersistedStoreEntry>| named_store(e),
            g == |e: StoreRecord| store_form(e),
            list@.map_values(f) == all.take(i as int).map_values(g),
        decreases stores@.len() - i,
    {
        let e = &stores[i];
        let nodes = e.nodes.clone();
        assert(nodes@ =~= e.nodes@);
        let kept = NamedEntry {
            name: decimal_text(e.store_id),
            value: PersistedStoreEntry { store_id: e.store_id, nodes },
        };
        proof {
            assert(all[i as int] == e@);
            assert(f(kept) == g(all[i as int]));
            assert(list@.push(kept).map_values(f) =~= list@.map_values(f).push(f(kept)));
            assert(all.take(i + 1).map_values(g) =~= all.take(i as int).map_values(g).push(
                g(all[i as int]),
            ));
        }
        list.push(kept);
        i = i + 1;
    }
    assert(all.take(i as int) =~= all);
    let ghost before = list@;
    let out = collect_sorted(list);
    proof {
        ordered::lemma_map_collected(before, out@, f);
    }
    out
}

fn group_section(groups: &Vec<GroupEntry>) -> (out: Vec<NamedEntry<PersistedGroupEntry>>)
    ensures
        ordered::is_collected(
            config::group_records(groups@).map_values(|e: GroupRecord| group_form(e)),
            out@.map_values(|e: NamedEntry<PersistedGroupEntry>| named_group(e)),
        ),
{
    let ghost f = |e: NamedEntry<PersistedGroupEntry>| named_group(e);
    let ghost g = |e: GroupRecord| group_form(e);
    let ghost all = config::group_records(groups@);
    let mut list: Vec<NamedEntry<PersistedGroupEntry>> = Vec::new();
    let mut i: usize = 0;
    assert(list@.map_values(f) =~= all.take(0).map_values(g));
    while i < groups.len()
        invariant
            i <= groups@.len(),
            all == config::group_records(groups@),
            f == |e: NamedEntry<PersistedGroupEntry>| named_group(e),
            g == |e: GroupRecord| group_form(e),
            list@.map_values(f) == all.take(i as int).map_values(g),
        decreases groups@.len() - i,
    {
        let e = &groups[i];
        let replicas = e.replicas.clone();
        assert(replicas@ =~= e.replicas@);
        let mut name = decimal_text(e.store_id);
        name.append(":");
        name.append(decimal_text(e.group_id).as_str());
        let kept = NamedEntry {
            name,
            value: PersistedGroupEntry { store_id: e.store_id, group_id: e.group_id, replicas },
        };
        proof {
            assert(all[i as int] == e@);
            assert(f(kept) == g(all[i as int]));
            assert(list@.push(kept).map_values(f) =~= list@.map_values(f).push(f(kept)));
            assert(all.take(i + 1).map_values(g) =~= all.take(i as int).map_values(g).push(
                g(all[i as int]),
            ));
        }
        list.push(kept);
        i = i + 1;
    }
    assert(all.take(i as int) =~= all);
    let ghost before = list@;
    let out = collect_sorted(list);
    proof {
        ordered::lemma_map_collected(before, out@, f);
    }
    out
}

fn disk_group_section(groups: &Vec<DiskGroupEntry>) -> (out: Vec<
    NamedEntry<PersistedDiskGroupEntry>,
>)
    ensures
        ordered::is_collected(
            groups@.map_values(|e: DiskGroupEntry| disk_group_form(e)),
            out@.map_values(|e: NamedEntry<PersistedDiskGroupEntry>| named_disk_group(e)),
        ),
{
    let ghost f = |e: NamedEntry<PersistedDiskGroupEntry>| named_disk_group(e);
    let ghost g = |e: DiskGroupEntry| disk_group_form(e);
    let mut list: Vec<NamedEntry<PersistedDiskGroupEntry>> = Vec::new();
    let mut i: usize = 0;
    assert(list@.map_values(f) =~= groups@.take(0).map_values(g));
    while i < groups.len()
        invariant
            i <= groups@.len(),
            f == |e: NamedEntry<PersistedDiskGroupEntry>| named_disk_group(e),
            g == |e: DiskGroupEntry| disk_group_form(e),
            list@.map_values(f) == groups@.take(i as int).map_values(g),
        decreases groups@.len() - i,
    {
        let e = &groups[i];
        let kept = NamedEntry {
            name: decimal_text(e.id),
            value: PersistedDiskGroupEntry {
                id: e.id,
                rack_id: e.rack_id,
                node_id: e.node_id,
                name: e.name.clone(),
            },
        };
        proof {
            assert(f(kept) == g(groups@[i as int]));
            assert(list@.push(kept).map_values(f) =~= list@.map_values(f).push(f(kept)));
            assert(groups@.take(i + 1).map_values(g) =~= groups@.take(i as int).map_values(g).push(
                g(groups@[i as int]),
            ));
        }
        list.push(kept);
        i = i + 1;
    }
    assert(groups@.take(i as int) =~= groups@);
    let ghost before = list@;
    let out = collect_sorted(list);
    proof {
        ordered::lemma_map_collected(before, out@, f);
    }
    out
}

fn disk_section(disks: &Vec<DiskEntry>) -> (out: Vec<NamedEntry<PersistedDiskEntry>>)
    ensures
        ordered::is_collected(disks@.map_values(|e: DiskEntry| disk_form(e)), out@),
{
    let mut list: Vec<NamedEntry<PersistedDiskEntry>> = Vec::new();
    let mut i: usize = 0;
    while i < disks.len()
        invariant
            i <= disks@.len(),
            list@ == disks@.take(i as int).map_values(|e: DiskEntry| disk_form(e)),
        decreases disks@.len() - i,
    {
        let e = &disks[i];
        list.push(
            NamedEntry {
                name: e.disk_id.clone(),
                value: PersistedDiskEntry {
                    disk_id: e.disk_id.clone(),
                    disk_group_id: e.disk_group_id,
                    rack_id: e.rack_id,
                    node_id: e.node_id,
                    disk_type: e.disk_type.clone(),
                    capacity_bytes: e.capacity_bytes,
                    zone_size_bytes: e.zone_size_bytes,
                    unit_size_bytes: e.unit_size_bytes,
                    device_path: e.device_path.clone(),
                },
            },
        );
        i = i + 1;
        assert(list@ =~= disks@.take(i as int).map_values(|e: DiskEntry| disk_form(e)));
    }
    assert(disks@.take(i as int) =~= disks@);
    collect_sorted(list)
}

fn load_racks(section: Vec<IdEntry<PersistedRackEntry>>) -> (out: Vec<RackEntry>)
    ensures
        ordered::is_stable_sort(section@.map_values(|e: IdEntry<PersistedRackEntry>| rack_entry(e)), out@),
{
    let ghost all = section@;
    let mut list: Vec<RackEntry> = Vec::new();
    for e in it: section
        invariant
            it.seq() == all,
            list@ == all.take(it.index() as int).map_values(|e: IdEntry<PersistedRackEntry>| rack_entry(e)),
    {
        let ghost n = it.index() as int;
        list.push(RackEntry { id: e.id, name: e.value.name });
        assert(list@ =~= all.take(n + 1).map_values(|e: IdEntry<PersistedRackEntry>| rack_entry(e)));
    }
    assert(all.take(all.len() as int) =~= all);
    stable_sort(list)
}

fn load_nodes(section: Vec<IdEntry<PersistedNodeEntry>>) -> (out: Vec<NodeEntry>)
    ensures
        ordered::is_stable_sort(section@.map_values(|e: IdEntry<PersistedNodeEntry>| node_entry(e)), out@),
{
    let ghost all = section@;
    let mut list: Vec<NodeEntry> = Vec::new();
    for e in it: section
        invariant
            it.seq() == all,
            list@ == all.take(it.index() as int).map_values(|e: IdEntry<PersistedNodeEntry>| node_entry(e)),
    {
        let ghost n = it.index() as int;
        list.push(
            NodeEntry {
                id: e.id,
                rack_id: e.value.rack_id,
                host: e.value.host,
                ssh_port: e.value.ssh_port,
                ssh_user: e.value.ssh_user,
                ssh_key: e.value.ssh_key,
                ssh_password: e.value.ssh_password,
            },
        );
        assert(list@ =~= all.take(n + 1).map_values(|e: IdEntry<PersistedNodeEntry>| node_entry(e)));
    }
    assert(all.take(all.len() as int) =~= all);
    stable_sort(list)
}

fn load_servers(section: Vec<NamedEntry<PersistedServerEntry>>) -> (out: Vec<ServerEntry>)
    ensures
        ordered::is_stable_sort(section@.map_values(|e: NamedEntry<PersistedServerEntry>| server_entry(e)), out@),
{
    let ghost all = section@;
    let mut list: Vec<ServerEntry> = Vec::new();
    for e in it: section
        invariant
            it.seq() == all,
            list@ == all.take(it.index() as int).map_values(|e: NamedEntry<PersistedServerEntry>| server_entry(e)),
    {
        let ghost n = it.index() as int;
        list.push(
            ServerEntry {
                id: e.name,
                url: e.value.url,
                node_id: e.value.node_id,
                rpc_url: e.value.rpc_url,
                rest_port: e.value.rest_port,
                rpc_port: e.value.rpc_port,
                auto_start: e.value.auto_start,
                binary: e.value.binary,
                election_profile: e.value.election_profile,
                pid: e.value.pid,
                service_type: e.value.service_type,
                rpc_workers: e.value.rpc_workers,
                no_fsync: e.value.no_fsync,
            },
        );
        assert(list@ =~= all.take(n + 1).map_values(|e: NamedEntry<PersistedServerEntry>| server_entry(e)));
    }
    assert(all.take(all.len() as int) =~= all);
    stable_sort(list)
}

fn load_stores(section: Vec<NamedEntry<PersistedStoreEntry>>) -> (out: Vec<StoreEntry>)
    ensures
        ordered::is_stable_sort(
            section@.map_values(|e: NamedEntry<PersistedStoreEntry>| named_store(e)).map_values(
                |e: NamedRecord<StoreRecord>| e.value,
            ),
            config::store_records(out@),
        ),
{
    let ghost all = section@;
    let ghost f = |e: NamedEntry<PersistedStoreEntry>| named_store(e);
    let ghost g = |e: NamedRecord<StoreRecord>| e.value;
    let mut list: Vec<StoreEntry> = Vec::new();
    assert(config::store_records(list@) =~= all.take(0).map_values(f).map_values(g));
    for e in it: section
        invariant
            it.seq() == all,
            f == |e: NamedEntry<PersistedStoreEntry>| named_store(e),
            g == |e: NamedRecord<StoreRecord>| e.value,
            config::store_records(list@) == all.take(it.index() as int).map_values(f).map_values(g),
    {
        let ghost n = it.index() as int;
        let entry = StoreEntry { store_id: e.value.store_id, nodes: e.value.nodes };
        proof {
            assert(entry@ == g(f(all[n])));
            assert(config::store_records(list@.push(entry)) =~= config::store_records(list@).push(entry@));
            assert(all.take(n + 1).map_values(f).map_values(g) =~= all.take(n).map_values(
                f,
            ).map_values(g).push(g(f(all[n]))));
        }
        list.push(entry);
    }
    assert(all.take(all.len() as int) =~= all);
    let ghost before = list@;
    let out = stable_sort(list);
    proof {
        ordered::lemma_map_stable_sort(before, out@, |e: StoreEntry| e@);
    }
    out
}

fn load_groups(section: Vec<NamedEntry<PersistedGroupEntry>>) -> (out: Vec<GroupEntry>)
    ensures
        ordered::is_stable_sort(
            section@.map_values(|e: NamedEntry<PersistedGroupEntry>| named_group(e)).map_values(
                |e: NamedRecord<GroupRecord>| e.value,
            ),
            config::group_records(out@),
        ),
{
    let ghost all = section@;
    let ghost f = |e: NamedEntry<PersistedGroupEntry>| named_group(e);
    let ghost g = |e: NamedRecord<GroupRecord>| e.value;
    let mut list: Vec<GroupEntry> = Vec::new();
    assert(config::group_records(list@) =~= all.take(0).map_values(f).map_values(g));
    for e in it: section
        invariant
            it.seq() == all,
            f == |e: NamedEntry<PersistedGroupEntry>| named_group(e),
            g == |e: NamedRecord<GroupRecord>| e.value,
            config::group_records(list@) == all.take(it.index() as int).map_values(f).map_values(g),
    {
        let ghost n = it.index() as int;
        let entry = GroupEntry {
            store_id: e.value.store_id,
            group_id: e.value.group_id,
            replicas: e.value.replicas,
        };
        proof {
            assert(entry@ == g(f(all[n])));
            assert(config::group_records(list@.push(entry)) =~= config::group_records(list@).push(entry@));
            assert(all.take(n + 1).map_values(f).map_values(g) =~= all.take(n).map_values(
                f,
            ).map_values(g).push(g(f(all[n]))));
        }
        list.push(entry);
    }
    assert(all.take(all.len() as int) =~= all);
    let ghost before = list@;
    let out = stable_sort(list);
    proof {
        ordered::lemma_map_stable_sort(before, out@, |e: GroupEntry| e@);
    }
    out
}

fn load_disk_groups(section: Vec<NamedEntry<PersistedDiskGroupEntry>>) -> (out: Vec<
    DiskGroupEntry,
>)
    ensures
        ordered::is_stable_sort(
            section@.map_values(
                |e: NamedEntry<PersistedDiskGroupEntry>| named_disk_group(e),
            ).map_values(|e: NamedRecord<PersistedDiskGroupEntry>| disk_group_entry(e)),
            out@,
        ),
{
    let ghost all = section@;
    let ghost f = |e: NamedEntry<PersistedDiskGroupEntry>| named_disk_group(e);
    let ghost g = |e: NamedRecord<PersistedDiskGroupEntry>| disk_group_entry(e);
    let mut list: Vec<DiskGroupEntry> = Vec::new();
    assert(list@ =~= all.take(0).map_values(f).map_values(g));
    for e in it: section
        invariant
            it.seq() == all,
            f == |e: NamedEntry<PersistedDiskGroupEntry>| named_disk_group(e),
            g == |e: NamedRecord<PersistedDiskGroupEntry>| disk_group_entry(e),
            list@ == all.take(it.index() as int).map_values(f).map_values(g),
    {
        let ghost n = it.index() as int;
        list.push(
            DiskGroupEntry {
                id: e.value.id,
                rack_id: e.value.rack_id,
                node_id: e.value.node_id,
                name: e.value.name,
            },
        );
        assert(list@ =~= all.take(n + 1).map_values(f).map_values(g));
    }
    assert(all.take(all.len() as int) =~= all);
    stable_sort(list)
}

fn load_disks(section: Vec<NamedEntry<PersistedDiskEntry>>) -> (out: Vec<DiskEntry>)
    ensures
        ordered::is_stable_sort(section@.map_values(|e: NamedEntry<PersistedDiskEntry>| disk_entry(e)), out@),
{
    let ghost all = section@;
    let mut list: Vec<DiskEntry> = Vec::new();
    for e in it: section
        invariant
            it.seq() == all,
            list@ == all.take(it.index() as int).map_values(|e: NamedEntry<PersistedDiskEntry>| disk_entry(e)),
    {
        let ghost n = it.index() as int;
        list.push(
            DiskEntry {
                disk_id: e.value.disk_id,
                disk_group_id: e.value.disk_group_id,
                rack_id: e.value.rack_id,
                node_id: e.value.node_id,
                disk_type: e.value.disk_type,
                capacity_bytes: e.value.capacity_bytes,
                zone_size_bytes: e.value.zone_size_bytes,
                unit_size_bytes: e.value.unit_size_bytes,
                device_path: e.value.device_path,
            },
        );
        assert(list@ =~= all.take(n + 1).map_values(|e: NamedEntry<PersistedDiskEntry>| disk_entry(e)));
    }
    assert(all.take(all.len() as int) =~= all);
    stable_sort(list)
}

impl ConsoleConfig {
    /// The registry as it is kept on disk.
    pub fn to_persisted(&self) -> (kept: PersistedConsoleConfig)
        ensures
            kept_from(self@, kept@),
            kept.bench == self.bench,
    {
        PersistedConsoleConfig {
            rack: rack_section(&self.racks),
            node: node_section(&self.nodes),
            crowdb_kv_server: server_section(&self.servers),
            store: store_section(&self.stores),
            group: group_section(&self.groups),
            disk_group: disk_group_section(&self.disk_groups),
            disk: disk_section(&self.disks),
            bench: BenchConfig {  },
        }
    }

    /// The registry that `persisted` is loaded as.
    pub fn from_persisted(persisted: PersistedConsoleConfig) -> (cfg: Self)
        ensures
            loaded_from(persisted@, cfg@),
            cfg.bench == persisted.bench,
    {
        ConsoleConfig {
            racks: load_racks(persisted.rack),
            nodes: load_nodes(persisted.node),
            servers: load_servers(persisted.crowdb_kv_server),
            stores: load_stores(persisted.store),
            groups: load_groups(persisted.group),
            disk_groups: load_disk_groups(persisted.disk_group),
            disks: load_disks(persisted.disk),
            bench: persisted.bench,
        }
    }
}

/// How reading the registry's file ended.
#[derive(Debug, PartialEq, Eq)]
pub enum ConfigRead {
    /// The file holds a registry.
    Kept(PersistedConsoleConfig),
    /// There is no such file.
    NotFound,
    /// The file could not be read, for this reason.
    Unreadable(String),
    /// The file holds something else, as this says.
    Unparsable(String),
}

/// How far the saving of the registry has come.
#[derive(Debug, Clone, Copy, PartialEq, Eq, Structural)]
pub enum SaveStage {
    /// The file's directory is made.
    MakingDir,
    /// The registry is turned into text.
    Serializing,
    /// The text is written to a file beside the registry's.
    Writing,
    /// That file takes the place of the registry's.
    Replacing,
    Over,
}

/// What is done next to save the registry.
#[derive(Debug, PartialEq, Eq)]
pub enum SaveStep {
    MakeDir,
    /// Turn this into text.
    Serialize(PersistedConsoleConfig),
    /// Write the text to a file beside the registry's.
    Write,
    /// Put that file in the place of the registry's.
    Replace,
    Done,
    Failed(Error),
}

/// The step of a stage.
pub open spec fn is_save_step(stage: SaveStage, r: Registry, step: SaveStep) -> bool {
    match stage {
        SaveStage::MakingDir => step == SaveStep::MakeDir,
        SaveStage::Serializing => step matches SaveStep::Serialize(kept) && kept_from(r, kept@),
        SaveStage::Writing => step == SaveStep::Write,
        SaveStage::Replacing => step == SaveStep::Replace,
        SaveStage::Over => step == SaveStep::Done,
    }
}

/// The stage that follows one that ended well.
pub open spec fn stage_after(stage: SaveStage) -> SaveStage {
    match stage {
        SaveStage::MakingDir => SaveStage::Serializing,
        SaveStage::Serializing => SaveStage::Writing,
        SaveStage::Writing => SaveStage::Replacing,
        SaveStage::Replacing => SaveStage::Over,
        SaveStage::Over => SaveStage::Over,
    }
}

/// The registry while it is saved.
#[derive(Debug, Clone, Copy, PartialEq, Eq)]
pub struct Saving {
    pub stage: SaveStage,
}

impl Saving {
    fn step(&self, config: &ConsoleConfig) -> (step: SaveStep)
        ensures
            is_save_step(self.stage, config@, step),
            step matches SaveStep::Serialize(kept) ==> kept.bench == config.bench,
    {
        match self.stage {
            SaveStage::MakingDir => SaveStep::MakeDir,
            SaveStage::Serializing => SaveStep::Serialize(config.to_persisted()),
            SaveStage::Writing => SaveStep::Write,
            SaveStage::Replacing => SaveStep::Replace,
            SaveStage::Over => SaveStep::Done,
        }
    }

    /// Takes how the step ended, and says what is done next. A failure ends the
    /// saving, so the file is replaced only by one that was written as a whole.
    pub fn next(&mut self, config: &ConsoleConfig, outcome: Result<(), String>) -> (step: SaveStep)
        ensures
            match outcome {
                Ok(_) => {
                    &&& final(self).stage == stage_after(old(self).stage)
                    &&& is_save_step(final(self).stage, config@, step)
                    &&& step matches SaveStep::Serialize(kept) ==> kept.bench == config.bench
                },
                Err(detail) => {
                    &&& final(self).stage == SaveStage::Over
                    &&& step matches SaveStep::Failed(e) && if old(self).stage
                        == SaveStage::Serializing {
                        e.is_config("serialize: "@ + detail@)
                    } else {
                        e.is_io(detail@)
                    }
                },
            },
    {
        match outcome {
            Ok(_) => {
                self.stage = match self.stage {
                    SaveStage::MakingDir => SaveStage::Serializing,
                    SaveStage::Serializing => SaveStage::Writing,
                    SaveStage::Writing => SaveStage::Replacing,
                    SaveStage::Replacing => SaveStage::Over,
                    SaveStage::Over => SaveStage::Over,
                };
                self.step(config)
            },
            Err(detail) => {
                let serializing = self.stage == SaveStage::Serializing;
                self.stage = SaveStage::Over;
                if serializing {
                    let mut text = "serialize: ".to_owned();
                    text.append(detail.as_str());
                    SaveStep::Failed(Error::Config(text))
                } else {
                    SaveStep::Failed(Error::Io(detail))
                }
            },
        }
    }
}

impl TomlFileEngine {
    /// What is loaded, by how the reading ended: a missing file is an empty
    /// registry.
    pub open spec fn loads(self, read: ConfigRead, r: Result<ConsoleConfig, Error>) -> bool {
        match read {
            ConfigRead::Kept(kept) => r matches Ok(cfg) && loaded_from(kept@, cfg@) && cfg.bench
                == kept.bench,
            ConfigRead::NotFound => r matches Ok(cfg) && cfg@ == Registry::empty(),
            ConfigRead::Unreadable(detail) => r matches Err(e) && e.is_io(detail@),
            ConfigRead::Unparsable(detail) => r matches Err(e) && e.is_config(
                self.path_text() + ": "@ + detail@,
            ),
        }
    }

    /// The registry, by how reading the file ended.
    pub fn load(&self, read: ConfigRead) -> (r: Result<ConsoleConfig, Error>)
        ensures
            self.loads(read, r),
    {
        match read {
            ConfigRead::Kept(kept) => Ok(ConsoleConfig::from_persisted(kept)),
            ConfigRead::NotFound => Ok(ConsoleConfig::default()),
            ConfigRead::Unreadable(detail) => Err(Error::Io(detail)),
            ConfigRead::Unparsable(detail) => {
                let mut text = self.path().to_owned();
                text.append(": ");
                text.append(detail.as_str());
                Err(Error::Config(text))
            },
        }
    }

    /// Begins to save the registry, and says what is done first. `has_parent`
    /// is whether the file's path names a directory.
    pub fn save(&self, config: &ConsoleConfig, has_parent: bool) -> (r: (Saving, SaveStep))
        ensures
            r.0.stage == (if has_parent {
                SaveStage::MakingDir
            } else {
                SaveStage::Serializing
            }),
            is_save_step(r.0.stage, config@, r.1),
            r.1 matches SaveStep::Serialize(kept) ==> kept.bench == config.bench,
    {
        let saving = Saving {
            stage: if has_parent {
                SaveStage::MakingDir
            } else {
                SaveStage::Serializing
            },
        };
        let step = saving.step(config);
        (saving, step)
    }
}

/// A registry whose kept form was saved and is read again is loaded: one with
/// unique ids with all its entries, sorted by id, and one whose lists are
/// strictly sorted by id as it was saved.
pub proof fn lemma_saved_file_loads(
    engine: TomlFileEngine,
    config: ConsoleConfig,
    kept: PersistedConsoleConfig,
    loaded: Result<ConsoleConfig, Error>,
)
    requires
        is_save_step(SaveStage::Serializing, config@, SaveStep::Serialize(kept)),
        kept.bench == config.bench,
        engine.loads(ConfigRead::Kept(kept), loaded),
    ensures
        loaded matches Ok(cfg) && cfg.bench == config.bench && (config@.ids_unique()
            ==> sorted_version(config@, cfg@)) && (canonical(config@) ==> cfg@ == config@),
{
    let r = config@;
    if canonical(r) {
        ordered::lemma_strictly_sorted_unique(r.racks);
        ordered::lemma_strictly_sorted_unique(r.nodes);
        ordered::lemma_strictly_sorted_unique(r.servers);
        ordered::lemma_strictly_sorted_unique(r.stores);
        ordered::lemma_strictly_sorted_unique(r.groups);
        ordered::lemma_strictly_sorted_unique(r.disk_groups);
        ordered::lemma_strictly_sorted_unique(r.disks);
    }
    if r.ids_unique() {
        lemma_saved_registry_loads(r, kept@, loaded->Ok_0@);
    }
}

/// Racks, nodes and servers are kept under their ids, with every field in its
/// own place.
pub proof fn lemma_kept_fields(rack: RackEntry, node: NodeEntry, server: ServerEntry)
    ensures
        rack_form(rack).id == rack.id,
        rack_form(rack).value.name == rack.name,
        node_form(node).id == node.id,
        node_form(node).value.rack_id == node.rack_id,
        node_form(node).value.host == node.host,
        node_form(node).value.ssh_port == node.ssh_port,
        node_form(node).value.ssh_user == node.ssh_user,
        node_form(node).value.ssh_key == node.ssh_key,
        node_form(node).value.ssh_password == node.ssh_password,
        server_form(server).name == server.id,
        server_form(server).value.node_id == server.node_id,
        server_form(server).value.url == server.url,
        server_form(server).value.rpc_url == server.rpc_url,
        server_form(server).value.rest_port == server.rest_port,
        server_form(server).value.rpc_port == server.rpc_port,
        server_form(server).value.auto_start == server.auto_start,
        server_form(server).value.binary == server.binary,
        server_form(server).value.election_profile == server.election_profile,
        server_form(server).value.service_type == server.service_type,
        server_form(server).value.rpc_workers == server.rpc_workers,
        server_form(server).value.no_fsync == server.no_fsync,
        server_form(server).value.pid == server.pid,
        rack_entry(rack_form(rack)) == rack,
        node_entry(node_form(node)) == node,
        server_entry(server_form(server)) == server,
{
}

/// Stores, groups and disk groups are kept under their ids in decimal, disks
/// under theirs, with every field in its own place.
pub proof fn lemma_kept_storage_fields(
    store: StoreRecord,
    group: GroupRecord,
    dg: DiskGroupEntry,
    disk: DiskEntry,
)
    ensures
        store_form(store).name == text::decimal(store.store_id as nat),
        store_form(store).value == store,
        group_form(group).name == text::decimal(group.store_id as nat) + ":"@ + text::decimal(
            group.group_id as nat,
        ),
        group_form(group).value == group,
        disk_group_form(dg).name == text::decimal(dg.id as nat),
        disk_group_form(dg).value.id == dg.id,
        disk_group_form(dg).value.rack_id == dg.rack_id,
        disk_group_form(dg).value.node_id == dg.node_id,
        disk_group_form(dg).value.name == dg.name,
        disk_form(disk).name == disk.disk_id,
        disk_form(disk).value.disk_id == disk.disk_id,
        disk_form(disk).value.disk_group_id == disk.disk_group_id,
        disk_form(disk).value.rack_id == disk.rack_id,
        disk_form(disk).value.node_id == disk.node_id,
        disk_form(disk).value.disk_type == disk.disk_type,
        disk_form(disk).value.capacity_bytes == disk.capacity_bytes,
        disk_form(disk).value.zone_size_bytes == disk.zone_size_bytes,
        disk_form(disk).value.unit_size_bytes == disk.unit_size_bytes,
        disk_form(disk).value.device_path == disk.device_path,
        disk_group_entry(disk_group_form(dg)) == dg,
        disk_entry(disk_form(disk)) == disk,
{
}

/// What is kept shows as it stands, section by section.
pub proof fn lemma_kept_is_shown(kept: PersistedConsoleConfig, i: int)
    ensures
        kept@.rack == kept.rack@,
        kept@.node == kept.node@,
        kept@.crowdb_kv_server == kept.crowdb_kv_server@,
        kept@.disk == kept.disk@,
        kept@.store.len() == kept.store@.len(),
        kept@.group.len() == kept.group@.len(),
        kept@.disk_group.len() == kept.disk_group@.len(),
        0 <= i < kept.store@.len() ==> {
            let (a, b) = (kept@.store[i], kept.store@[i]);
            a.name == b.name@ && a.value.store_id == b.value.store_id && a.value.nodes
                == b.value.nodes@
        },
        0 <= i < kept.group@.len() ==> {
            let (a, b) = (kept@.group[i], kept.group@[i]);
            a.name == b.name@ && a.value.store_id == b.value.store_id && a.value.group_id
                == b.value.group_id && a.value.replicas == b.value.replicas@
        },
        0 <= i < kept.disk_group@.len() ==> {
            let (a, b) = (kept@.disk_group[i], kept.disk_group@[i]);
            a.name == b.name@ && a.value == b.value
        },
{
}

/// What was sorted holds the same entries in every section.
pub proof fn lemma_sorted_keeps_entries(a: Registry, b: Registry)
    requires
        sorted_version(a, b),
    ensures
        a.racks.len() == b.racks.len() && forall|x: RackEntry|
            a.racks.contains(x) == b.racks.contains(x),
        a.nodes.len() == b.nodes.len() && forall|x: NodeEntry|
            a.nodes.contains(x) == b.nodes.contains(x),
        a.servers.len() == b.servers.len() && forall|x: ServerEntry|
            a.servers.contains(x) == b.servers.contains(x),
        a.stores.len() == b.stores.len() && forall|x: StoreRecord|
            a.stores.contains(x) == b.stores.contains(x),
        a.groups.len() == b.groups.len() && forall|x: GroupRecord|
            a.groups.contains(x) == b.groups.contains(x),
        a.disk_groups.len() == b.disk_groups.len() && forall|x: DiskGroupEntry|
            a.disk_groups.contains(x) == b.disk_groups.contains(x),
        a.disks.len() == b.disks.len() && forall|x: DiskEntry|
            a.disks.contains(x) == b.disks.contains(x),
{
    ordered::lemma_stable_sort_entries(a.racks, b.racks);
    ordered::lemma_stable_sort_len(a.racks, b.racks);
    ordered::lemma_stable_sort_entries(a.nodes, b.nodes);
    ordered::lemma_stable_sort_len(a.nodes, b.nodes);
    ordered::lemma_stable_sort_entries(a.servers, b.servers);
    ordered::lemma_stable_sort_len(a.servers, b.servers);
    ordered::lemma_stable_sort_entries(a.stores, b.stores);
    ordered::lemma_stable_sort_len(a.stores, b.stores);
    ordered::lemma_stable_sort_entries(a.groups, b.groups);
    ordered::lemma_stable_sort_len(a.groups, b.groups);
    ordered::lemma_stable_sort_entries(a.disk_groups, b.disk_groups);
    ordered::lemma_stable_sort_len(a.disk_groups, b.disk_groups);
    ordered::lemma_stable_sort_entries(a.disks, b.disks);
    ordered::lemma_stable_sort_len(a.disks, b.disks);
}

/// A registry in order has its racks, nodes, stores and disk groups by rising
/// ids.
pub proof fn lemma_canonical_ascends(r: Registry, i: int, j: int)
    requires
        canonical(r),
        0 <= i < j,
    ensures
        j < r.racks.len() ==> r.racks[i].id < r.racks[j].id,
        j < r.nodes.len() ==> r.nodes[i].id < r.nodes[j].id,
        j < r.stores.len() ==> r.stores[i].store_id < r.stores[j].store_id,
        j < r.groups.len() ==> r.groups[i].store_id < r.groups[j].store_id || r.groups[i].store_id
            == r.groups[j].store_id && r.groups[i].group_id < r.groups[j].group_id,
        j < r.disk_groups.len() ==> r.disk_groups[i].id < r.disk_groups[j].id,
        j < r.servers.len() ==> text::lex_less(
            text::text_key(r.servers[i].id@),
            text::text_key(r.servers[j].id@),
        ),
        j < r.disks.len() ==> text::lex_less(
            text::text_key(r.disks[i].disk_id@),
            text::text_key(r.disks[j].disk_id@),
        ),
{
    if j < r.racks.len() {
        ordered::lemma_single_key_order(r.racks[i].id as int, r.racks[j].id as int);
        assert(text::lex_less(r.racks[i].key(), r.racks[j].key()));
    }
    if j < r.nodes.len() {
        ordered::lemma_single_key_order(r.nodes[i].id as int, r.nodes[j].id as int);
        assert(text::lex_less(r.nodes[i].key(), r.nodes[j].key()));
    }
    if j < r.stores.len() {
        ordered::lemma_single_key_order(r.stores[i].store_id as int, r.stores[j].store_id as int);
        assert(text::lex_less(r.stores[i].key(), r.stores[j].key()));
    }
    if j < r.groups.len() {
        ordered::lemma_pair_key_order(
            r.groups[i].store_id as int,
            r.groups[i].group_id as int,
            r.groups[j].store_id as int,
            r.groups[j].group_id as int,
        );
        assert(text::lex_less(r.groups[i].key(), r.groups[j].key()));
    }
    if j < r.disk_groups.len() {
        ordered::lemma_single_key_order(r.disk_groups[i].id as int, r.disk_groups[j].id as int);
        assert(text::lex_less(r.disk_groups[i].key(), r.disk_groups[j].key()));
    }
    if j < r.servers.len() {
        assert(text::lex_less(r.servers[i].key(), r.servers[j].key()));
    }
    if j < r.disks.len() {
        assert(text::lex_less(r.disks[i].key(), r.disks[j].key()));
    }
}

/// A registry is saved in four steps, each behind the one before: the directory
/// is made, what is kept of the registry is turned into text, the text is
/// written, and the file is put in its place.
pub proof fn lemma_save_in_order(r: Registry, step: SaveStep)
    ensures
        stage_after(SaveStage::MakingDir) is Serializing,
        stage_after(SaveStage::Serializing) is Writing,
        stage_after(SaveStage::Writing) is Replacing,
        stage_after(SaveStage::Replacing) is Over,
        stage_after(SaveStage::Over) is Over,
        is_save_step(SaveStage::MakingDir, r, step) <==> step is MakeDir,
        is_save_step(SaveStage::Serializing, r, step) ==> step is Serialize,
        is_save_step(SaveStage::Writing, r, step) <==> step is Write,
        is_save_step(SaveStage::Replacing, r, step) <==> step is Replace,
        is_save_step(SaveStage::Over, r, step) <==> step is Done,
{
}

/// A file that is not there loads as an empty registry; one that cannot be read
/// is an I/O error, and one that cannot be understood is a configuration error
/// that names the file.
pub proof fn lemma_load_ends(
    engine: TomlFileEngine,
    r: Result<ConsoleConfig, Error>,
    detail: String,
)
    ensures
        engine.loads(ConfigRead::NotFound, r) ==> r is Ok && r->Ok_0@.racks.len() == 0
            && r->Ok_0@.nodes.len() == 0 && r->Ok_0@.servers.len() == 0 && r->Ok_0@.stores.len() == 0
            && r->Ok_0@.groups.len() == 0 && r->Ok_0@.disk_groups.len() == 0
            && r->Ok_0@.disks.len() == 0,
        engine.loads(ConfigRead::Unreadable(detail), r) ==> r is Err && r->Err_0.is_io(detail@),
        engine.loads(ConfigRead::Unparsable(detail), r) ==> r is Err && r->Err_0.is_config(
            engine.path_text() + ": "@ + detail@,
        ),
{
}

/// What is kept is ordered by its ids, and by its names where it has names.
pub proof fn lemma_kept_keys(
    rack: IdEntry<PersistedRackEntry>,
    store: NamedRecord<StoreRecord>,
    server: NamedEntry<PersistedServerEntry>,
)
    ensures
        rack.key() == seq![rack.id as int],
        store.key() == text::text_key(store.name),
        server.key() == text::text_key(server.name@),
{
}

} // verus!
