//! The registry that the console keeps: racks, nodes, deployed servers,
//! stores, groups, disk groups and disks.

use vstd::prelude::*;

use crate::console::error::Error;
#[allow(unused_imports)]
use crate::lists;
#[allow(unused_imports)]
use crate::ordered;
use crate::ordered::{collect_sorted, stable_sort, HasKey, Keyed};
#[allow(unused_imports)]
use crate::text;
use crate::text::{decimal_text, text_eq, text_less};

verus! {

pub type NodeId = u64;

pub type RackId = u64;

pub type DiskGroupId = u64;

/// A copy of an optional text.
pub fn clone_text(t: &Option<String>) -> (r: Option<String>)
    ensures
        r == *t,
{
    match t {
        Some(s) => Some(s.clone()),
        None => None,
    }
}

/// Where the registry is kept: the path of a TOML file.
#[derive(Debug, Clone, PartialEq, Eq)]
pub struct TomlFileEngine {
    path: String,
}

impl TomlFileEngine {
    /// The path of the file.
    pub closed spec fn path_text(self) -> Seq<char> {
        self.path@
    }

    pub fn new(path: &str) -> (engine: Self)
        ensures
            engine.path_text() == path@,
    {
        TomlFileEngine { path: path.to_owned() }
    }

    pub fn path(&self) -> (path: &str)
        ensures
            path@ == self.path_text(),
    {
        self.path.as_str()
    }

    /// The path of the registry where none is given, relative to the project
    /// root.
    pub fn default_path() -> (path: Option<String>)
        ensures
            path matches Some(p) && p@ == "runtime-data/crowdb-kv.db.toml"@,
    {
        Some("runtime-data/crowdb-kv.db.toml".to_owned())
    }

    pub fn from_default_path() -> (engine: Option<Self>)
        ensures
            engine matches Some(e) && e.path_text() == "runtime-data/crowdb-kv.db.toml"@,
    {
        Some(TomlFileEngine { path: "runtime-data/crowdb-kv.db.toml".to_owned() })
    }
}

/// The benchmark section. It holds nothing yet.
#[derive(Debug, Clone, PartialEq, Eq)]
pub struct BenchConfig {}

impl BenchConfig {
    pub fn is_empty(&self) -> (r: bool)
        ensures
            r,
    {
        true
    }
}

#[derive(Debug, PartialEq, Eq)]
pub struct RackEntry {
    pub id: RackId,
    pub name: String,
}

impl Clone for RackEntry {
    fn clone(&self) -> (r: Self)
        ensures
            r == *self,
    {
        RackEntry {
            id: self.id,
            name: self.name.clone(),
        }
    }
}

#[derive(Debug, PartialEq, Eq)]
pub struct NodeEntry {
    pub id: NodeId,
    pub rack_id: RackId,
    pub host: String,
    pub ssh_port: u16,
    /// The user for remote lifecycle operations. Empty for a node whose
    /// processes are forked locally.
    pub ssh_user: String,
    pub ssh_key: Option<String>,
    pub ssh_password: Option<String>,
}

impl Clone for NodeEntry {
    fn clone(&self) -> (r: Self)
        ensures
            r == *self,
    {
        NodeEntry {
            id: self.id,
            rack_id: self.rack_id,
            host: self.host.clone(),
            ssh_port: self.ssh_port,
            ssh_user: self.ssh_user.clone(),
            ssh_key: clone_text(&self.ssh_key),
            ssh_password: clone_text(&self.ssh_password),
        }
    }
}

/// The port of remote logins where none is given.
pub fn default_ssh_port() -> (port: u16)
    ensures
        port == 22,
{
    22
}

impl NodeEntry {
    /// Whether lifecycle operations on this node go over SSH.
    pub fn ssh_enabled(&self) -> (r: bool)
        ensures
            r == (self.ssh_user@.len() > 0),
    {
        !self.ssh_user.as_str().is_empty()
    }
}

#[derive(Debug, PartialEq, Eq)]
pub struct DiskGroupEntry {
    pub id: DiskGroupId,
    pub rack_id: RackId,
    pub node_id: NodeId,
    pub name: String,
}

impl Clone for DiskGroupEntry {
    fn clone(&self) -> (r: Self)
        ensures
            r == *self,
    {
        DiskGroupEntry {
            id: self.id,
            rack_id: self.rack_id,
            node_id: self.node_id,
            name: self.name.clone(),
        }
    }
}

#[derive(Debug, PartialEq, Eq)]
pub struct DiskEntry {
    pub disk_id: String,
    pub disk_group_id: DiskGroupId,
    pub rack_id: RackId,
    pub node_id: NodeId,
    pub disk_type: String,
    pub capacity_bytes: u64,
    pub zone_size_bytes: u64,
    pub unit_size_bytes: u32,
    pub device_path: String,
}

impl Clone for DiskEntry {
    fn clone(&self) -> (r: Self)
        ensures
            r == *self,
    {
        DiskEntry {
            disk_id: self.disk_id.clone(),
            disk_group_id: self.disk_group_id,
            rack_id: self.rack_id,
            node_id: self.node_id,
            disk_type: self.disk_type.clone(),
            capacity_bytes: self.capacity_bytes,
            zone_size_bytes: self.zone_size_bytes,
            unit_size_bytes: self.unit_size_bytes,
            device_path: self.device_path.clone(),
        }
    }
}

/// Which program a deployed server runs.
#[derive(Debug, Clone, Copy, PartialEq, Eq, Structural)]
pub enum ServiceType {
    Kv,
    Diskdb,
    Chunkdb,
    Diskio,
    Rpc,
}

impl Default for ServiceType {
    fn default() -> (s: Self)
        ensures
            s == ServiceType::Kv,
    {
        ServiceType::Kv
    }
}

pub fn is_default_service_type(st: &ServiceType) -> (r: bool)
    ensures
        r == (*st == ServiceType::Kv),
{
    *st == ServiceType::Kv
}

#[derive(Debug, PartialEq, Eq)]
pub struct ServerEntry {
    pub id: String,
    pub url: String,
    pub node_id: Option<NodeId>,
    pub rpc_url: Option<String>,
    pub rest_port: Option<u16>,
    pub rpc_port: Option<u16>,
    pub auto_start: bool,
    pub binary: Option<String>,
    pub election_profile: Option<String>,
    pub pid: Option<u32>,
    pub service_type: ServiceType,
    pub rpc_workers: Option<u32>,
    pub no_fsync: bool,
}

impl Clone for ServerEntry {
    fn clone(&self) -> (r: Self)
        ensures
            r == *self,
    {
        ServerEntry {
            id: self.id.clone(),
            url: self.url.clone(),
            node_id: self.node_id,
            rpc_url: clone_text(&self.rpc_url),
            rest_port: self.rest_port,
            rpc_port: self.rpc_port,
            auto_start: self.auto_start,
            binary: clone_text(&self.binary),
            election_profile: clone_text(&self.election_profile),
            pid: self.pid,
            service_type: self.service_type,
            rpc_workers: self.rpc_workers,
            no_fsync: self.no_fsync,
        }
    }
}

impl ServerEntry {
    /// A server known by its id and url alone.
    pub fn new(id: &str, url: &str) -> (entry: Self)
        ensures
            entry.id@ == id@,
            entry.url@ == url@,
            entry.node_id is None,
            entry.rpc_url is None,
            entry.rest_port is None,
            entry.rpc_port is None,
            !entry.auto_start,
            entry.binary is None,
            entry.election_profile is None,
            entry.pid is None,
            entry.service_type == ServiceType::Kv,
            entry.rpc_workers is None,
            !entry.no_fsync,
    {
        ServerEntry {
            id: id.to_owned(),
            url: url.to_owned(),
            node_id: None,
            rpc_url: None,
            rest_port: None,
            rpc_port: None,
            auto_start: false,
            binary: None,
            election_profile: None,
            pid: None,
            service_type: ServiceType::Kv,
            rpc_workers: None,
            no_fsync: false,
        }
    }

    /// This is the key-value server of node `node_id`.
    pub open spec fn is_kv_on(self, node_id: NodeId) -> bool {
        self.node_id == Some(node_id) && self.service_type == ServiceType::Kv
    }
}

#[derive(Debug, Clone, PartialEq, Eq)]
pub struct StoreEntry {
    pub store_id: u64,
    pub nodes: Vec<NodeId>,
}

#[derive(Debug, Clone, PartialEq, Eq)]
pub struct GroupEntry {
    pub store_id: u64,
    pub group_id: u64,
    pub replicas: Vec<ReplicaEntry>,
}

#[derive(Debug, Clone, Copy, PartialEq, Eq, Structural)]
pub struct ReplicaEntry {
    pub replica_id: u64,
    pub node_id: NodeId,
}

/// What a store entry records.
pub struct StoreRecord {
    pub store_id: u64,
    pub nodes: Seq<NodeId>,
}

/// What a group entry records.
pub struct GroupRecord {
    pub store_id: u64,
    pub group_id: u64,
    pub replicas: Seq<ReplicaEntry>,
}

impl View for StoreEntry {
    type V = StoreRecord;

    open spec fn view(&self) -> StoreRecord {
        StoreRecord { store_id: self.store_id, nodes: self.nodes@ }
    }
}

impl View for GroupEntry {
    type V = GroupRecord;

    open spec fn view(&self) -> GroupRecord {
        GroupRecord {
            store_id: self.store_id,
            group_id: self.group_id,
            replicas: self.replicas@,
        }
    }
}

impl HasKey for RackEntry {
    open spec fn key(&self) -> Seq<int> {
        seq![self.id as int]
    }
}

impl Keyed for RackEntry {
    fn precedes(&self, other: &Self) -> (r: bool) {
        proof {
            ordered::lemma_single_key_order(self.id as int, other.id as int);
        }
        self.id < other.id
    }
}

impl HasKey for NodeEntry {
    open spec fn key(&self) -> Seq<int> {
        seq![self.id as int]
    }
}

impl Keyed for NodeEntry {
    fn precedes(&self, other: &Self) -> (r: bool) {
        proof {
            ordered::lemma_single_key_order(self.id as int, other.id as int);
        }
        self.id < other.id
    }
}

impl HasKey for ServerEntry {
    open spec fn key(&self) -> Seq<int> {
        text::text_key(self.id@)
    }
}

impl Keyed for ServerEntry {
    fn precedes(&self, other: &Self) -> (r: bool) {
        text_less(self.id.as_str(), other.id.as_str())
    }
}

impl HasKey for StoreRecord {
    open spec fn key(&self) -> Seq<int> {
        seq![self.store_id as int]
    }
}

impl HasKey for StoreEntry {
    open spec fn key(&self) -> Seq<int> {
        seq![self.store_id as int]
    }
}

impl Keyed for StoreEntry {
    fn precedes(&self, other: &Self) -> (r: bool) {
        proof {
            ordered::lemma_single_key_order(self.store_id as int, other.store_id as int);
        }
        self.store_id < other.store_id
    }
}

impl HasKey for GroupRecord {
    open spec fn key(&self) -> Seq<int> {
        seq![self.store_id as int, self.group_id as int]
    }
}

impl HasKey for GroupEntry {
    open spec fn key(&self) -> Seq<int> {
        seq![self.store_id as int, self.group_id as int]
    }
}

impl Keyed for GroupEntry {
    fn precedes(&self, other: &Self) -> (r: bool) {
        proof {
            ordered::lemma_pair_key_order(
                self.store_id as int,
                self.group_id as int,
                other.store_id as int,
                other.group_id as int,
            );
        }
        self.store_id < other.store_id || (self.store_id == other.store_id && self.group_id
            < other.group_id)
    }
}

impl HasKey for ReplicaEntry {
    open spec fn key(&self) -> Seq<int> {
        seq![self.replica_id as int]
    }
}

impl Keyed for ReplicaEntry {
    fn precedes(&self, other: &Self) -> (r: bool) {
        proof {
            ordered::lemma_single_key_order(self.replica_id as int, other.replica_id as int);
        }
        self.replica_id < other.replica_id
    }
}

impl HasKey for DiskGroupEntry {
    open spec fn key(&self) -> Seq<int> {
        seq![self.id as int]
    }
}

impl Keyed for DiskGroupEntry {
    fn precedes(&self, other: &Self) -> (r: bool) {
        proof {
            ordered::lemma_single_key_order(self.id as int, other.id as int);
        }
        self.id < other.id
    }
}

impl HasKey for DiskEntry {
    open spec fn key(&self) -> Seq<int> {
        text::text_key(self.disk_id@)
    }
}

impl Keyed for DiskEntry {
    fn precedes(&self, other: &Self) -> (r: bool) {
        text_less(self.disk_id.as_str(), other.disk_id.as_str())
    }
}

/// The console's registry.
#[derive(Debug, Clone, PartialEq, Eq)]
pub struct ConsoleConfig {
    pub racks: Vec<RackEntry>,
    pub nodes: Vec<NodeEntry>,
    pub servers: Vec<ServerEntry>,
    pub stores: Vec<StoreEntry>,
    pub groups: Vec<GroupEntry>,
    pub disk_groups: Vec<DiskGroupEntry>,
    pub disks: Vec<DiskEntry>,
    pub bench: BenchConfig,
}

/// What the registry records.
#[verifier::ext_equal]
pub struct Registry {
    pub racks: Seq<RackEntry>,
    pub nodes: Seq<NodeEntry>,
    pub servers: Seq<ServerEntry>,
    pub stores: Seq<StoreRecord>,
    pub groups: Seq<GroupRecord>,
    pub disk_groups: Seq<DiskGroupEntry>,
    pub disks: Seq<DiskEntry>,
}

pub open spec fn store_records(s: Seq<StoreEntry>) -> Seq<StoreRecord> {
    s.map_values(|e: StoreEntry| e@)
}

pub open spec fn group_records(s: Seq<GroupEntry>) -> Seq<GroupRecord> {
    s.map_values(|e: GroupEntry| e@)
}

impl View for ConsoleConfig {
    type V = Registry;

    open spec fn view(&self) -> Registry {
        Registry {
            racks: self.racks@,
            nodes: self.nodes@,
            servers: self.servers@,
            stores: store_records(self.stores@),
            groups: group_records(self.groups@),
            disk_groups: self.disk_groups@,
            disks: self.disks@,
        }
    }
}

/// The racks with an id.
pub open spec fn rack_numbered(id: RackId) -> spec_fn(RackEntry) -> bool {
    |r: RackEntry| r.id == id
}

/// The nodes with an id.
pub open spec fn node_numbered(id: NodeId) -> spec_fn(NodeEntry) -> bool {
    |n: NodeEntry| n.id == id
}

/// The disks with an id.
pub open spec fn disk_named(disk_id: Seq<char>) -> spec_fn(DiskEntry) -> bool {
    |d: DiskEntry| d.disk_id@ == disk_id
}

impl Registry {
    pub open spec fn rack_index(self, id: RackId) -> Option<int> {
        lists::first_index(self.racks, rack_numbered(id))
    }

    pub open spec fn node_index(self, id: NodeId) -> Option<int> {
        lists::first_index(self.nodes, node_numbered(id))
    }

    pub open spec fn server_index(self, id: Seq<char>) -> Option<int> {
        lists::first_index(self.servers, |s: ServerEntry| s.id@ == id)
    }

    pub open spec fn url_index(self, url: Seq<char>) -> Option<int> {
        lists::first_index(self.servers, |s: ServerEntry| s.url@ == url)
    }

    pub open spec fn kv_index(self, node_id: NodeId) -> Option<int> {
        lists::first_index(self.servers, |s: ServerEntry| s.is_kv_on(node_id))
    }

    pub open spec fn store_index(self, store_id: u64) -> Option<int> {
        lists::first_index(self.stores, |s: StoreRecord| s.store_id == store_id)
    }

    pub open spec fn group_index(self, store_id: u64, group_id: u64) -> Option<int> {
        lists::first_index(
            self.groups,
            |g: GroupRecord| g.store_id == store_id && g.group_id == group_id,
        )
    }

    pub open spec fn disk_group_index(self, id: DiskGroupId) -> Option<int> {
        lists::first_index(self.disk_groups, |g: DiskGroupEntry| g.id == id)
    }

    pub open spec fn disk_index(self, disk_id: Seq<char>) -> Option<int> {
        lists::first_index(self.disks, disk_named(disk_id))
    }

    /// A registry that records nothing.
    pub open spec fn empty() -> Registry {
        Registry {
            racks: seq![],
            nodes: seq![],
            servers: seq![],
            stores: seq![],
            groups: seq![],
            disk_groups: seq![],
            disks: seq![],
        }
    }

    /// No two racks, nodes, servers, stores, groups, disk groups or disks
    /// share an id.
    pub open spec fn ids_unique(self) -> bool {
        &&& ordered::unique_keys(self.racks)
        &&& ordered::unique_keys(self.nodes)
        &&& ordered::unique_keys(self.servers)
        &&& ordered::unique_keys(self.stores)
        &&& ordered::unique_keys(self.groups)
        &&& ordered::unique_keys(self.disk_groups)
        &&& ordered::unique_keys(self.disks)
    }

    /// Every node stands in a recorded rack, and every disk in a recorded
    /// disk group.
    pub open spec fn placed(self) -> bool {
        &&& forall|i: int|
            0 <= i < self.nodes.len() ==> self.rack_index((#[trigger] self.nodes[i]).rack_id)
                is Some
        &&& forall|i: int|
            0 <= i < self.disks.len() ==> self.disk_group_index(
                (#[trigger] self.disks[i]).disk_group_id,
            ) is Some
    }

    /// The registry that `add_*` and `remove_*` keep up.
    pub open spec fn well_formed(self) -> bool {
        self.ids_unique() && self.placed()
    }
}

impl Default for ConsoleConfig {
    fn default() -> (cfg: Self)
        ensures
            cfg@ == Registry::empty(),
            cfg@.well_formed(),
    {
        let cfg = ConsoleConfig {
            racks: Vec::new(),
            nodes: Vec::new(),
            servers: Vec::new(),
            stores: Vec::new(),
            groups: Vec::new(),
            disk_groups: Vec::new(),
            disks: Vec::new(),
            bench: BenchConfig {  },
        };
        assert(cfg@ =~= (Registry {
            racks: seq![],
            nodes: seq![],
            servers: seq![],
            stores: seq![],
            groups: seq![],
            disk_groups: seq![],
            disks: seq![],
        }));
        cfg
    }
}

/// Appending to a list whose ids differ from the new one keeps the registry's
/// ids unique.
proof fn lemma_push_server(r: Registry, entry: ServerEntry)
    requires
        r.well_formed(),
        r.server_index(entry.id@) is None,
    ensures
        (Registry { servers: r.servers.push(entry), ..r }).well_formed(),
{
    lists::lemma_first_index(r.servers, |s: ServerEntry| s.id@ == entry.id@);
    assert forall|i: int| 0 <= i < r.servers.len() implies (#[trigger] r.servers[i]).key()
        != entry.key() by {
        text::lemma_text_key_injective(r.servers[i].id@, entry.id@);
    }
    ordered::lemma_push_unique(r.servers, entry);
}

impl ConsoleConfig {
    /// The path of the registry where none is given.
    pub fn default_path() -> (path: Option<String>)
        ensures
            path matches Some(p) && p@ == "runtime-data/crowdb-kv.db.toml"@,
    {
        TomlFileEngine::default_path()
    }

    /// Adds a server. Refuses an id that is taken, then a url that is taken.
    pub fn add_server(&mut self, entry: ServerEntry) -> (r: Result<(), Error>)
        ensures
            match r {
                Ok(_) => old(self)@.server_index(entry.id@) is None && old(self)@.url_index(
                    entry.url@,
                ) is None && final(self)@ == (Registry {
                    servers: old(self)@.servers.push(entry),
                    ..old(self)@
                }),
                Err(e) => final(self)@ == old(self)@ && if old(self)@.server_index(entry.id@)
                    is Some {
                    e.is_conflict("server"@, entry.id@)
                } else {
                    old(self)@.url_index(entry.url@) is Some && e.is_validation(
                        "url"@,
                        "url "@ + entry.url@ + " already registered"@,
                    )
                },
            },
            old(self)@.well_formed() ==> final(self)@.well_formed(),
    {
        let accepts = |s: &ServerEntry| -> (b: bool)
            ensures
                b == (s.id@ == entry.id@)
        { s.id == entry.id };
        let same_id = lists::position(&self.servers, accepts, Ghost(|s: ServerEntry| s.id@ == entry.id@));
        if same_id.is_some() {
            return Err(Error::conflict("server", entry.id));
        }
        let accepts = |s: &ServerEntry| -> (b: bool)
            ensures
                b == (s.url@ == entry.url@)
        { s.url == entry.url };
        let same_url = lists::position(&self.servers, accepts, Ghost(|s: ServerEntry| s.url@ == entry.url@));
        if same_url.is_some() {
            let mut message = "url ".to_owned();
            message.append(entry.url.as_str());
            message.append(" already registered");
            return Err(Error::validation("url", message));
        }
        proof {
            if self@.well_formed() {
                lemma_push_server(self@, entry);
            }
        }
        self.servers.push(entry);
        assert(self@ =~= (Registry { servers: old(self)@.servers.push(entry), ..old(self)@ }));
        Ok(())
    }

    /// Removes the server with the id `id`.
    pub fn remove_server(&mut self, id: &str) -> (r: Result<ServerEntry, Error>)
        ensures
            match old(self)@.server_index(id@) {
                Some(i) => r == Ok::<ServerEntry, Error>(old(self)@.servers[i]) && final(self)@ == (
                Registry { servers: old(self)@.servers.remove(i), ..old(self)@ }),
                None => final(self)@ == old(self)@ && (r matches Err(e) && e.is_not_found(
                    "server"@,
                    id@,
                )),
            },
            old(self)@.well_formed() ==> final(self)@.well_formed(),
    {
        let accepts = |s: &ServerEntry| -> (b: bool)
            ensures
                b == (s.id@ == id@)
        { text_eq(s.id.as_str(), id) };
        let pos = lists::position(&self.servers, accepts, Ghost(|s: ServerEntry| s.id@ == id@));
        match pos {
            Some(i) => {
                let entry = self.servers.remove(i);
                proof {
                    if old(self)@.well_formed() {
                        ordered::lemma_remove_unique(old(self)@.servers, i as int);
                    }
                }
                assert(self@ =~= (Registry {
                    servers: old(self)@.servers.remove(i as int),
                    ..old(self)@
                }));
                Ok(entry)
            },
            None => Err(Error::not_found("server", id.to_owned())),
        }
    }

    /// The urls of all servers, in the order in which they were added.
    pub fn server_urls(&self) -> (urls: Vec<String>)
        ensures
            urls@ == self@.servers.map_values(|s: ServerEntry| s.url),
    {
        let mut urls: Vec<String> = Vec::new();
        let mut i: usize = 0;
        while i < self.servers.len()
            invariant
                i <= self.servers@.len(),
                urls@ == self.servers@.take(i as int).map_values(|s: ServerEntry| s.url),
            decreases self.servers@.len() - i,
        {
            urls.push(self.servers[i].url.clone());
            i = i + 1;
            assert(urls@ =~= self.servers@.take(i as int).map_values(|s: ServerEntry| s.url));
        }
        assert(self.servers@.take(i as int) =~= self.servers@);
        urls
    }

    /// The server with the id `id`.
    pub fn server(&self, id: &str) -> (r: Option<&ServerEntry>)
        ensures
            match self@.server_index(id@) {
                Some(i) => r == Some(&self@.servers[i]),
                None => r is None,
            },
    {
        let accepts = |s: &ServerEntry| -> (b: bool)
            ensures
                b == (s.id@ == id@)
        { text_eq(s.id.as_str(), id) };
        let pos = lists::position(&self.servers, accepts, Ghost(|s: ServerEntry| s.id@ == id@));
        match pos {
            Some(i) => Some(&self.servers[i]),
            None => None,
        }
    }

    /// The server with the id `id`, to change it in place.
    pub fn server_mut(&mut self, id: &str) -> (r: Option<&mut ServerEntry>)
        ensures
            match old(self)@.server_index(id@) {
                Some(i) => r matches Some(s) && *s == old(self)@.servers[i] && final(self)@ == (
                Registry { servers: old(self)@.servers.update(i, *final(s)), ..old(self)@ }),
                None => r is None && final(self)@ == old(self)@,
            },
    {
        let accepts = |s: &ServerEntry| -> (b: bool)
            ensures
                b == (s.id@ == id@)
        { text_eq(s.id.as_str(), id) };
        let pos = lists::position(&self.servers, accepts, Ghost(|s: ServerEntry| s.id@ == id@));
        match pos {
            Some(i) => Some(&mut self.servers[i]),
            None => None,
        }
    }

    fn kv_position(&self, node_id: NodeId) -> (r: Option<usize>)
        ensures
            match r {
                Some(i) => self@.kv_index(node_id) == Some(i as int) && i < self.servers@.len(),
                None => self@.kv_index(node_id) is None,
            },
    {
        let accepts = |s: &ServerEntry| -> (b: bool)
            ensures
                b == s.is_kv_on(node_id)
        { match s.node_id { Some(n) => n == node_id && s.service_type == ServiceType::Kv, None => false, } };
        lists::position(&self.servers, accepts, Ghost(|s: ServerEntry| s.is_kv_on(node_id)))
    }

    /// The key-value server of node `node_id`.
    pub fn server_for_node(&self, node_id: NodeId) -> (r: Option<&ServerEntry>)
        ensures
            match self@.kv_index(node_id) {
                Some(i) => r == Some(&self@.servers[i]),
                None => r is None,
            },
    {
        match self.kv_position(node_id) {
            Some(i) => Some(&self.servers[i]),
            None => None,
        }
    }

    /// The key-value server of node `node_id`, to change it in place.
    pub fn server_for_node_mut(&mut self, node_id: NodeId) -> (r: Option<&mut ServerEntry>)
        ensures
            match old(self)@.kv_index(node_id) {
                Some(i) => r matches Some(s) && *s == old(self)@.servers[i] && final(self)@ == (
                Registry { servers: old(self)@.servers.update(i, *final(s)), ..old(self)@ }),
                None => r is None && final(self)@ == old(self)@,
            },
    {
        match self.kv_position(node_id) {
            Some(i) => Some(&mut self.servers[i]),
            None => None,
        }
    }

    /// Removes the key-value server of node `node_id`.
    pub fn remove_server_for_node(&mut self, node_id: NodeId) -> (r: Result<ServerEntry, Error>)
        ensures
            match old(self)@.kv_index(node_id) {
                Some(i) => r == Ok::<ServerEntry, Error>(old(self)@.servers[i]) && final(self)@ == (
                Registry { servers: old(self)@.servers.remove(i), ..old(self)@ }),
                None => final(self)@ == old(self)@ && (r matches Err(e) && e.is_not_found(
                    "server"@,
                    "no server on node "@ + text::decimal(node_id as nat),
                )),
            },
            old(self)@.well_formed() ==> final(self)@.well_formed(),
    {
        match self.kv_position(node_id) {
            Some(i) => {
                let entry = self.servers.remove(i);
                proof {
                    if old(self)@.well_formed() {
                        ordered::lemma_remove_unique(old(self)@.servers, i as int);
                    }
                }
                assert(self@ =~= (Registry {
                    servers: old(self)@.servers.remove(i as int),
                    ..old(self)@
                }));
                Ok(entry)
            },
            None => {
                let mut id = "no server on node ".to_owned();
                id.append(decimal_text(node_id).as_str());
                Err(Error::not_found("server", id))
            },
        }
    }

    /// Adds a rack. Refuses an id that is taken.
    pub fn add_rack(&mut self, entry: RackEntry) -> (r: Result<(), Error>)
        ensures
            match r {
                Ok(_) => old(self)@.rack_index(entry.id) is None && final(self)@ == (Registry {
                    racks: old(self)@.racks.push(entry),
                    ..old(self)@
                }),
                Err(e) => old(self)@.rack_index(entry.id) is Some && final(self)@ == old(self)@
                    && e.is_conflict("rack"@, text::decimal(entry.id as nat)),
            },
            old(self)@.well_formed() ==> final(self)@.well_formed(),
    {
        let accepts = |x: &RackEntry| -> (b: bool)
            ensures
                b == (x.id == entry.id)
        { x.id == entry.id };
        let pos = lists::position(&self.racks, accepts, Ghost(rack_numbered(entry.id)));
        if pos.is_some() {
            return Err(Error::conflict("rack", decimal_text(entry.id)));
        }
        let ghost before = self@;
        self.racks.push(entry);
        proof {
            let after = Registry { racks: before.racks.push(entry), ..before };
            assert(self@ =~= after);
            if before.well_formed() {
                assert forall|i: int| 0 <= i < before.racks.len() implies (
                #[trigger] before.racks[i]).key() != entry.key() by {
                    assert(before.racks[i].key()[0] != entry.key()[0]);
                }
                ordered::lemma_push_unique(before.racks, entry);
                assert forall|i: int| 0 <= i < after.nodes.len() implies after.rack_index(
                    (#[trigger] after.nodes[i]).rack_id,
                ) is Some by {
                    let rack_id = after.nodes[i].rack_id;
                    assert(before.rack_index(before.nodes[i].rack_id) is Some);
                    lists::lemma_push_keeps_match(
                        before.racks,
                        rack_numbered(rack_id),
                        entry,
                    );
                }
            }
        }
        Ok(())
    }

    /// Removes the rack with the id `id`. Refuses while a node refers to it.
    pub fn remove_rack(&mut self, id: RackId) -> (r: Result<RackEntry, Error>)
        ensures
            if lists::first_index(old(self)@.nodes, |n: NodeEntry| n.rack_id == id) is Some {
                final(self)@ == old(self)@ && (r matches Err(e) && e.is_conflict(
                    "rack"@,
                    text::decimal(id as nat) + ": rack still referenced by nodes"@,
                ))
            } else {
                match old(self)@.rack_index(id) {
                    Some(i) => r == Ok::<RackEntry, Error>(old(self)@.racks[i]) && final(self)@ == (
                    Registry { racks: old(self)@.racks.remove(i), ..old(self)@ }),
                    None => final(self)@ == old(self)@ && (r matches Err(e) && e.is_not_found(
                        "rack"@,
                        text::decimal(id as nat),
                    )),
                }
            },
            old(self)@.well_formed() ==> final(self)@.well_formed(),
    {
        let accepts = |n: &NodeEntry| -> (b: bool)
            ensures
                b == (n.rack_id == id)
        { n.rack_id == id };
        let used = lists::position(&self.nodes, accepts, Ghost(|n: NodeEntry| n.rack_id == id));
        if used.is_some() {
            let mut text = decimal_text(id);
            text.append(": rack still referenced by nodes");
            return Err(Error::conflict("rack", text));
        }
        let accepts = |x: &RackEntry| -> (b: bool)
            ensures
                b == (x.id == id)
        { x.id == id };
        let pos = lists::position(&self.racks, accepts, Ghost(rack_numbered(id)));
        match pos {
            Some(i) => {
                let ghost before = self@;
                let entry = self.racks.remove(i);
                proof {
                    let after = Registry { racks: before.racks.remove(i as int), ..before };
                    assert(self@ =~= after);
                    if before.well_formed() {
                        ordered::lemma_remove_unique(before.racks, i as int);
                        assert forall|j: int| 0 <= j < after.nodes.len() implies after.rack_index(
                            (#[trigger] after.nodes[j]).rack_id,
                        ) is Some by {
                            let rack_id = after.nodes[j].rack_id;
                            assert(before.rack_index(before.nodes[j].rack_id) is Some);
                            assert(before.nodes[j].rack_id != id);
                            lists::lemma_remove_keeps_match(
                                before.racks,
                                rack_numbered(rack_id),
                                i as int,
                            );
                        }
                    }
                }
                Ok(entry)
            },
            None => Err(Error::not_found("rack", decimal_text(id))),
        }
    }

    /// Adds a node. Refuses an id that is taken, then a rack that is not
    /// recorded.
    pub fn add_node(&mut self, entry: NodeEntry) -> (r: Result<(), Error>)
        ensures
            match r {
                Ok(_) => old(self)@.node_index(entry.id) is None && old(self)@.rack_index(
                    entry.rack_id,
                ) is Some && final(self)@ == (Registry {
                    nodes: old(self)@.nodes.push(entry),
                    ..old(self)@
                }),
                Err(e) => final(self)@ == old(self)@ && if old(self)@.node_index(entry.id)
                    is Some {
                    e.is_conflict("node"@, text::decimal(entry.id as nat))
                } else {
                    old(self)@.rack_index(entry.rack_id) is None && e.is_validation(
                        "rack_id"@,
                        "unknown rack "@ + text::decimal(entry.rack_id as nat),
                    )
                },
            },
            old(self)@.well_formed() ==> final(self)@.well_formed(),
    {
        let accepts = |x: &NodeEntry| -> (b: bool)
            ensures
                b == (x.id == entry.id)
        { x.id == entry.id };
        let pos = lists::position(&self.nodes, accepts, Ghost(node_numbered(entry.id)));
        if pos.is_some() {
            return Err(Error::conflict("node", decimal_text(entry.id)));
        }
        let accepts = |x: &RackEntry| -> (b: bool)
            ensures
                b == (x.id == entry.rack_id)
        { x.id == entry.rack_id };
        let rack = lists::position(&self.racks, accepts, Ghost(rack_numbered(entry.rack_id)));
        if rack.is_none() {
            let mut message = "unknown rack ".to_owned();
            message.append(decimal_text(entry.rack_id).as_str());
            return Err(Error::validation("rack_id", message));
        }
        let ghost before = self@;
        self.nodes.push(entry);
        proof {
            let after = Registry { nodes: before.nodes.push(entry), ..before };
            assert(self@ =~= after);
            if before.well_formed() {
                assert forall|i: int| 0 <= i < before.nodes.len() implies (
                #[trigger] before.nodes[i]).key() != entry.key() by {
                    assert(before.nodes[i].key()[0] != entry.key()[0]);
                }
                ordered::lemma_push_unique(before.nodes, entry);
                assert forall|i: int| 0 <= i < after.nodes.len() implies after.rack_index(
                    (#[trigger] after.nodes[i]).rack_id,
                ) is Some by {
                    if i < before.nodes.len() {
                        assert(before.rack_index(before.nodes[i].rack_id) is Some);
                    }
                }
            }
        }
        Ok(())
    }

    /// Removes the node with the id `id`. Refuses while a server is recorded
    /// on it.
    pub fn remove_node(&mut self, id: NodeId) -> (r: Result<NodeEntry, Error>)
        ensures
            if lists::first_index(old(self)@.servers, |s: ServerEntry| s.node_id == Some(id))
                is Some {
                final(self)@ == old(self)@ && (r matches Err(e) && e.is_conflict(
                    "node"@,
                    text::decimal(id as nat) + ": node still hosts a deployed server"@,
                ))
            } else {
                match old(self)@.node_index(id) {
                    Some(i) => r == Ok::<NodeEntry, Error>(old(self)@.nodes[i]) && final(self)@ == (
                    Registry { nodes: old(self)@.nodes.remove(i), ..old(self)@ }),
                    None => final(self)@ == old(self)@ && (r matches Err(e) && e.is_not_found(
                        "node"@,
                        text::decimal(id as nat),
                    )),
                }
            },
            old(self)@.well_formed() ==> final(self)@.well_formed(),
    {
        let accepts = |s: &ServerEntry| -> (b: bool)
            ensures
                b == (s.node_id == Some(id))
        { match s.node_id { Some(n) => n == id, None => false, } };
        let used = lists::position(&self.servers, accepts, Ghost(|s: ServerEntry| s.node_id == Some(id)));
        if used.is_some() {
            let mut text = decimal_text(id);
            text.append(": node still hosts a deployed server");
            return Err(Error::conflict("node", text));
        }
        let accepts = |x: &NodeEntry| -> (b: bool)
            ensures
                b == (x.id == id)
        { x.id == id };
        let pos = lists::position(&self.nodes, accepts, Ghost(node_numbered(id)));
        match pos {
            Some(i) => {
                let ghost before = self@;
                let entry = self.nodes.remove(i);
                proof {
                    let after = Registry { nodes: before.nodes.remove(i as int), ..before };
                    assert(self@ =~= after);
                    if before.well_formed() {
                        ordered::lemma_remove_unique(before.nodes, i as int);
                        assert forall|j: int| 0 <= j < after.nodes.len() implies after.rack_index(
                            (#[trigger] after.nodes[j]).rack_id,
                        ) is Some by {
                            let m = if j < i { j } else { j + 1 };
                            assert(after.nodes[j] == before.nodes[m]);
                            assert(before.rack_index(before.nodes[m].rack_id) is Some);
                        }
                    }
                }
                Ok(entry)
            },
            None => Err(Error::not_found("node", decimal_text(id))),
        }
    }

    /// The node with the id `id`.
    pub fn node(&self, id: NodeId) -> (r: Option<&NodeEntry>)
        ensures
            match self@.node_index(id) {
                Some(i) => r == Some(&self@.nodes[i]),
                None => r is None,
            },
    {
        let accepts = |x: &NodeEntry| -> (b: bool)
            ensures
                b == (x.id == id)
        { x.id == id };
        let pos = lists::position(&self.nodes, accepts, Ghost(node_numbered(id)));
        match pos {
            Some(i) => Some(&self.nodes[i]),
            None => None,
        }
    }

    /// Adds a disk group. Refuses an id that is taken, then a node that is
    /// not recorded.
    pub fn add_disk_group(&mut self, entry: DiskGroupEntry) -> (r: Result<(), Error>)
        ensures
            match r {
                Ok(_) => old(self)@.disk_group_index(entry.id) is None && old(self)@.node_index(
                    entry.node_id,
                ) is Some && final(self)@ == (Registry {
                    disk_groups: old(self)@.disk_groups.push(entry),
                    ..old(self)@
                }),
                Err(e) => final(self)@ == old(self)@ && if old(self)@.disk_group_index(entry.id)
                    is Some {
                    e.is_conflict("disk_group"@, text::decimal(entry.id as nat))
                } else {
                    old(self)@.node_index(entry.node_id) is None && e.is_validation(
                        "node_id"@,
                        "unknown node "@ + text::decimal(entry.node_id as nat),
                    )
                },
            },
            old(self)@.well_formed() ==> final(self)@.well_formed(),
    {
        let accepts = |x: &DiskGroupEntry| -> (b: bool)
            ensures
                b == (x.id == entry.id)
        { x.id == entry.id };
        let pos = lists::position(&self.disk_groups, accepts, Ghost(|x: DiskGroupEntry| x.id == entry.id));
        if pos.is_some() {
            return Err(Error::conflict("disk_group", decimal_text(entry.id)));
        }
        if self.node(entry.node_id).is_none() {
            let mut message = "unknown node ".to_owned();
            message.append(decimal_text(entry.node_id).as_str());
            return Err(Error::validation("node_id", message));
        }
        let ghost before = self@;
        self.disk_groups.push(entry);
        proof {
            let after = Registry { disk_groups: before.disk_groups.push(entry), ..before };
            assert(self@ =~= after);
            if before.well_formed() {
                assert forall|i: int| 0 <= i < before.disk_groups.len() implies (
                #[trigger] before.disk_groups[i]).key() != entry.key() by {
                    assert(before.disk_groups[i].key()[0] != entry.key()[0]);
                }
                ordered::lemma_push_unique(before.disk_groups, entry);
                assert forall|i: int| 0 <= i < after.disks.len() implies after.disk_group_index(
                    (#[trigger] after.disks[i]).disk_group_id,
                ) is Some by {
                    let id = after.disks[i].disk_group_id;
                    assert(before.disk_group_index(before.disks[i].disk_group_id) is Some);
                    lists::lemma_push_keeps_match(
                        before.disk_groups,
                        |x: DiskGroupEntry| x.id == id,
                        entry,
                    );
                }
            }
        }
        Ok(())
    }

    /// Removes the disk group with the id `id`. Refuses while it has disks.
    pub fn remove_disk_group(&mut self, id: DiskGroupId) -> (r: Result<DiskGroupEntry, Error>)
        ensures
            if lists::first_index(old(self)@.disks, |d: DiskEntry| d.disk_group_id == id) is Some {
                final(self)@ == old(self)@ && (r matches Err(e) && e.is_conflict(
                    "disk_group"@,
                    text::decimal(id as nat) + ": disk_group still has disks"@,
                ))
            } else {
                match old(self)@.disk_group_index(id) {
                    Some(i) => r == Ok::<DiskGroupEntry, Error>(old(self)@.disk_groups[i])
                        && final(self)@ == (Registry {
                        disk_groups: old(self)@.disk_groups.remove(i),
                        ..old(self)@
                    }),
                    None => final(self)@ == old(self)@ && (r matches Err(e) && e.is_not_found(
                        "disk_group"@,
                        text::decimal(id as nat),
                    )),
                }
            },
            old(self)@.well_formed() ==> final(self)@.well_formed(),
    {
        let accepts = |d: &DiskEntry| -> (b: bool)
            ensures
                b == (d.disk_group_id == id)
        { d.disk_group_id == id };
        let used = lists::position(&self.disks, accepts, Ghost(|d: DiskEntry| d.disk_group_id == id));
        if used.is_some() {
            let mut text = decimal_text(id);
            text.append(": disk_group still has disks");
            return Err(Error::conflict("disk_group", text));
        }
        let accepts = |x: &DiskGroupEntry| -> (b: bool)
            ensures
                b == (x.id == id)
        { x.id == id };
        let pos = lists::position(&self.disk_groups, accepts, Ghost(|x: DiskGroupEntry| x.id == id));
        match pos {
            Some(i) => {
                let ghost before = self@;
                let entry = self.disk_groups.remove(i);
                proof {
                    let after = Registry {
                        disk_groups: before.disk_groups.remove(i as int),
                        ..before
                    };
                    assert(self@ =~= after);
                    if before.well_formed() {
                        ordered::lemma_remove_unique(before.disk_groups, i as int);
                        assert forall|j: int|
                            0 <= j < after.disks.len() implies after.disk_group_index(
                            (#[trigger] after.disks[j]).disk_group_id,
                        ) is Some by {
                            let dg = after.disks[j].disk_group_id;
                            assert(before.disk_group_index(before.disks[j].disk_group_id) is Some);
                            assert(before.disks[j].disk_group_id != id);
                            lists::lemma_remove_keeps_match(
                                before.disk_groups,
                                |x: DiskGroupEntry| x.id == dg,
                                i as int,
                            );
                        }
                    }
                }
                Ok(entry)
            },
            None => Err(Error::not_found("disk_group", decimal_text(id))),
        }
    }

    /// The disk group with the id `id`.
    pub fn disk_group(&self, id: DiskGroupId) -> (r: Option<&DiskGroupEntry>)
        ensures
            match self@.disk_group_index(id) {
                Some(i) => r == Some(&self@.disk_groups[i]),
                None => r is None,
            },
    {
        let accepts = |x: &DiskGroupEntry| -> (b: bool)
            ensures
                b == (x.id == id)
        { x.id == id };
        let pos = lists::position(&self.disk_groups, accepts, Ghost(|x: DiskGroupEntry| x.id == id));
        match pos {
            Some(i) => Some(&self.disk_groups[i]),
            None => None,
        }
    }

    /// The disk groups on node `node_id`, in the order in which they were
    /// added.
    pub fn disk_groups_on_node(&self, node_id: NodeId) -> (r: Vec<&DiskGroupEntry>)
        ensures
            r@.map_values(|x: &DiskGroupEntry| *x) == self@.disk_groups.filter(
                |g: DiskGroupEntry| g.node_id == node_id,
            ),
    {
        let ghost p = |g: DiskGroupEntry| g.node_id == node_id;
        let ghost f = |x: &DiskGroupEntry| *x;
        let mut r: Vec<&DiskGroupEntry> = Vec::new();
        let mut i: usize = 0;
        proof {
            reveal(Seq::filter);
            assert(r@.map_values(f) =~= self.disk_groups@.take(0).filter(p));
        }
        while i < self.disk_groups.len()
            invariant
                i <= self.disk_groups@.len(),
                p == |g: DiskGroupEntry| g.node_id == node_id,
                f == |x: &DiskGroupEntry| *x,
                r@.map_values(f) == self.disk_groups@.take(i as int).filter(p),
            decreases self.disk_groups@.len() - i,
        {
            let e = &self.disk_groups[i];
            proof {
                let t = self.disk_groups@.take(i as int);
                t.lemma_filter_push(*e, p);
                assert(self.disk_groups@.take(i + 1) =~= t.push(*e));
                assert(r@.push(e).map_values(f) =~= r@.map_values(f).push(*e));
            }
            if e.node_id == node_id {
                r.push(e);
            }
            i = i + 1;
        }
        assert(self.disk_groups@.take(i as int) =~= self.disk_groups@);
        r
    }

    /// Adds a disk. Refuses an id that is taken, then a disk group that is
    /// not recorded.
    pub fn add_disk(&mut self, entry: DiskEntry) -> (r: Result<(), Error>)
        ensures
            match r {
                Ok(_) => old(self)@.disk_index(entry.disk_id@) is None
                    && old(self)@.disk_group_index(entry.disk_group_id) is Some && final(self)@ == (
                Registry { disks: old(self)@.disks.push(entry), ..old(self)@ }),
                Err(e) => final(self)@ == old(self)@ && if old(self)@.disk_index(entry.disk_id@)
                    is Some {
                    e.is_conflict("disk"@, entry.disk_id@)
                } else {
                    old(self)@.disk_group_index(entry.disk_group_id) is None && e.is_validation(
                        "disk_group_id"@,
                        "unknown disk_group "@ + text::decimal(entry.disk_group_id as nat),
                    )
                },
            },
            old(self)@.well_formed() ==> final(self)@.well_formed(),
    {
        let accepts = |x: &DiskEntry| -> (b: bool)
            ensures
                b == (x.disk_id@ == entry.disk_id@)
        { x.disk_id == entry.disk_id };
        let pos = lists::position(&self.disks, accepts, Ghost(disk_named(entry.disk_id@)));
        if pos.is_some() {
            return Err(Error::conflict("disk", entry.disk_id));
        }
        if self.disk_group(entry.disk_group_id).is_none() {
            let mut message = "unknown disk_group ".to_owned();
            message.append(decimal_text(entry.disk_group_id).as_str());
            return Err(Error::validation("disk_group_id", message));
        }
        let ghost before = self@;
        self.disks.push(entry);
        proof {
            let after = Registry { disks: before.disks.push(entry), ..before };
            assert(self@ =~= after);
            if before.well_formed() {
                assert forall|i: int| 0 <= i < before.disks.len() implies (
                #[trigger] before.disks[i]).key() != entry.key() by {
                    text::lemma_text_key_injective(before.disks[i].disk_id@, entry.disk_id@);
                }
                ordered::lemma_push_unique(before.disks, entry);
                assert forall|i: int| 0 <= i < after.disks.len() implies after.disk_group_index(
                    (#[trigger] after.disks[i]).disk_group_id,
                ) is Some by {
                    if i < before.disks.len() {
                        assert(before.disk_group_index(before.disks[i].disk_group_id) is Some);
                    }
                }
            }
        }
        Ok(())
    }

    /// Removes the disk with the id `disk_id`.
    pub fn remove_disk(&mut self, disk_id: &str) -> (r: Result<DiskEntry, Error>)
        ensures
            match old(self)@.disk_index(disk_id@) {
                Some(i) => r == Ok::<DiskEntry, Error>(old(self)@.disks[i]) && final(self)@ == (
                Registry { disks: old(self)@.disks.remove(i), ..old(self)@ }),
                None => final(self)@ == old(self)@ && (r matches Err(e) && e.is_not_found(
                    "disk"@,
                    disk_id@,
                )),
            },
            old(self)@.well_formed() ==> final(self)@.well_formed(),
    {
        let accepts = |x: &DiskEntry| -> (b: bool)
            ensures
                b == (x.disk_id@ == disk_id@)
        { text_eq(x.disk_id.as_str(), disk_id) };
        let pos = lists::position(&self.disks, accepts, Ghost(disk_named(disk_id@)));
        match pos {
            Some(i) => {
                let ghost before = self@;
                let entry = self.disks.remove(i);
                proof {
                    let after = Registry { disks: before.disks.remove(i as int), ..before };
                    assert(self@ =~= after);
                    if before.well_formed() {
                        ordered::lemma_remove_unique(before.disks, i as int);
                        assert forall|j: int|
                            0 <= j < after.disks.len() implies after.disk_group_index(
                            (#[trigger] after.disks[j]).disk_group_id,
                        ) is Some by {
                            let m = if j < i { j } else { j + 1 };
                            assert(after.disks[j] == before.disks[m]);
                            assert(before.disk_group_index(before.disks[m].disk_group_id) is Some);
                        }
                    }
                }
                Ok(entry)
            },
            None => Err(Error::not_found("disk", disk_id.to_owned())),
        }
    }

    /// The disk with the id `disk_id`.
    pub fn disk(&self, disk_id: &str) -> (r: Option<&DiskEntry>)
        ensures
            match self@.disk_index(disk_id@) {
                Some(i) => r == Some(&self@.disks[i]),
                None => r is None,
            },
    {
        let accepts = |x: &DiskEntry| -> (b: bool)
            ensures
                b == (x.disk_id@ == disk_id@)
        { text_eq(x.disk_id.as_str(), disk_id) };
        let pos = lists::position(&self.disks, accepts, Ghost(disk_named(disk_id@)));
        match pos {
            Some(i) => Some(&self.disks[i]),
            None => None,
        }
    }

    /// The disks of disk group `dg_id`, in the order in which they were added.
    pub fn disks_in_group(&self, dg_id: DiskGroupId) -> (r: Vec<&DiskEntry>)
        ensures
            r@.map_values(|x: &DiskEntry| *x) == self@.disks.filter(
                |d: DiskEntry| d.disk_group_id == dg_id,
            ),
    {
        let ghost p = |d: DiskEntry| d.disk_group_id == dg_id;
        let ghost f = |x: &DiskEntry| *x;
        let mut r: Vec<&DiskEntry> = Vec::new();
        let mut i: usize = 0;
        proof {
            reveal(Seq::filter);
            assert(r@.map_values(f) =~= self.disks@.take(0).filter(p));
        }
        while i < self.disks.len()
            invariant
                i <= self.disks@.len(),
                p == |d: DiskEntry| d.disk_group_id == dg_id,
                f == |x: &DiskEntry| *x,
                r@.map_values(f) == self.disks@.take(i as int).filter(p),
            decreases self.disks@.len() - i,
        {
            let e = &self.disks[i];
            proof {
                let t = self.disks@.take(i as int);
                t.lemma_filter_push(*e, p);
                assert(self.disks@.take(i + 1) =~= t.push(*e));
                assert(r@.push(e).map_values(f) =~= r@.map_values(f).push(*e));
            }
            if e.disk_group_id == dg_id {
                r.push(e);
            }
            i = i + 1;
        }
        assert(self.disks@.take(i as int) =~= self.disks@);
        r
    }
}

/// A server that was added is found and can be removed again, which leaves the
/// registry as it was; no other server is found elsewhere than before.
pub proof fn lemma_added_server_removed(r: Registry, entry: ServerEntry)
    requires
        r.server_index(entry.id@) is None,
    ensures
        ({
            let after = Registry { servers: r.servers.push(entry), ..r };
            let i = r.servers.len() as int;
            &&& after.server_index(entry.id@) == Some(i)
            &&& after.servers[i] == entry
            &&& (Registry { servers: after.servers.remove(i), ..after }) == r
            &&& forall|id: Seq<char>|
                id != entry.id@ ==> #[trigger] after.server_index(id) == r.server_index(id)
        }),
{
    let after = Registry { servers: r.servers.push(entry), ..r };
    assert forall|id: Seq<char>| #[trigger]
        after.server_index(id) == (if id == entry.id@ {
            Some(r.servers.len() as int)
        } else {
            r.server_index(id)
        }) by {
        lists::lemma_push_keeps_match(r.servers, |s: ServerEntry| s.id@ == id, entry);
    }
    assert(after.servers.remove(r.servers.len() as int) =~= r.servers);
}

/// A rack that was added to a well-formed registry is found and can be removed
/// again, which leaves the registry as it was; no other rack is found
/// elsewhere than before.
pub proof fn lemma_added_rack_removed(r: Registry, entry: RackEntry)
    requires
        r.well_formed(),
        r.rack_index(entry.id) is None,
    ensures
        ({
            let after = Registry { racks: r.racks.push(entry), ..r };
            let i = r.racks.len() as int;
            &&& after.rack_index(entry.id) == Some(i)
            &&& after.racks[i] == entry
            &&& lists::first_index(after.nodes, |n: NodeEntry| n.rack_id == entry.id) is None
            &&& (Registry { racks: after.racks.remove(i), ..after }) == r
            &&& forall|id: RackId|
                id != entry.id ==> #[trigger] after.rack_index(id) == r.rack_index(id)
        }),
{
    let after = Registry { racks: r.racks.push(entry), ..r };
    assert forall|id: RackId| #[trigger]
        after.rack_index(id) == (if id == entry.id {
            Some(r.racks.len() as int)
        } else {
            r.rack_index(id)
        }) by {
        lists::lemma_push_keeps_match(r.racks, rack_numbered(id), entry);
    }
    let p = |n: NodeEntry| n.rack_id == entry.id;
    assert forall|j: int| 0 <= j < r.nodes.len() implies !p(#[trigger] r.nodes[j]) by {
        assert(r.rack_index(r.nodes[j].rack_id) is Some);
    }
    lists::lemma_no_first_index(r.nodes, p);
    assert(after.racks.remove(r.racks.len() as int) =~= r.racks);
}

/// A node that was added, and that no server stands on, is found and can be
/// removed again, which leaves the registry as it was; no other node is found
/// elsewhere than before.
pub proof fn lemma_added_node_removed(r: Registry, entry: NodeEntry)
    requires
        r.node_index(entry.id) is None,
        lists::first_index(r.servers, |s: ServerEntry| s.node_id == Some(entry.id)) is None,
    ensures
        ({
            let after = Registry { nodes: r.nodes.push(entry), ..r };
            let i = r.nodes.len() as int;
            &&& after.node_index(entry.id) == Some(i)
            &&& after.nodes[i] == entry
            &&& lists::first_index(
                after.servers,
                |s: ServerEntry| s.node_id == Some(entry.id),
            ) is None
            &&& (Registry { nodes: after.nodes.remove(i), ..after }) == r
            &&& forall|id: NodeId|
                id != entry.id ==> #[trigger] after.node_index(id) == r.node_index(id)
        }),
{
    let after = Registry { nodes: r.nodes.push(entry), ..r };
    assert forall|id: NodeId| #[trigger]
        after.node_index(id) == (if id == entry.id {
            Some(r.nodes.len() as int)
        } else {
            r.node_index(id)
        }) by {
        lists::lemma_push_keeps_match(r.nodes, node_numbered(id), entry);
    }
    assert(after.nodes.remove(r.nodes.len() as int) =~= r.nodes);
}

/// A disk group that was added to a well-formed registry is found and can be
/// removed again, which leaves the registry as it was; no other disk group is
/// found elsewhere than before.
pub proof fn lemma_added_disk_group_removed(r: Registry, entry: DiskGroupEntry)
    requires
        r.well_formed(),
        r.disk_group_index(entry.id) is None,
    ensures
        ({
            let after = Registry { disk_groups: r.disk_groups.push(entry), ..r };
            let i = r.disk_groups.len() as int;
            &&& after.disk_group_index(entry.id) == Some(i)
            &&& after.disk_groups[i] == entry
            &&& lists::first_index(
                after.disks,
                |d: DiskEntry| d.disk_group_id == entry.id,
            ) is None
            &&& (Registry { disk_groups: after.disk_groups.remove(i), ..after }) == r
            &&& forall|id: DiskGroupId|
                id != entry.id ==> #[trigger] after.disk_group_index(id) == r.disk_group_index(id)
        }),
{
    let after = Registry { disk_groups: r.disk_groups.push(entry), ..r };
    assert forall|id: DiskGroupId| #[trigger]
        after.disk_group_index(id) == (if id == entry.id {
            Some(r.disk_groups.len() as int)
        } else {
            r.disk_group_index(id)
        }) by {
        lists::lemma_push_keeps_match(r.disk_groups, |g: DiskGroupEntry| g.id == id, entry);
    }
    let p = |d: DiskEntry| d.disk_group_id == entry.id;
    assert forall|j: int| 0 <= j < r.disks.len() implies !p(#[trigger] r.disks[j]) by {
        assert(r.disk_group_index(r.disks[j].disk_group_id) is Some);
    }
    lists::lemma_no_first_index(r.disks, p);
    assert(after.disk_groups.remove(r.disk_groups.len() as int) =~= r.disk_groups);
}

/// A disk that was added is found and can be removed again, which leaves the
/// registry as it was; no other disk is found elsewhere than before.
pub proof fn lemma_added_disk_removed(r: Registry, entry: DiskEntry)
    requires
        r.disk_index(entry.disk_id@) is None,
    ensures
        ({
            let after = Registry { disks: r.disks.push(entry), ..r };
            let i = r.disks.len() as int;
            &&& after.disk_index(entry.disk_id@) == Some(i)
            &&& after.disks[i] == entry
            &&& (Registry { disks: after.disks.remove(i), ..after }) == r
            &&& forall|id: Seq<char>|
                id != entry.disk_id@ ==> #[trigger] after.disk_index(id) == r.disk_index(id)
        }),
{
    let after = Registry { disks: r.disks.push(entry), ..r };
    assert forall|id: Seq<char>| #[trigger]
        after.disk_index(id) == (if id == entry.disk_id@ {
            Some(r.disks.len() as int)
        } else {
            r.disk_index(id)
        }) by {
        lists::lemma_push_keeps_match(r.disks, disk_named(id), entry);
    }
    assert(after.disks.remove(r.disks.len() as int) =~= r.disks);
}

/// What is recorded is what the lists hold, entry by entry.
pub proof fn lemma_registry_is_shown(cfg: ConsoleConfig, i: int)
    ensures
        cfg@.racks == cfg.racks@,
        cfg@.nodes == cfg.nodes@,
        cfg@.servers == cfg.servers@,
        cfg@.disk_groups == cfg.disk_groups@,
        cfg@.disks == cfg.disks@,
        cfg@.stores.len() == cfg.stores@.len(),
        cfg@.groups.len() == cfg.groups@.len(),
        0 <= i < cfg.stores@.len() ==> cfg@.stores[i].store_id == cfg.stores@[i].store_id
            && cfg@.stores[i].nodes == cfg.stores@[i].nodes@,
        0 <= i < cfg.groups@.len() ==> cfg@.groups[i].store_id == cfg.groups@[i].store_id
            && cfg@.groups[i].group_id == cfg.groups@[i].group_id && cfg@.groups[i].replicas
            == cfg.groups@[i].replicas@,
        Registry::empty().racks.len() == 0,
        Registry::empty().nodes.len() == 0,
        Registry::empty().servers.len() == 0,
        Registry::empty().stores.len() == 0,
        Registry::empty().groups.len() == 0,
        Registry::empty().disk_groups.len() == 0,
        Registry::empty().disks.len() == 0,
{
}

/// Racks, nodes and disk groups are found under their own id: the first that
/// has it, and none where no entry has it.
pub proof fn lemma_found_by_number(r: Registry, id: u64)
    ensures
        match r.rack_index(id) {
            Some(i) => 0 <= i < r.racks.len() && r.racks[i].id == id && forall|j: int|
                0 <= j < i ==> (#[trigger] r.racks[j]).id != id,
            None => forall|j: int| 0 <= j < r.racks.len() ==> (#[trigger] r.racks[j]).id != id,
        },
        match r.node_index(id) {
            Some(i) => 0 <= i < r.nodes.len() && r.nodes[i].id == id && forall|j: int|
                0 <= j < i ==> (#[trigger] r.nodes[j]).id != id,
            None => forall|j: int| 0 <= j < r.nodes.len() ==> (#[trigger] r.nodes[j]).id != id,
        },
        match r.disk_group_index(id) {
            Some(i) => 0 <= i < r.disk_groups.len() && r.disk_groups[i].id == id && forall|j: int|
                0 <= j < i ==> (#[trigger] r.disk_groups[j]).id != id,
            None => forall|j: int|
                0 <= j < r.disk_groups.len() ==> (#[trigger] r.disk_groups[j]).id != id,
        },
        match r.store_index(id) {
            Some(i) => 0 <= i < r.stores.len() && r.stores[i].store_id == id && forall|j: int|
                0 <= j < i ==> (#[trigger] r.stores[j]).store_id != id,
            None => forall|j: int| 0 <= j < r.stores.len() ==> (#[trigger] r.stores[j]).store_id != id,
        },
        match r.kv_index(id) {
            Some(i) => 0 <= i < r.servers.len() && r.servers[i].node_id == Some(id)
                && r.servers[i].service_type is Kv,
            None => forall|j: int|
                0 <= j < r.servers.len() ==> (#[trigger] r.servers[j]).node_id != Some(id)
                    || !(r.servers[j].service_type is Kv),
        },
{
    let racks = rack_numbered(id);
    let nodes = node_numbered(id);
    let groups = |g: DiskGroupEntry| g.id == id;
    let stores = |s: StoreRecord| s.store_id == id;
    let kvs = |s: ServerEntry| s.is_kv_on(id);
    lists::lemma_first_index(r.racks, racks);
    lists::lemma_first_index(r.nodes, nodes);
    lists::lemma_first_index(r.disk_groups, groups);
    lists::lemma_first_index(r.stores, stores);
    lists::lemma_first_index(r.servers, kvs);
    assert(forall|e: RackEntry| #[trigger] racks(e) <==> e.id == id);
    assert(forall|e: NodeEntry| #[trigger] nodes(e) <==> e.id == id);
    assert(forall|e: DiskGroupEntry| #[trigger] groups(e) <==> e.id == id);
    assert(forall|e: StoreRecord| #[trigger] stores(e) <==> e.store_id == id);
    assert(forall|e: ServerEntry|
        #[trigger] kvs(e) <==> (e.node_id == Some(id) && e.service_type is Kv));
    assert forall|j: int| 0 <= j < r.racks.len() && !racks(r.racks[j]) implies (
    #[trigger] r.racks[j]).id != id by {}
    assert forall|j: int| 0 <= j < r.nodes.len() && !nodes(r.nodes[j]) implies (
    #[trigger] r.nodes[j]).id != id by {}
    assert forall|j: int| 0 <= j < r.servers.len() && !kvs(r.servers[j]) implies (
    #[trigger] r.servers[j]).node_id != Some(id) || !(r.servers[j].service_type is Kv) by {}
}

spec fn server_named(id: Seq<char>) -> spec_fn(ServerEntry) -> bool {
    |s: ServerEntry| s.id@ == id
}

spec fn server_at(url: Seq<char>) -> spec_fn(ServerEntry) -> bool {
    |s: ServerEntry| s.url@ == url
}

/// Servers are found under their own id or URL and disks under their own id:
/// the first that has it, and none where no entry has it.
pub proof fn lemma_found_by_name(r: Registry, name: Seq<char>)
    ensures
        match r.server_index(name) {
            Some(i) => 0 <= i < r.servers.len() && r.servers[i].id@ == name && forall|j: int|
                0 <= j < i ==> (#[trigger] r.servers[j]).id@ != name,
            None => forall|j: int| 0 <= j < r.servers.len() ==> (#[trigger] r.servers[j]).id@ != name,
        },
        match r.url_index(name) {
            Some(i) => 0 <= i < r.servers.len() && r.servers[i].url@ == name && forall|j: int|
                0 <= j < i ==> (#[trigger] r.servers[j]).url@ != name,
            None => forall|j: int|
                0 <= j < r.servers.len() ==> (#[trigger] r.servers[j]).url@ != name,
        },
        match r.disk_index(name) {
            Some(i) => 0 <= i < r.disks.len() && r.disks[i].disk_id@ == name && forall|j: int|
                0 <= j < i ==> (#[trigger] r.disks[j]).disk_id@ != name,
            None => forall|j: int|
                0 <= j < r.disks.len() ==> (#[trigger] r.disks[j]).disk_id@ != name,
        },
{
    let ids = server_named(name);
    let urls = server_at(name);
    let disks = disk_named(name);
    lists::lemma_first_index(r.servers, ids);
    lists::lemma_first_index(r.servers, urls);
    lists::lemma_first_index(r.disks, disks);
    assert(forall|e: ServerEntry| #[trigger] ids(e) <==> e.id@ == name);
    assert(forall|e: ServerEntry| #[trigger] urls(e) <==> e.url@ == name);
    assert(forall|e: DiskEntry| #[trigger] disks(e) <==> e.disk_id@ == name);
}

/// A group is found under the ids of its store and its own.
pub proof fn lemma_found_in_store(r: Registry, store_id: u64, group_id: u64)
    ensures
        match r.group_index(store_id, group_id) {
            Some(i) => 0 <= i < r.groups.len() && r.groups[i].store_id == store_id
                && r.groups[i].group_id == group_id,
            None => forall|j: int|
                0 <= j < r.groups.len() ==> (#[trigger] r.groups[j]).store_id != store_id
                    || r.groups[j].group_id != group_id,
        },
{
    let p = |g: GroupRecord| g.store_id == store_id && g.group_id == group_id;
    lists::lemma_first_index(r.groups, p);
    assert(forall|e: GroupRecord|
        #[trigger] p(e) <==> (e.store_id == store_id && e.group_id == group_id));
}

/// In a registry that is kept up, no two racks, nodes, servers, stores, groups,
/// disk groups or disks have the same ids.
pub proof fn lemma_ids_told_apart(r: Registry, i: int, j: int)
    requires
        r.well_formed(),
        0 <= i < j,
    ensures
        j < r.racks.len() ==> r.racks[i].id != r.racks[j].id,
        j < r.nodes.len() ==> r.nodes[i].id != r.nodes[j].id,
        j < r.servers.len() ==> r.servers[i].id@ != r.servers[j].id@,
        j < r.stores.len() ==> r.stores[i].store_id != r.stores[j].store_id,
        j < r.groups.len() ==> r.groups[i].store_id != r.groups[j].store_id || r.groups[i].group_id
            != r.groups[j].group_id,
        j < r.disk_groups.len() ==> r.disk_groups[i].id != r.disk_groups[j].id,
        j < r.disks.len() ==> r.disks[i].disk_id@ != r.disks[j].disk_id@,
{
    if j < r.racks.len() {
        assert(r.racks[i].key() != r.racks[j].key());
    }
    if j < r.nodes.len() {
        assert(r.nodes[i].key() != r.nodes[j].key());
    }
    if j < r.servers.len() {
        assert(r.servers[i].key() != r.servers[j].key());
    }
    if j < r.stores.len() {
        assert(r.stores[i].key() != r.stores[j].key());
    }
    if j < r.groups.len() {
        assert(r.groups[i].key() != r.groups[j].key());
    }
    if j < r.disk_groups.len() {
        assert(r.disk_groups[i].key() != r.disk_groups[j].key());
    }
    if j < r.disks.len() {
        assert(r.disks[i].key() != r.disks[j].key());
    }
}

/// In a registry that is kept up, every node stands in a recorded rack and
/// every disk in a recorded disk group.
pub proof fn lemma_everything_placed(r: Registry, i: int)
    requires
        r.well_formed(),
    ensures
        0 <= i < r.nodes.len() ==> exists|k: int|
            0 <= k < r.racks.len() && (#[trigger] r.racks[k]).id == r.nodes[i].rack_id,
        0 <= i < r.disks.len() ==> exists|k: int|
            0 <= k < r.disk_groups.len() && (#[trigger] r.disk_groups[k]).id
                == r.disks[i].disk_group_id,
{
    if 0 <= i < r.nodes.len() {
        let id = r.nodes[i].rack_id;
        assert(r.rack_index(id) is Some);
        lemma_found_by_number(r, id);
        assert(r.racks[r.rack_index(id)->0].id == id);
    }
    if 0 <= i < r.disks.len() {
        let id = r.disks[i].disk_group_id;
        assert(r.disk_group_index(id) is Some);
        lemma_found_by_number(r, id);
        assert(r.disk_groups[r.disk_group_index(id)->0].id == id);
    }
}

/// Entries are kept in the order of their ids: numbers by size, groups by store
/// first, servers and disks by their text.
pub proof fn lemma_keys_are_ids(
    rack: RackEntry,
    node: NodeEntry,
    server: ServerEntry,
    store: StoreEntry,
    group: GroupEntry,
    replica: ReplicaEntry,
    disk_group: DiskGroupEntry,
    disk: DiskEntry,
)
    ensures
        rack.key() == seq![rack.id as int],
        node.key() == seq![node.id as int],
        server.key() == text::text_key(server.id@),
        store.key() == seq![store.store_id as int],
        store@.key() == store.key(),
        group.key() == seq![group.store_id as int, group.group_id as int],
        group@.key() == group.key(),
        replica.key() == seq![replica.replica_id as int],
        disk_group.key() == seq![disk_group.id as int],
        disk.key() == text::text_key(disk.disk_id@),
        server.is_kv_on(node.id) <==> server.node_id == Some(node.id) && server.service_type is Kv,
{
}

} // verus!
