//! Clusters: bringing them up, taking them down, and the services on them.

pub mod bootstrap;
pub mod chunkdb;
pub mod diskdb;
pub mod diskio;
pub mod init;
pub mod kv;
pub mod rpc;
pub mod teardown;

use vstd::prelude::*;

verus! {

/// A change to the cluster's metadata that has to succeed.
#[derive(Debug, Clone, PartialEq, Eq)]
pub enum ClusterWrite {
    /// A rack that is up and has no nodes.
    AddRack { rack_id: u64 },
    /// A node that is up and has no disk groups.
    AddNode { rack_id: u64, node_id: u64 },
    RemoveNode { rack_id: u64, node_id: u64 },
    AddStore { store_id: u64, node_ids: Vec<u64> },
    AddGroup { store_id: u64, group_id: u64 },
    /// A replica that votes.
    AddReplica { store_id: u64, group_id: u64, replica_id: u64, node_id: u64, endpoint: String },
    SetOwner { rack_id: u64, node_id: u64, dg_id: u64, instance_id: u64, lease_expiry_ms: u64 },
    SetBind { rack_id: u64, node_id: u64, dg_id: u64, store_id: u64, group_id: u64 },
}

/// What bringing up the metadata group came to: each node with its replica.
#[derive(Debug, Clone, PartialEq, Eq)]
pub struct InitSummary {
    pub store_id: u64,
    pub group_id: u64,
    pub nodes: Vec<(u64, u64)>,
}

/// What wiping user data came to.
#[derive(Debug, Clone, PartialEq, Eq)]
pub struct CleanResult {
    pub new_leader: String,
    pub wiped_nodes: u64,
}

/// What bringing up a local cluster came to.
#[derive(Debug, Clone, PartialEq, Eq)]
pub struct LocalDeploySummary {
    pub node_count: usize,
    pub rack_id: u64,
    pub node_ids: Vec<u64>,
    pub init_summary: InitSummary,
}

/// The disk databases of a local cluster.
#[derive(Debug, Clone, PartialEq, Eq)]
pub struct LocalDiskdbDeploySummary {
    pub instance_count: usize,
    pub disk_group_count: usize,
    pub disk_count: usize,
    pub data_groups: Vec<u64>,
}

/// What is asked for when disk databases are brought up.
#[derive(Debug, Clone, PartialEq, Eq)]
pub struct LocalDiskdbDeployConfig {
    pub disk_groups_per_node: usize,
    pub disks_per_group: usize,
    pub capacity_bytes: u64,
    pub zone_size_bytes: u64,
    pub unit_size_bytes: u32,
    pub data_groups: Vec<u64>,
    pub rpc_workers: Option<u32>,
    pub kv_connections: Option<usize>,
    pub kv_client_rpc_workers: Option<u32>,
}

/// The chunk databases of a local cluster.
#[derive(Debug, Clone, Copy, PartialEq, Eq, Structural)]
pub struct LocalChunkdbDeploySummary {
    pub instance_count: usize,
}

/// What is asked for when chunk databases are brought up.
#[derive(Debug, Clone, PartialEq, Eq)]
pub struct LocalChunkdbDeployConfig {
    pub instance_count: usize,
    pub allow_unsafe_ec: bool,
    pub rpc_workers: Option<u32>,
    pub kv_connections: Option<usize>,
    pub kv_client_rpc_workers: Option<u32>,
    pub diskdb_connections: Option<usize>,
    pub diskdb_client_rpc_workers: Option<u32>,
    pub metrics_interval: Option<u64>,
}

/// What bringing up a whole local stack came to.
#[derive(Debug, Clone, Copy, PartialEq, Eq, Structural)]
pub struct LocalCombinedDeploySummary {
    pub kv_nodes: usize,
    pub racks: usize,
    pub diskdb_instances: usize,
    pub chunkdb_instances: usize,
    pub diskio_instances: usize,
}

/// Settings of the key-value servers of a local cluster. One that is absent
/// leaves the server's own default in effect.
#[derive(Debug, Clone, PartialEq, Eq, Default)]
pub struct KvDeployTunables {
    pub rpc_workers: Option<u32>,
    pub peer_pool_size: Option<usize>,
    pub max_inflight: Option<usize>,
    pub coalesce_max_keys: Option<usize>,
    pub event_write: Option<bool>,
    pub send_queue_capacity: Option<u32>,
    /// In seconds.
    pub metrics_interval: Option<u64>,
    pub kv_backend: Option<String>,
    pub wal_backend: Option<String>,
    pub no_fsync: Option<bool>,
}

/// What bringing up an echo server came to.
#[derive(Debug, Clone, Copy, PartialEq, Eq, Structural)]
pub struct RpcDeploySummary {
    pub port: u16,
    pub pid: u32,
    pub io_engines: u32,
    pub io_workers: u32,
    pub nagle: bool,
}

/// What is asked for when an echo server is brought up.
#[derive(Debug, Clone, Copy, PartialEq, Eq, Structural)]
pub struct RpcDeployConfig {
    /// 0 stands for any free port.
    pub port: u16,
    pub io_engines: u32,
    pub io_workers: u32,
    pub enable_nagle: bool,
    pub metrics_interval: u32,
}

impl Default for RpcDeployConfig {
    fn default() -> (c: Self)
        ensures
            c == (RpcDeployConfig {
                port: 0,
                io_engines: 1,
                io_workers: 1,
                enable_nagle: false,
                metrics_interval: 2,
            }),
    {
        RpcDeployConfig {
            port: 0,
            io_engines: 1,
            io_workers: 1,
            enable_nagle: false,
            metrics_interval: 2,
        }
    }
}

} // verus!
