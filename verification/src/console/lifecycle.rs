//! Bringing server processes up and down.

pub mod binary;
pub mod command;
pub mod config_text;
pub mod wait;

use vstd::prelude::*;

verus! {

/// What is asked for when a key-value server is brought up. An option that is
/// absent leaves the server's own default in effect.
#[derive(Debug, Clone, PartialEq, Eq, Default)]
pub struct DeployRequest {
    pub server_id: String,
    pub rest_port: u16,
    pub rpc_port: u16,
    /// The binary to run; looked for where absent.
    pub binary: Option<String>,
    pub election_profile: Option<String>,
    pub kv_backend: Option<String>,
    pub wal_backend: Option<String>,
    pub no_fsync: bool,
    /// In seconds.
    pub metrics_interval: Option<u64>,
    pub max_inflight: Option<usize>,
    pub coalesce_max_keys: Option<usize>,
    pub peer_pool_size: Option<usize>,
    pub enable_nagle: Option<bool>,
    pub quickack: Option<bool>,
    pub event_write: Option<bool>,
    pub send_queue_capacity: Option<u32>,
    /// The path of a configuration file.
    pub config: Option<String>,
    pub rpc_workers: Option<u32>,
}

/// A key-value server that was brought up.
#[derive(Debug, Clone, PartialEq, Eq)]
pub struct DeployedServer {
    pub server_id: String,
    pub mgmt_url: String,
    pub rpc_url: String,
    pub pid: u32,
}

/// A disk database that was brought up. Its management listener is not shown.
#[derive(Debug, Clone, PartialEq, Eq)]
pub struct DeployedDiskdb {
    pub server_id: String,
    pub endpoint: String,
    pub pid: u32,
}

/// What is asked for when a chunk database is brought up.
#[derive(Debug, Clone, PartialEq, Eq)]
pub struct ChunkdbDeployRequest {
    pub server_id: String,
    pub instance_id: u64,
    pub http_port: u16,
    pub rpc_port: u16,
    pub kv_server_mgmt_seeds: Vec<String>,
    pub allow_unsafe_ec: bool,
    pub rpc_workers: Option<u32>,
    pub kv_connections: Option<usize>,
    pub kv_client_rpc_workers: Option<u32>,
    pub diskdb_connections: Option<usize>,
    pub diskdb_client_rpc_workers: Option<u32>,
    /// In seconds.
    pub metrics_interval: Option<u64>,
}

/// What is asked for when a disk database is brought up. The three ports are
/// independent.
#[derive(Debug, Clone, PartialEq, Eq, Default)]
pub struct DiskdbDeployRequest {
    pub server_id: String,
    /// The id that owns disk groups.
    pub instance_id: Option<u64>,
    /// In seconds.
    pub metrics_interval: Option<u64>,
    pub rpc_workers: Option<u32>,
    pub kv_connections: Option<usize>,
    pub kv_client_rpc_workers: Option<u32>,
    pub listen_port: u16,
    pub http_port: u16,
    pub rpc_port: u16,
    /// The management addresses of key-value servers.
    pub kv_server_mgmt_seeds: Vec<String>,
}

/// What is asked for when a disk service is brought up.
#[derive(Debug, Clone, PartialEq, Eq)]
pub struct DiskioDeployRequest {
    pub server_id: String,
    pub instance_id: u64,
    pub rpc_port: u16,
    pub rack_id: u64,
    pub node_id: u64,
    pub disk_group_id: u64,
    /// The management addresses of key-value servers.
    pub kv_server_mgmt_seeds: Vec<String>,
    /// In seconds.
    pub metrics_interval: Option<u64>,
}

} // verus!
