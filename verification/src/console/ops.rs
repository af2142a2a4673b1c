//! The operations of the console.

pub mod cluster;
pub mod context;
pub mod hardware;
pub mod kv_server;
