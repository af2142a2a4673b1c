//! The operator console: what it has recorded of the cluster, and the
//! operations on it.

pub mod config;
pub mod error;
pub mod lifecycle;
pub mod ops;
pub mod persist;
pub mod topology;
