//! The chunk data path: cutting objects into blocks, spreading them over
//! erasure-coded strips, and writing them to disks.

pub mod benchmark;
pub mod client;
pub mod config;
pub mod ec_worker;
pub mod error;
pub mod fetch;
pub mod routing;
pub mod writer;
