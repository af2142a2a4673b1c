//! Client-side logic of the crowdb storage system.

pub mod blocks;
pub mod chunk;
pub mod chunkdb;
pub mod console;
pub mod diskdb;
pub mod diskio;
pub mod kv;
pub mod lists;
pub mod metrics;
pub mod ordered;
pub mod protocol;
pub mod rpc;
pub mod scan;
pub mod text;
